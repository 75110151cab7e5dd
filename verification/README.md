# Meetinizer

A self-hosted service that helps a group of people agree on a date and time
for a meeting, with password-less logins by mailed links.

- `src/` is the verified library (Verus): meetings with their users, slots
  and votes (`structs`), revision-checked updates (`meeting_db`), the login
  links and their store (`login`), token claims, their JSON form and reading
  them back from a token (`claims`, `json`, `json_read`), percent-encoding and
  identifier text (`url`), the administrator's password hash (`admin`), the
  settings (`config`), the login mail (`mail`), a sample meeting (`mock`), and
  the laws that hold across operations (`laws`).
- `app/` is the program around it: command line, web server, SQLite storage,
  SMTP delivery, and the serde forms of the library's types.
- `tests/` runs the library against the real outside crates.
