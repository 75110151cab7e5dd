//! The mail that carries a login link.

use vstd::prelude::*;
use vstd::string::StringExecFns;

verus! {

/// The parts of a login mail that depend on the meeting and the link.
pub struct LoginMail {
    pub subject: String,
    pub html_body: String,
    pub text_body: String,
}

/// The subject: `Login to ` and the meeting.
pub open spec fn login_subject(meeting: Seq<char>) -> Seq<char> {
    "Login to "@ + meeting
}

/// The HTML body: a heading with the meeting, the link as anchor text and
/// target, and a greeting.
pub open spec fn login_html(meeting: Seq<char>, url: Seq<char>) -> Seq<char> {
    "<h1>Login to "@ + meeting + "</h1><p>Please use this link <a href=\""@ + url + "\">"@ + url
        + "</a> to log in and vote.<p>Best regards / the Meetinizer Robot"@
}

/// The plain-text body. It is a fixed text: its `{meeting}` and
/// `{login_url}` are written as they stand, not filled in.
pub open spec fn login_text() -> Seq<char> {
    "Login to {meeting}\n\nPlease use this link {login_url} to log in and vote.\n\nBest regards / the Meetinizer Robot"@
}

/// The mail for a login link to the meeting.
pub fn login_mail(meeting: &str, login_url: &str) -> (r: LoginMail)
    ensures
        r.subject@ == login_subject(meeting@),
        r.html_body@ == login_html(meeting@, login_url@),
        r.text_body@ == login_text(),
{
    let mut subject = String::from_str("Login to ");
    subject.append(meeting);
    let mut html = String::from_str("<h1>Login to ");
    html.append(meeting);
    html.append("</h1><p>Please use this link <a href=\"");
    html.append(login_url);
    html.append("\">");
    html.append(login_url);
    html.append("</a> to log in and vote.<p>Best regards / the Meetinizer Robot");
    let text = String::from_str(
        "Login to {meeting}\n\nPlease use this link {login_url} to log in and vote.\n\nBest regards / the Meetinizer Robot",
    );
    proof {
        assert(subject@ =~= login_subject(meeting@));
        assert(html@ =~= login_html(meeting@, login_url@));
    }
    LoginMail { subject, html_body: html, text_body: text }
}

} // verus!
