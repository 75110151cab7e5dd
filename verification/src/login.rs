//! Password-less logins to a meeting: a participant asks for a login link,
//! which is mailed; the link carries a secret that can be used once, before
//! the login's deadline, and is then traded for a signed token.

use vstd::prelude::*;
use vstd::string::StringExecFns;

use crate::claims::{MeetingEmailClaims, TokenError};
use crate::config::{config_strings, get_jwt_secret, SettingError};
use crate::structs::{fresh_uuid, Timestamp};
use crate::url::{uri_component, uri_component_encoded, url_encode, url_encoded, uuid_text, uuid_to_text};
use vstd::utf8::encode_utf8;

verus! {

/// A pending login: the meeting, the email address it was mailed to, the
/// secret of the link and the moment the link stops being valid.
#[derive(Debug)]
pub struct Login {
    pub meeting: String,
    pub email: String,
    pub secret: String,
    pub valid_until: Timestamp,
}

/// What a pending login is.
pub struct LoginView {
    pub meeting: Seq<char>,
    pub email: Seq<char>,
    pub secret: Seq<char>,
    pub valid_until: Timestamp,
}

impl View for Login {
    type V = LoginView;

    open spec fn view(&self) -> LoginView {
        LoginView {
            meeting: self.meeting@,
            email: self.email@,
            secret: self.secret@,
            valid_until: self.valid_until,
        }
    }
}

/// The login is for this meeting, this email address and this secret.
pub open spec fn login_matches(
    l: LoginView,
    meeting: Seq<char>,
    email: Seq<char>,
    secret: Seq<char>,
) -> bool {
    l.meeting == meeting && l.email == email && l.secret == secret
}

/// The logins that do not match, in their order.
pub open spec fn unmatched(
    logins: Seq<LoginView>,
    meeting: Seq<char>,
    email: Seq<char>,
    secret: Seq<char>,
) -> Seq<LoginView>
    decreases logins.len(),
{
    if logins.len() == 0 {
        Seq::empty()
    } else {
        let rest = unmatched(logins.drop_last(), meeting, email, secret);
        if login_matches(logins.last(), meeting, email, secret) {
            rest
        } else {
            rest.push(logins.last())
        }
    }
}

/// `i` is the position of the first login that matches.
pub open spec fn is_first_match(
    logins: Seq<LoginView>,
    meeting: Seq<char>,
    email: Seq<char>,
    secret: Seq<char>,
    i: int,
) -> bool {
    &&& 0 <= i < logins.len()
    &&& login_matches(logins[i], meeting, email, secret)
    &&& forall|j: int| 0 <= j < i ==> !login_matches(#[trigger] logins[j], meeting, email, secret)
}

/// Some login matches.
pub open spec fn has_match(
    logins: Seq<LoginView>,
    meeting: Seq<char>,
    email: Seq<char>,
    secret: Seq<char>,
) -> bool {
    exists|i: int| 0 <= i < logins.len() && login_matches(#[trigger] logins[i], meeting, email, secret)
}

/// Why a login was refused.
pub enum LoginError {
    /// No pending login has this meeting, email address and secret.
    NoMatch,
    /// The pending login's deadline has passed.
    Expired,
    /// The deadline lies beyond what a timestamp can hold.
    DeadlineOutOfRange,
    /// A setting is missing.
    Setting(SettingError),
    /// The token could not be made.
    Token(TokenError),
}

/// The current time, from `chrono::Utc::now`, as seconds and nanoseconds
/// since the Unix epoch. Nothing is stated of it: it is the clock.
#[verifier::external_body]
fn utc_now() -> Timestamp {
    let now = chrono::Utc::now();
    Timestamp { secs: now.timestamp(), nanos: now.timestamp_subsec_nanos() }
}

/// The login link for a pending login: the service's base address, then
/// `api/meeting/`, the meeting, `/login/`, the email address, `/` and the
/// secret, the last three percent-encoded as `urlencoding` does.
pub open spec fn login_link(host: Seq<char>, l: LoginView) -> Seq<char> {
    host + "api/meeting/"@ + url_encoded(encode_utf8(l.meeting)) + "/login/"@ + url_encoded(
        encode_utf8(l.email),
    ) + "/"@ + url_encoded(encode_utf8(l.secret))
}

/// The login link for `login` at the service's base address `host`.
pub fn login_url(host: &str, login: &Login) -> (r: String)
    ensures
        r@ == login_link(host@, login@),
{
    let mut r = String::from_str(host);
    r.append("api/meeting/");
    let meeting = url_encode(login.meeting.as_str());
    r.append(meeting.as_str());
    r.append("/login/");
    let email = url_encode(login.email.as_str());
    r.append(email.as_str());
    r.append("/");
    let secret = url_encode(login.secret.as_str());
    r.append(secret.as_str());
    proof {
        assert(r@ =~= login_link(host@, login@));
    }
    r
}

/// The moment `valid_seconds` after `now`.
pub open spec fn deadline(now: Timestamp, valid_seconds: i64) -> Timestamp {
    Timestamp { secs: (now.secs + valid_seconds) as i64, nanos: now.nanos }
}

/// A new pending login for the meeting and the email address, with a fresh
/// random secret (an identifier in its hyphenated text form), valid until
/// `valid_seconds` after `now`. Refused only where the deadline does not fit
/// in a timestamp.
pub fn new_login_at(meeting: &str, email: &str, valid_seconds: i64, now: Timestamp) -> (r: Result<
    Login,
    LoginError,
>)
    ensures
        r is Ok <==> i64::MIN <= now.secs + valid_seconds <= i64::MAX,
        r matches Err(e) ==> e is DeadlineOutOfRange,
        r matches Ok(l) ==> {
            &&& l@.meeting == meeting@
            &&& l@.email == email@
            &&& exists|u: u128| l@.secret == #[trigger] uuid_text(u)
            &&& l@.valid_until == deadline(now, valid_seconds)
        },
{
    let secs = match now.secs.checked_add(valid_seconds) {
        Some(s) => s,
        None => {
            return Err(LoginError::DeadlineOutOfRange);
        },
    };
    let u = fresh_uuid();
    let secret = uuid_to_text(u);
    Ok(
        Login {
            meeting: String::from_str(meeting),
            email: String::from_str(email),
            secret,
            valid_until: Timestamp { secs, nanos: now.nanos },
        },
    )
}

/// A new pending login for the meeting and the email address, valid for
/// `valid_seconds` from now (see `new_login_at`).
pub fn new_login(meeting: &str, email: &str, valid_seconds: i64) -> (r: Result<Login, LoginError>)
    ensures
        valid_seconds == 0 ==> r is Ok,
        r is Err ==> exists|now: Timestamp|
            #![trigger now.secs]
            !(i64::MIN <= now.secs + valid_seconds <= i64::MAX),
        r matches Err(e) ==> e is DeadlineOutOfRange,
        r matches Ok(l) ==> {
            &&& l@.meeting == meeting@
            &&& l@.email == email@
            &&& exists|u: u128| l@.secret == #[trigger] uuid_text(u)
            &&& exists|now: Timestamp|
                l@.valid_until == #[trigger] deadline(now, valid_seconds) && i64::MIN <= now.secs
                    + valid_seconds <= i64::MAX
        },
{
    let now = utc_now();
    new_login_at(meeting, email, valid_seconds, now)
}

/// The pending logins, in the order they were registered.
pub struct LoginStore {
    logins: Vec<Login>,
}

impl View for LoginStore {
    type V = Seq<LoginView>;

    closed spec fn view(&self) -> Seq<LoginView> {
        self.logins@.map_values(|l: Login| l@)
    }
}

impl LoginStore {
    /// A store without pending logins.
    pub fn new() -> (r: LoginStore)
        ensures
            r@ == Seq::<LoginView>::empty(),
    {
        let r = LoginStore { logins: Vec::new() };
        proof {
            assert(r@ =~= Seq::<LoginView>::empty());
        }
        r
    }

    /// The number of pending logins.
    pub fn len(&self) -> (r: usize)
        ensures
            r == self@.len(),
    {
        self.logins.len()
    }

    /// Adds a pending login at the end.
    pub fn register(&mut self, login: Login)
        ensures
            final(self)@ == old(self)@.push(login@),
    {
        let ghost l = login@;
        self.logins.push(login);
        proof {
            assert(self@ =~= old(self)@.push(l));
        }
    }

    /// Uses the login link for the meeting, the email address and the secret
    /// at the moment `now`. Every pending login that matches is removed,
    /// whatever the outcome; the others stay, in their order. The attempt
    /// succeeds when the first matching login's deadline lies after `now`.
    pub fn attempt_at(&mut self, meeting: &str, email: &str, secret: &str, now: Timestamp) -> (r:
        Result<(), LoginError>)
        ensures
            !has_match(old(self)@, meeting@, email@, secret@) ==> r is Err && r->Err_0 is NoMatch
                && final(self)@ == old(self)@,
            has_match(old(self)@, meeting@, email@, secret@) ==> {
                &&& final(self)@ == unmatched(old(self)@, meeting@, email@, secret@)
                &&& exists|i: int|
                    is_first_match(old(self)@, meeting@, email@, secret@, i) && (r is Ok
                        <==> now.precedes(#[trigger] old(self)@[i].valid_until)) && (r is Err
                        ==> r->Err_0 is Expired)
            },
    {
        let ghost old_view = self@;
        let meeting = String::from_str(meeting);
        let email = String::from_str(email);
        let secret = String::from_str(secret);
        let k = match self.first_match(&meeting, &email, &secret) {
            None => {
                return Err(LoginError::NoMatch);
            },
            Some(k) => k,
        };
        let valid = now.is_before(&self.logins[k].valid_until);
        proof {
            assert(old_view[k as int] == self.logins@[k as int]@);
        }
        self.remove_matching(&meeting, &email, &secret);
        proof {
            assert(is_first_match(old_view, meeting@, email@, secret@, k as int));
            assert(valid == now.precedes(old_view[k as int].valid_until));
        }
        if valid {
            Ok(())
        } else {
            Err(LoginError::Expired)
        }
    }

    /// The position of the first login that matches, if any.
    fn first_match(&self, meeting: &String, email: &String, secret: &String) -> (r: Option<usize>)
        ensures
            match r {
                None => !has_match(self@, meeting@, email@, secret@),
                Some(k) => is_first_match(self@, meeting@, email@, secret@, k as int),
            },
    {
        let mut i: usize = 0;
        while i < self.logins.len()
            invariant
                0 <= i <= self.logins@.len(),
                forall|j: int|
                    0 <= j < i ==> !login_matches(#[trigger] self@[j], meeting@, email@, secret@),
            decreases self.logins@.len() - i,
        {
            proof {
                assert(self@[i as int] == self.logins@[i as int]@);
            }
            if self.logins[i].meeting == *meeting && self.logins[i].email == *email
                && self.logins[i].secret == *secret {
                return Some(i);
            }
            i += 1;
        }
        proof {
            if has_match(self@, meeting@, email@, secret@) {
                let j = choose|j: int|
                    0 <= j < self@.len() && login_matches(#[trigger] self@[j], meeting@, email@, secret@);
                assert(j < i);
            }
        }
        None
    }

    /// Removes every login that matches, keeping the others in their order.
    fn remove_matching(&mut self, meeting: &String, email: &String, secret: &String)
        ensures
            final(self)@ == unmatched(old(self)@, meeting@, email@, secret@),
    {
        let ghost old_view = self@;
        let mut kept: Vec<Login> = Vec::new();
        let mut taken: Vec<Login> = Vec::new();
        std::mem::swap(&mut taken, &mut self.logins);
        let ghost all = taken@;
        let n = taken.len();
        let mut reversed: Vec<Login> = Vec::new();
        while taken.len() > 0
            invariant
                all.len() == n,
                taken@.len() + reversed@.len() == n,
                forall|j: int| 0 <= j < taken@.len() ==> taken@[j] == all[j],
                forall|j: int| 0 <= j < reversed@.len() ==> reversed@[j] == all[n - 1 - j],
            decreases taken@.len(),
        {
            let l = taken.pop().unwrap();
            reversed.push(l);
        }
        proof {
            assert(old_view =~= all.map_values(|l: Login| l@));
        }
        while reversed.len() > 0
            invariant
                all.len() == n,
                reversed@.len() <= n,
                forall|j: int| 0 <= j < reversed@.len() ==> reversed@[j] == all[n - 1 - j],
                old_view == all.map_values(|l: Login| l@),
                kept@.map_values(|l: Login| l@) == unmatched(
                    old_view.subrange(0, n - reversed@.len()),
                    meeting@,
                    email@,
                    secret@,
                ),
            decreases reversed@.len(),
        {
            let ghost idx = n - reversed@.len();
            let l = reversed.pop().unwrap();
            proof {
                assert(l == all[idx]);
                let pre = old_view.subrange(0, idx + 1);
                assert(pre.drop_last() =~= old_view.subrange(0, idx));
                assert(pre.last() == l@);
            }
            if l.meeting == *meeting && l.email == *email && l.secret == *secret {
            } else {
                let ghost before = kept@;
                kept.push(l);
                proof {
                    assert(kept@.map_values(|l: Login| l@) =~= before.map_values(|l: Login| l@).push(
                        all[idx]@,
                    ));
                }
            }
        }
        proof {
            assert(old_view.subrange(0, n as int) =~= old_view);
        }
        self.logins = kept;
    }

    /// Uses the login link for the meeting, the email address and the secret
    /// now, as `attempt_at` does, and on success returns a token for the
    /// meeting and the email address signed with the `jwt.secret` setting
    /// (read after the matching logins were removed). Whatever the clock
    /// read, the outcome is decided by the first matching login's deadline
    /// and by whether the secret is set; signing never fails.
    pub fn attempt_login(&mut self, cfg: &config::Config, meeting: &str, email: &str, token: &str) -> (r:
        Result<String, LoginError>)
        ensures
            r matches Err(LoginError::NoMatch) <==> !has_match(old(self)@, meeting@, email@, token@),
            !has_match(old(self)@, meeting@, email@, token@) ==> final(self)@ == old(self)@,
            has_match(old(self)@, meeting@, email@, token@) ==> final(self)@ == unmatched(
                old(self)@,
                meeting@,
                email@,
                token@,
            ),
            has_match(old(self)@, meeting@, email@, token@) ==> exists|now: Timestamp, i: int|
                #![trigger now.precedes(old(self)@[i].valid_until)]
                is_first_match(old(self)@, meeting@, email@, token@, i) && (r matches Err(
                    LoginError::Expired,
                ) <==> !now.precedes(old(self)@[i].valid_until)) && (r is Ok
                    <==> now.precedes(old(self)@[i].valid_until) && config_strings(
                    *cfg,
                ).contains_key("jwt.secret"@)),
            r matches Err(LoginError::Setting(_)) ==> has_match(old(self)@, meeting@, email@, token@)
                && !config_strings(*cfg).contains_key("jwt.secret"@),
            r matches Err(e) ==> !(e is DeadlineOutOfRange) && !(e is Token),
            r matches Ok(t) ==> exists|iat: u64|
                t@ == #[trigger] crate::claims::hs256_token(
                    crate::claims::meeting_claims_json(
                        crate::claims::MeetingEmailClaimsView {
                            meeting: meeting@,
                            email: email@,
                            iat: iat,
                            exp: crate::claims::expiry(iat),
                        },
                    ),
                    config_strings(*cfg)["jwt.secret"@],
                ) && crate::claims::hs256_payload(t@, config_strings(*cfg)["jwt.secret"@]) == Some(
                    crate::claims::meeting_claims_json(
                        crate::claims::MeetingEmailClaimsView {
                            meeting: meeting@,
                            email: email@,
                            iat: iat,
                            exp: crate::claims::expiry(iat),
                        },
                    ),
                ),
    {
        let now = utc_now();
        let ghost before = self@;
        let attempt = self.attempt_at(meeting, email, token, now);
        let ghost first: int = choose|i: int|
            is_first_match(before, meeting@, email@, token@, i) && (attempt is Ok <==> now.precedes(
                #[trigger] before[i].valid_until,
            )) && (attempt is Err ==> attempt->Err_0 is Expired);
        proof {
            if has_match(before, meeting@, email@, token@) {
                assert(is_first_match(before, meeting@, email@, token@, first) && (attempt is Ok
                    <==> now.precedes(before[first].valid_until)));
            }
        }
        match attempt {
            Err(e) => Err(e),
            Ok(()) => {
                let secret = match get_jwt_secret(cfg) {
                    Ok(s) => s,
                    Err(e) => {
                        return Err(LoginError::Setting(e));
                    },
                };
                let claims = MeetingEmailClaims::new(meeting, email);
                match claims.to_jwt(secret.as_str()) {
                    Ok(t) => Ok(t),
                    Err(e) => Err(LoginError::Token(e)),
                }
            },
        }
    }
}

/// Where the cookies of a meeting login go: the meeting percent-encoded as
/// `uri_encode::encode_uri_component` does, the path under which the login
/// cookie is sent (`/api/meeting/` and the encoded meeting) and the page a
/// participant is sent to (`/meet/` and the encoded meeting).
pub struct MeetingCookiePaths {
    pub meeting: String,
    pub path: String,
    pub redirect: String,
}

/// The cookie paths of a meeting login.
pub fn meeting_cookie_paths(meeting: &str) -> (r: MeetingCookiePaths)
    ensures
        r.meeting@ == uri_component_encoded(encode_utf8(meeting@)),
        r.path@ == "/api/meeting/"@ + uri_component_encoded(encode_utf8(meeting@)),
        r.redirect@ == "/meet/"@ + uri_component_encoded(encode_utf8(meeting@)),
{
    let encoded = uri_component(meeting);
    let mut path = String::from_str("/api/meeting/");
    path.append(encoded.as_str());
    let mut redirect = String::from_str("/meet/");
    redirect.append(encoded.as_str());
    MeetingCookiePaths { meeting: encoded, path, redirect }
}

/// Whether `c` has the Unicode `White_Space` property, the property that
/// `char::is_whitespace` and `str::trim` go by: the tab, line feed, vertical
/// tab, form feed and carriage return, the space, the next line character,
/// the no-break space, the Ogham space mark, the spaces from the en quad to
/// the hair space, the line and paragraph separators, the narrow no-break
/// space, the medium mathematical space and the ideographic space.
pub open spec fn white_space(c: char) -> bool {
    let n = c as u32;
    ||| 0x9 <= n <= 0xD
    ||| n == 0x20
    ||| n == 0x85
    ||| n == 0xA0
    ||| n == 0x1680
    ||| 0x2000 <= n <= 0x200A
    ||| n == 0x2028
    ||| n == 0x2029
    ||| n == 0x202F
    ||| n == 0x205F
    ||| n == 0x3000
}

/// Whether `c` is white space.
fn is_white_space(c: char) -> (r: bool)
    ensures
        r == white_space(c),
{
    let n = c as u32;
    (0x9 <= n && n <= 0xD) || n == 0x20 || n == 0x85 || n == 0xA0 || n == 0x1680 || (0x2000 <= n
        && n <= 0x200A) || n == 0x2028 || n == 0x2029 || n == 0x202F || n == 0x205F || n == 0x3000
}

/// Every character of `s` is white space (so `s` trims to nothing).
pub open spec fn blank(s: Seq<char>) -> bool {
    forall|i: int| 0 <= i < s.len() ==> white_space(#[trigger] s[i])
}

/// Whether `s` is empty once white space is trimmed from both ends.
pub fn is_blank(s: &str) -> (r: bool)
    ensures
        r == blank(s@),
{
    let n = s.unicode_len();
    let mut i: usize = 0;
    while i < n
        invariant
            n == s@.len(),
            0 <= i <= n,
            forall|k: int| 0 <= k < i ==> white_space(#[trigger] s@[k]),
        decreases n - i,
    {
        if !is_white_space(s.get_char(i)) {
            return false;
        }
        i += 1;
    }
    true
}

/// Whether a request for a login link names a meeting and an email address
/// that are not blank.
pub fn login_request_is_valid(meeting: &str, email: &str) -> (r: bool)
    ensures
        r == !(blank(meeting@) || blank(email@)),
{
    !(is_blank(meeting) || is_blank(email))
}

} // verus!
