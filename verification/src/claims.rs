//! The claims of login tokens, and the tokens themselves: JSON Web Tokens
//! signed with HMAC-SHA256. The library writes the claims as JSON text, the
//! same text that `serde_json` writes for them; `jsonwebtoken` signs it and
//! checks the signature of a token presented, and the library reads the
//! claims text back and checks the expiry.

use vstd::prelude::*;
use vstd::string::StringExecFns;

use crate::json::{decimal, json_number_of, json_string, json_string_of};
use crate::json_read::{chars_of, lemma_begins_with_split, read_decimal, read_json_string, reads_text};
use crate::laws::{law_admin_claims_json_is_injective, law_meeting_claims_json_is_injective};

verus! {

/// How long a token stays valid: thirty days, in seconds.
pub const TOKEN_LIFETIME_SECS: u64 = 2592000;

/// The error of `jsonwebtoken`, carried through unopened.
#[verifier::external_type_specification]
#[verifier::external_body]
pub struct ExJwtError(jsonwebtoken::errors::Error);

/// The token that `jsonwebtoken::encode` makes with the default header
/// (HS256, type JWT) for the claims written as the JSON text `payload`,
/// signed with the bytes of `secret`.
pub uninterp spec fn hs256_token(payload: Seq<char>, secret: Seq<char>) -> Seq<char>;

/// The claims text that `jsonwebtoken::decode` reads from `token` with the
/// key `DecodingKey::from_secret(secret)` and `Validation::new(HS256)` with
/// the expiry check switched off: the HS256 signature checked, the payload
/// taken as it stands; `None` where `decode` refuses the token.
pub uninterp spec fn hs256_payload(token: Seq<char>, secret: Seq<char>) -> Option<Seq<char>>;

/// How long after its expiry a token is still accepted, in seconds: the
/// default leeway of `jsonwebtoken`'s validation.
pub const TOKEN_LEEWAY_SECS: u64 = 60;

/// Reads the claims text of a token with `jsonwebtoken::decode`, the key
/// `DecodingKey::from_secret(secret)` and `Validation::new(HS256)` with
/// `validate_exp` off, into a `serde_json` raw value, which keeps the text as
/// it stands. The contract claims that the outcome is the one `hs256_payload`
/// names; the expiry is checked by the caller.
#[verifier::external_body]
fn decode_hs256(token: &str, secret: &str) -> (r: Result<String, jsonwebtoken::errors::Error>)
    ensures
        r is Ok <==> hs256_payload(token@, secret@) is Some,
        r matches Ok(p) ==> hs256_payload(token@, secret@) == Some(p@),
{
    let mut validation = jsonwebtoken::Validation::new(jsonwebtoken::Algorithm::HS256);
    validation.validate_exp = false;
    let data = jsonwebtoken::decode::<Box<serde_json::value::RawValue>>(
        token,
        &jsonwebtoken::DecodingKey::from_secret(secret.as_bytes()),
        &validation,
    )?;
    Ok(data.claims.get().to_string())
}

/// The text is the JSON text of meeting or administrator claims, as the
/// library writes it.
pub open spec fn is_claims_json(s: Seq<char>) -> bool {
    (exists|c: MeetingEmailClaimsView| s == #[trigger] meeting_claims_json(c)) || (exists|
        a: AdminClaimsView,
    | s == #[trigger] admin_claims_json(a))
}

/// Signs the claims written as the JSON text `payload` with
/// `jsonwebtoken::encode`, the default header and
/// `EncodingKey::from_secret(secret)`; the text is handed over as a
/// `serde_json` raw value, so that it is signed as it stands. The contract
/// claims that the token is the one `hs256_token` names for the payload and
/// the secret, and that signing succeeds for the claims texts the library
/// writes: `RawValue::from_string` fails only on text that is no JSON, and
/// `encode` with the HS256 header and an HMAC key of any length cannot fail.
/// It also claims that `decode` with the same secret reads the payload back
/// as it stands: the token carries the base64 of the payload and its HMAC,
/// the payload has the `exp` that the validation asks for and no audience,
/// and a raw value keeps the text, which has no surrounding white space.
#[verifier::external_body]
fn encode_hs256(payload: &str, secret: &str) -> (r: Result<String, jsonwebtoken::errors::Error>)
    requires
        is_claims_json(payload@),
    ensures
        r is Ok,
        r matches Ok(t) ==> t@ == hs256_token(payload@, secret@),
        r matches Ok(t) ==> hs256_payload(t@, secret@) == Some(payload@),
{
    let claims = serde_json::value::RawValue::from_string(payload.to_string())?;
    jsonwebtoken::encode(
        &jsonwebtoken::Header::default(),
        &claims,
        &jsonwebtoken::EncodingKey::from_secret(secret.as_bytes()),
    )
}

/// The current time in whole seconds since the Unix epoch, from
/// `jsonwebtoken::get_current_timestamp`. Nothing is stated of it: it is the
/// clock. (That function panics where the clock stands before 1970.)
#[verifier::external_body]
fn current_timestamp() -> u64 {
    jsonwebtoken::get_current_timestamp()
}

/// When a token issued at `iat` expires: thirty days later, wrapping around
/// as `u64` addition does.
pub open spec fn expiry(iat: u64) -> u64 {
    if iat + TOKEN_LIFETIME_SECS <= u64::MAX {
        (iat + TOKEN_LIFETIME_SECS) as u64
    } else {
        (iat + TOKEN_LIFETIME_SECS - 0x1_0000_0000_0000_0000) as u64
    }
}

/// The expiry of a token issued at `iat`.
fn expiry_of(iat: u64) -> (r: u64)
    ensures
        r == expiry(iat),
{
    if iat <= u64::MAX - TOKEN_LIFETIME_SECS {
        iat + TOKEN_LIFETIME_SECS
    } else {
        iat - (u64::MAX - TOKEN_LIFETIME_SECS) - 1
    }
}

/// Why a token could not be made.
pub struct TokenError {
    pub cause: jsonwebtoken::errors::Error,
}

/// Why presented claims do not admit to a meeting.
#[derive(Debug, PartialEq, Eq)]
pub enum AdmissionError {
    /// The login was made for another meeting.
    OtherMeeting,
}

/// Why a token was not accepted.
#[derive(Debug)]
pub enum ClaimsError {
    /// `jsonwebtoken` refused the token: it is no HS256 token signed with the
    /// secret, or its claims are no JSON with an expiry.
    Token(jsonwebtoken::errors::Error),
    /// The claims text is not the one the library writes for such claims.
    Malformed,
    /// The token expired more than `TOKEN_LEEWAY_SECS` ago.
    Expired,
}

/// A token expiring at `exp` is still accepted at `now`.
pub open spec fn accepted_at(exp: u64, now: u64) -> bool {
    now <= exp + TOKEN_LEEWAY_SECS
}

/// The meeting login claims that `token`, signed with `secret`, carries and
/// that are still accepted at `now`, if any.
pub open spec fn meeting_token_claims(token: Seq<char>, secret: Seq<char>, now: u64) -> Option<
    MeetingEmailClaimsView,
> {
    if exists|c: MeetingEmailClaimsView|
        hs256_payload(token, secret) == Some(#[trigger] meeting_claims_json(c)) && accepted_at(c.exp, now) {
        Some(
            choose|c: MeetingEmailClaimsView|
                hs256_payload(token, secret) == Some(#[trigger] meeting_claims_json(c)) && accepted_at(
                    c.exp,
                    now,
                ),
        )
    } else {
        None
    }
}

/// The administrator claims that `token`, signed with `secret`, carries and
/// that are still accepted at `now`, if any.
pub open spec fn admin_token_claims(token: Seq<char>, secret: Seq<char>, now: u64) -> Option<
    AdminClaimsView,
> {
    if exists|c: AdminClaimsView|
        hs256_payload(token, secret) == Some(#[trigger] admin_claims_json(c)) && accepted_at(c.exp, now) {
        Some(
            choose|c: AdminClaimsView|
                hs256_payload(token, secret) == Some(#[trigger] admin_claims_json(c)) && accepted_at(
                    c.exp,
                    now,
                ),
        )
    } else {
        None
    }
}

/// Whether a token expiring at `exp` is still accepted at `now`.
fn is_accepted_at(exp: u64, now: u64) -> (r: bool)
    ensures
        r == accepted_at(exp, now),
{
    now < TOKEN_LEEWAY_SECS || now - TOKEN_LEEWAY_SECS <= exp
}

/// The claims of a meeting login: the meeting, the participant's email
/// address, and when the token was issued and expires (seconds since the
/// Unix epoch).
#[derive(Debug, PartialEq, Eq)]
pub struct MeetingEmailClaims {
    meeting: String,
    email: String,
    iat: u64,
    exp: u64,
}

/// What meeting login claims are.
pub struct MeetingEmailClaimsView {
    pub meeting: Seq<char>,
    pub email: Seq<char>,
    pub iat: u64,
    pub exp: u64,
}

impl View for MeetingEmailClaims {
    type V = MeetingEmailClaimsView;

    closed spec fn view(&self) -> MeetingEmailClaimsView {
        MeetingEmailClaimsView {
            meeting: self.meeting@,
            email: self.email@,
            iat: self.iat,
            exp: self.exp,
        }
    }
}

/// The JSON text of meeting login claims, as `serde_json` writes the fields
/// in their order: `{"meeting":…,"email":…,"iat":…,"exp":…}`.
pub open spec fn meeting_claims_json(c: MeetingEmailClaimsView) -> Seq<char> {
    "{\"meeting\":"@ + (json_string(c.meeting) + (",\"email\":"@ + (json_string(c.email)
        + times_json(c.iat, c.exp))))
}

/// The end of the JSON text of meeting login claims, from the issue time on:
/// `,"iat":…,"exp":…}`.
pub open spec fn times_json(iat: u64, exp: u64) -> Seq<char> {
    ",\"iat\":"@ + (decimal(iat as nat) + (",\"exp\":"@ + (decimal(exp as nat) + "}"@)))
}

impl MeetingEmailClaims {
    /// Claims for the meeting and the email address, issued now and expiring
    /// thirty days later (see `new_at`).
    pub fn new(meeting: &str, email: &str) -> (r: MeetingEmailClaims)
        ensures
            r@.meeting == meeting@,
            r@.email == email@,
            r@.exp == expiry(r@.iat),
    {
        MeetingEmailClaims::new_at(meeting, email, current_timestamp())
    }

    /// Claims for the meeting and the email address, issued at `now` (seconds
    /// since the Unix epoch) and expiring thirty days later.
    pub fn new_at(meeting: &str, email: &str, now: u64) -> (r: MeetingEmailClaims)
        ensures
            r@ == (MeetingEmailClaimsView {
                meeting: meeting@,
                email: email@,
                iat: now,
                exp: expiry(now),
            }),
    {
        MeetingEmailClaims {
            meeting: String::from_str(meeting),
            email: String::from_str(email),
            iat: now,
            exp: expiry_of(now),
        }
    }

    /// Claims made of their parts, as read back from a token.
    pub fn from_parts(meeting: String, email: String, iat: u64, exp: u64) -> (r:
        MeetingEmailClaims)
        ensures
            r@ == (MeetingEmailClaimsView { meeting: meeting@, email: email@, iat, exp }),
    {
        MeetingEmailClaims { meeting, email, iat, exp }
    }

    /// The meeting.
    pub fn get_meeting(&self) -> (r: &str)
        ensures
            r@ == self@.meeting,
    {
        self.meeting.as_str()
    }

    /// The participant's email address.
    pub fn get_email(&self) -> (r: &str)
        ensures
            r@ == self@.email,
    {
        self.email.as_str()
    }

    /// When the claims were issued.
    pub fn get_iat(&self) -> (r: u64)
        ensures
            r == self@.iat,
    {
        self.iat
    }

    /// When the claims expire.
    pub fn get_exp(&self) -> (r: u64)
        ensures
            r == self@.exp,
    {
        self.exp
    }

    /// Whether the claims are for this meeting.
    pub fn is_for_meeting(&self, meeting: &str) -> (r: bool)
        ensures
            r == (self@.meeting == meeting@),
    {
        self.meeting == String::from_str(meeting)
    }

    /// The claims that `token`, signed with `secret`, carries, read at the
    /// moment `now` (seconds since the Unix epoch): refused where
    /// `jsonwebtoken` refuses the token, where its claims text is not that of
    /// meeting login claims as the library writes it, and where the claims
    /// expired more than `TOKEN_LEEWAY_SECS` before `now`.
    pub fn from_token_at(token: &str, secret: &str, now: u64) -> (r: Result<
        MeetingEmailClaims,
        ClaimsError,
    >)
        ensures
            r matches Err(ClaimsError::Token(_)) <==> hs256_payload(token@, secret@) is None,
            r matches Err(ClaimsError::Malformed) <==> (hs256_payload(token@, secret@) is Some
                && forall|c: MeetingEmailClaimsView|
                hs256_payload(token@, secret@)->0 != #[trigger] meeting_claims_json(c)),
            r matches Ok(d) ==> hs256_payload(token@, secret@) == Some(meeting_claims_json(d@))
                && accepted_at(d@.exp, now),
            r is Ok <==> meeting_token_claims(token@, secret@, now) is Some,
            r matches Ok(d) ==> meeting_token_claims(token@, secret@, now) == Some(d@),
            forall|c: MeetingEmailClaimsView|
                hs256_payload(token@, secret@) == Some(#[trigger] meeting_claims_json(c)) ==> (
                accepted_at(c.exp, now) ==> (r matches Ok(d) && d@ == c)) && (!accepted_at(c.exp, now)
                ==> r matches Err(ClaimsError::Expired)),
    {
        let payload = match decode_hs256(token, secret) {
            Ok(p) => p,
            Err(e) => {
                return Err(ClaimsError::Token(e));
            },
        };
        let text = chars_of(payload.as_str());
        let claims = match read_meeting_claims(&text) {
            Some(c) => c,
            None => {
                return Err(ClaimsError::Malformed);
            },
        };
        proof {
            assert forall|c: MeetingEmailClaimsView|
                hs256_payload(token@, secret@) == Some(#[trigger] meeting_claims_json(c)) implies c
                == claims@ by {
                law_meeting_claims_json_is_injective(c, claims@);
            }
        }
        if is_accepted_at(claims.exp, now) {
            Ok(claims)
        } else {
            Err(ClaimsError::Expired)
        }
    }

    /// The claims that `token`, signed with `secret`, carries, read now (see
    /// `from_token_at`).
    pub fn from_token(token: &str, secret: &str) -> (r: Result<MeetingEmailClaims, ClaimsError>)
        ensures
            r matches Err(ClaimsError::Token(_)) <==> hs256_payload(token@, secret@) is None,
            r matches Err(ClaimsError::Malformed) <==> (hs256_payload(token@, secret@) is Some
                && forall|c: MeetingEmailClaimsView|
                hs256_payload(token@, secret@)->0 != #[trigger] meeting_claims_json(c)),
            r matches Ok(d) ==> hs256_payload(token@, secret@) == Some(meeting_claims_json(d@)),
            forall|c: MeetingEmailClaimsView|
                hs256_payload(token@, secret@) == Some(#[trigger] meeting_claims_json(c)) ==> (r is Ok
                    || r matches Err(ClaimsError::Expired)) && (r matches Ok(d) ==> d@ == c),
            exists|now: u64|
                #![trigger meeting_token_claims(token@, secret@, now)]
                (r is Ok <==> meeting_token_claims(token@, secret@, now) is Some) && (r matches Ok(d) ==> meeting_token_claims(
                    token@,
                    secret@,
                    now,
                ) == Some(d@)),
    {
        let now = current_timestamp();
        let r = MeetingEmailClaims::from_token_at(token, secret, now);
        proof {
            assert(r is Ok <==> meeting_token_claims(token@, secret@, now) is Some);
        }
        r
    }

    /// The claims, where they admit to `meeting`: a login admits only to the
    /// meeting it was made for.
    pub fn validate_for_meeting(self, meeting: &str) -> (r: Result<MeetingEmailClaims, AdmissionError>)
        ensures
            r is Ok <==> self@.meeting == meeting@,
            r matches Ok(c) ==> c@ == self@,
            r matches Err(e) ==> e is OtherMeeting,
    {
        if self.is_for_meeting(meeting) {
            Ok(self)
        } else {
            Err(AdmissionError::OtherMeeting)
        }
    }

    /// The claims as JSON text.
    fn to_json(&self) -> (r: String)
        ensures
            r@ == meeting_claims_json(self@),
    {
        let meeting = json_string_of(self.meeting.as_str()).unwrap();
        let email = json_string_of(self.email.as_str()).unwrap();
        let iat = json_number_of(self.iat).unwrap();
        let exp = json_number_of(self.exp).unwrap();
        let mut out = String::from_str("{\"meeting\":");
        out.append(meeting.as_str());
        out.append(",\"email\":");
        out.append(email.as_str());
        out.append(",\"iat\":");
        out.append(iat.as_str());
        out.append(",\"exp\":");
        out.append(exp.as_str());
        out.append("}");
        proof {
            assert(out@ =~= meeting_claims_json(self@));
        }
        out
    }

    /// A token for the meeting and email address of these claims, issued
    /// now (not at `self`'s time) and expiring thirty days later, signed
    /// with `secret`.
    pub fn to_jwt(&self, secret: &str) -> (r: Result<String, TokenError>)
        ensures
            r is Ok,
            r matches Ok(t) ==> exists|iat: u64|
                t@ == #[trigger] hs256_token(
                    meeting_claims_json(
                        MeetingEmailClaimsView {
                            meeting: self@.meeting,
                            email: self@.email,
                            iat: iat,
                            exp: expiry(iat),
                        },
                    ),
                    secret@,
                ) && hs256_payload(t@, secret@) == Some(
                    meeting_claims_json(
                        MeetingEmailClaimsView {
                            meeting: self@.meeting,
                            email: self@.email,
                            iat: iat,
                            exp: expiry(iat),
                        },
                    ),
                ),
    {
        let fresh = MeetingEmailClaims::new(self.meeting.as_str(), self.email.as_str());
        let r = fresh.sign(secret);
        proof {
            assert(fresh@ == (MeetingEmailClaimsView {
                meeting: self@.meeting,
                email: self@.email,
                iat: fresh@.iat,
                exp: expiry(fresh@.iat),
            }));
        }
        r
    }

    /// A token for exactly these claims, signed with `secret`.
    pub fn sign(&self, secret: &str) -> (r: Result<String, TokenError>)
        ensures
            r is Ok,
            r matches Ok(t) ==> t@ == hs256_token(meeting_claims_json(self@), secret@),
            r matches Ok(t) ==> hs256_payload(t@, secret@) == Some(meeting_claims_json(self@)),
    {
        let payload = self.to_json();
        proof {
            assert(payload@ == meeting_claims_json(self@));
        }
        match encode_hs256(payload.as_str(), secret) {
            Ok(t) => Ok(t),
            Err(cause) => Err(TokenError { cause }),
        }
    }
}

/// The claims of an administrator login: when the token was issued and when
/// it expires.
#[derive(Debug, PartialEq, Eq)]
pub struct AdminClaims {
    iat: u64,
    exp: u64,
}

/// What administrator claims are.
pub struct AdminClaimsView {
    pub iat: u64,
    pub exp: u64,
}

impl View for AdminClaims {
    type V = AdminClaimsView;

    closed spec fn view(&self) -> AdminClaimsView {
        AdminClaimsView { iat: self.iat, exp: self.exp }
    }
}

/// The JSON text of administrator claims: `{"iat":…,"exp":…}`.
pub open spec fn admin_claims_json(c: AdminClaimsView) -> Seq<char> {
    "{\"iat\":"@ + (decimal(c.iat as nat) + (",\"exp\":"@ + (decimal(c.exp as nat) + "}"@)))
}

impl AdminClaims {
    /// Claims issued now and expiring thirty days later (see `new_at`).
    pub fn new() -> (r: AdminClaims)
        ensures
            r@.exp == expiry(r@.iat),
    {
        AdminClaims::new_at(current_timestamp())
    }

    /// Claims issued at `now` (seconds since the Unix epoch) and expiring
    /// thirty days later.
    pub fn new_at(now: u64) -> (r: AdminClaims)
        ensures
            r@ == (AdminClaimsView { iat: now, exp: expiry(now) }),
    {
        AdminClaims { iat: now, exp: expiry_of(now) }
    }

    /// When the claims were issued.
    pub fn get_iat(&self) -> (r: u64)
        ensures
            r == self@.iat,
    {
        self.iat
    }

    /// When the claims expire.
    pub fn get_exp(&self) -> (r: u64)
        ensures
            r == self@.exp,
    {
        self.exp
    }

    /// The claims that `token`, signed with `secret`, carries, read at the
    /// moment `now`: refused where `jsonwebtoken` refuses the token, where its
    /// claims text is not that of administrator claims as the library writes
    /// it, and where the claims expired more than `TOKEN_LEEWAY_SECS` before
    /// `now`.
    pub fn from_token_at(token: &str, secret: &str, now: u64) -> (r: Result<AdminClaims, ClaimsError>)
        ensures
            r matches Err(ClaimsError::Token(_)) <==> hs256_payload(token@, secret@) is None,
            r matches Err(ClaimsError::Malformed) <==> (hs256_payload(token@, secret@) is Some
                && forall|c: AdminClaimsView|
                hs256_payload(token@, secret@)->0 != #[trigger] admin_claims_json(c)),
            r matches Ok(d) ==> hs256_payload(token@, secret@) == Some(admin_claims_json(d@))
                && accepted_at(d@.exp, now),
            r is Ok <==> admin_token_claims(token@, secret@, now) is Some,
            r matches Ok(d) ==> admin_token_claims(token@, secret@, now) == Some(d@),
            forall|c: AdminClaimsView|
                hs256_payload(token@, secret@) == Some(#[trigger] admin_claims_json(c)) ==> (
                accepted_at(c.exp, now) ==> (r matches Ok(d) && d@ == c)) && (!accepted_at(c.exp, now)
                ==> r matches Err(ClaimsError::Expired)),
    {
        let payload = match decode_hs256(token, secret) {
            Ok(p) => p,
            Err(e) => {
                return Err(ClaimsError::Token(e));
            },
        };
        let text = chars_of(payload.as_str());
        let claims = match read_admin_claims(&text) {
            Some(c) => c,
            None => {
                return Err(ClaimsError::Malformed);
            },
        };
        proof {
            assert forall|c: AdminClaimsView|
                hs256_payload(token@, secret@) == Some(#[trigger] admin_claims_json(c)) implies c
                == claims@ by {
                law_admin_claims_json_is_injective(c, claims@);
            }
        }
        if is_accepted_at(claims.exp, now) {
            Ok(claims)
        } else {
            Err(ClaimsError::Expired)
        }
    }

    /// The claims that `token`, signed with `secret`, carries, read now (see
    /// `from_token_at`).
    pub fn from_token(token: &str, secret: &str) -> (r: Result<AdminClaims, ClaimsError>)
        ensures
            r matches Err(ClaimsError::Token(_)) <==> hs256_payload(token@, secret@) is None,
            r matches Err(ClaimsError::Malformed) <==> (hs256_payload(token@, secret@) is Some
                && forall|c: AdminClaimsView|
                hs256_payload(token@, secret@)->0 != #[trigger] admin_claims_json(c)),
            r matches Ok(d) ==> hs256_payload(token@, secret@) == Some(admin_claims_json(d@)),
            forall|c: AdminClaimsView|
                hs256_payload(token@, secret@) == Some(#[trigger] admin_claims_json(c)) ==> (r is Ok
                    || r matches Err(ClaimsError::Expired)) && (r matches Ok(d) ==> d@ == c),
            exists|now: u64|
                #![trigger admin_token_claims(token@, secret@, now)]
                (r is Ok <==> admin_token_claims(token@, secret@, now) is Some) && (r matches Ok(d) ==> admin_token_claims(
                    token@,
                    secret@,
                    now,
                ) == Some(d@)),
    {
        let now = current_timestamp();
        let r = AdminClaims::from_token_at(token, secret, now);
        proof {
            assert(r is Ok <==> admin_token_claims(token@, secret@, now) is Some);
        }
        r
    }

    /// Claims made of their parts, as read back from a token.
    pub fn from_parts(iat: u64, exp: u64) -> (r: AdminClaims)
        ensures
            r@ == (AdminClaimsView { iat, exp }),
    {
        AdminClaims { iat, exp }
    }

    /// The claims as JSON text.
    fn to_json(&self) -> (r: String)
        ensures
            r@ == admin_claims_json(self@),
    {
        let iat = json_number_of(self.iat).unwrap();
        let exp = json_number_of(self.exp).unwrap();
        let mut out = String::from_str("{\"iat\":");
        out.append(iat.as_str());
        out.append(",\"exp\":");
        out.append(exp.as_str());
        out.append("}");
        proof {
            assert(out@ =~= admin_claims_json(self@));
        }
        out
    }

    /// A token for an administrator, issued now (not at `self`'s time) and
    /// expiring thirty days later, signed with `secret`.
    pub fn to_jwt(&self, secret: &str) -> (r: Result<String, TokenError>)
        ensures
            r is Ok,
            r matches Ok(t) ==> exists|iat: u64|
                t@ == #[trigger] hs256_token(
                    admin_claims_json(AdminClaimsView { iat: iat, exp: expiry(iat) }),
                    secret@,
                ) && hs256_payload(t@, secret@) == Some(
                    admin_claims_json(AdminClaimsView { iat: iat, exp: expiry(iat) }),
                ),
    {
        let fresh = AdminClaims::new();
        let r = fresh.sign(secret);
        proof {
            assert(fresh@ == (AdminClaimsView { iat: fresh@.iat, exp: expiry(fresh@.iat) }));
        }
        r
    }

    /// A token for exactly these claims, signed with `secret`.
    pub fn sign(&self, secret: &str) -> (r: Result<String, TokenError>)
        ensures
            r is Ok,
            r matches Ok(t) ==> t@ == hs256_token(admin_claims_json(self@), secret@),
            r matches Ok(t) ==> hs256_payload(t@, secret@) == Some(admin_claims_json(self@)),
    {
        let payload = self.to_json();
        proof {
            assert(payload@ == admin_claims_json(self@));
        }
        match encode_hs256(payload.as_str(), secret) {
            Ok(t) => Ok(t),
            Err(cause) => Err(TokenError { cause }),
        }
    }
}

/// Reads administrator claims from their JSON text, as the library writes
/// it: `Some` exactly when the text is the JSON text of some claims.
fn read_admin_claims(t: &Vec<char>) -> (r: Option<AdminClaims>)
    ensures
        r matches Some(c) ==> t@ == admin_claims_json(c@),
        r is None ==> forall|c: AdminClaimsView| t@ != #[trigger] admin_claims_json(c),
{
    let n = t.len();
    let open = "{\"iat\":";
    let sep = ",\"exp\":";
    let close = "}";
    proof {
        reveal_strlit("{\"iat\":");
        reveal_strlit(",\"exp\":");
        reveal_strlit("}");
        assert(t@.skip(0) =~= t@);
        lemma_begins_with_split(t@, 0, open@);
    }
    if !reads_text(t, 0, open) {
        proof {
            assert forall|c: AdminClaimsView| t@ != #[trigger] admin_claims_json(c) by {
                if t@ == admin_claims_json(c) {
                    assert(t@.skip(0) == open@ + (decimal(c.iat as nat) + (sep@ + (decimal(c.exp as nat) + close@))));
                }
            }
        }
        return None;
    }
    let p0 = open.unicode_len();
    proof {
        assert forall|c: AdminClaimsView| t@ == #[trigger] admin_claims_json(c) implies t@.skip(p0 as int)
            == decimal(c.iat as nat) + (sep@ + (decimal(c.exp as nat) + close@)) by {
            assert(t@.skip(0) == open@ + (decimal(c.iat as nat) + (sep@ + (decimal(c.exp as nat) + close@))));
        }
    }
    let (iat, p1) = match read_decimal(t, p0) {
        Some(x) => x,
        None => {
            proof {
                assert forall|c: AdminClaimsView| t@ != #[trigger] admin_claims_json(c) by {
                    if t@ == admin_claims_json(c) {
                        let rest = sep@ + (decimal(c.exp as nat) + close@);
                        assert(rest[0] == ',');
                        assert(t@.skip(p0 as int) == decimal(c.iat as nat) + rest);
                    }
                }
            }
            return None;
        },
    };
    proof {
        assert forall|c: AdminClaimsView| t@ == #[trigger] admin_claims_json(c) implies iat == c.iat
            && t@.skip(p1 as int) == sep@ + (decimal(c.exp as nat) + close@) by {
            let rest = sep@ + (decimal(c.exp as nat) + close@);
            assert(rest[0] == ',');
            assert(t@.skip(p0 as int) == decimal(c.iat as nat) + rest);
            assert(t@.skip(p0 as int) == decimal(c.iat as nat) + rest);
            assert(p1 == p0 + decimal(c.iat as nat).len());
            assert(t@.skip(p1 as int) =~= (decimal(c.iat as nat) + rest).skip(decimal(c.iat as nat).len() as int));
            assert(t@.skip(p1 as int) =~= rest);
        }
        lemma_begins_with_split(t@, p1 as int, sep@);
    }
    if !reads_text(t, p1, sep) {
        proof {
            assert forall|c: AdminClaimsView| t@ != #[trigger] admin_claims_json(c) by {
                if t@ == admin_claims_json(c) {
                    assert(t@.skip(p1 as int) == sep@ + (decimal(c.exp as nat) + close@));
                }
            }
        }
        return None;
    }
    let p2 = p1 + sep.unicode_len();
    proof {
        assert forall|c: AdminClaimsView| t@ == #[trigger] admin_claims_json(c) implies t@.skip(p2 as int)
            == decimal(c.exp as nat) + close@ by {
            assert(t@.skip(p1 as int) == sep@ + (decimal(c.exp as nat) + close@));
        }
    }
    let (exp, p3) = match read_decimal(t, p2) {
        Some(x) => x,
        None => {
            proof {
                assert forall|c: AdminClaimsView| t@ != #[trigger] admin_claims_json(c) by {
                    if t@ == admin_claims_json(c) {
                        assert(close@[0] == '}');
                        assert(t@.skip(p2 as int) == decimal(c.exp as nat) + close@);
                    }
                }
            }
            return None;
        },
    };
    proof {
        assert forall|c: AdminClaimsView| t@ == #[trigger] admin_claims_json(c) implies exp == c.exp
            && t@.skip(p3 as int) == close@ by {
            assert(close@[0] == '}');
            assert(t@.skip(p2 as int) == decimal(c.exp as nat) + close@);
            assert(p3 == p2 + decimal(c.exp as nat).len());
            assert(t@.skip(p3 as int) =~= (decimal(c.exp as nat) + close@).skip(decimal(c.exp as nat).len() as int));
            assert(t@.skip(p3 as int) =~= close@);
        }
        lemma_begins_with_split(t@, p3 as int, close@);
    }
    if !reads_text(t, p3, close) || p3 + 1 != n {
        proof {
            assert forall|c: AdminClaimsView| t@ != #[trigger] admin_claims_json(c) by {
                if t@ == admin_claims_json(c) {
                    assert(t@.skip(p3 as int) == close@ + Seq::<char>::empty());
                }
            }
        }
        return None;
    }
    let r = AdminClaims { iat, exp };
    proof {
        assert(t@.skip(p3 + 1) =~= Seq::<char>::empty());
        assert(t@.skip(p3 as int) =~= close@);
        assert(t@ =~= admin_claims_json(r@));
    }
    Some(r)
}

/// Reads the end of the JSON text of meeting login claims from `p` on: the
/// issue and expiry times, written as `times_json` writes them, up to the end.
fn read_times(t: &Vec<char>, p: usize) -> (r: Option<(u64, u64)>)
    requires
        p <= t@.len(),
    ensures
        r matches Some((iat, exp)) ==> t@.skip(p as int) == times_json(iat, exp),
        r is None ==> forall|i: u64, e: u64| t@.skip(p as int) != #[trigger] times_json(i, e),
{
    let n = t.len();
    let open = ",\"iat\":";
    let sep = ",\"exp\":";
    let close = "}";
    proof {
        reveal_strlit(",\"iat\":");
        reveal_strlit(",\"exp\":");
        reveal_strlit("}");
        lemma_begins_with_split(t@, p as int, open@);
    }
    if !reads_text(t, p, open) {
        proof {
            assert forall|i: u64, e: u64| t@.skip(p as int) != #[trigger] times_json(i, e) by {
                if t@.skip(p as int) == times_json(i, e) {
                    assert(t@.skip(p as int) == open@ + (decimal(i as nat) + (sep@ + (decimal(e as nat) + close@))));
                }
            }
        }
        return None;
    }
    let p0 = p + open.unicode_len();
    proof {
        assert forall|i: u64, e: u64| t@.skip(p as int) == #[trigger] times_json(i, e) implies t@.skip(
            p0 as int,
        ) == decimal(i as nat) + (sep@ + (decimal(e as nat) + close@)) by {
            assert(t@.skip(p as int) == open@ + (decimal(i as nat) + (sep@ + (decimal(e as nat) + close@))));
        }
    }
    let (iat, p1) = match read_decimal(t, p0) {
        Some(x) => x,
        None => {
            proof {
                assert forall|i: u64, e: u64| t@.skip(p as int) != #[trigger] times_json(i, e) by {
                    if t@.skip(p as int) == times_json(i, e) {
                        let rest = sep@ + (decimal(e as nat) + close@);
                        assert(rest[0] == ',');
                        assert(t@.skip(p0 as int) == decimal(i as nat) + rest);
                    }
                }
            }
            return None;
        },
    };
    proof {
        assert forall|i: u64, e: u64| t@.skip(p as int) == #[trigger] times_json(i, e) implies iat == i
            && t@.skip(p1 as int) == sep@ + (decimal(e as nat) + close@) by {
            let rest = sep@ + (decimal(e as nat) + close@);
            assert(rest[0] == ',');
            assert(t@.skip(p0 as int) == decimal(i as nat) + rest);
            assert(p1 == p0 + decimal(i as nat).len());
            assert(t@.skip(p1 as int) =~= (decimal(i as nat) + rest).skip(decimal(i as nat).len() as int));
            assert(t@.skip(p1 as int) =~= rest);
        }
        lemma_begins_with_split(t@, p1 as int, sep@);
    }
    if !reads_text(t, p1, sep) {
        proof {
            assert forall|i: u64, e: u64| t@.skip(p as int) != #[trigger] times_json(i, e) by {
                if t@.skip(p as int) == times_json(i, e) {
                    assert(t@.skip(p1 as int) == sep@ + (decimal(e as nat) + close@));
                }
            }
        }
        return None;
    }
    let p2 = p1 + sep.unicode_len();
    proof {
        assert forall|i: u64, e: u64| t@.skip(p as int) == #[trigger] times_json(i, e) implies t@.skip(
            p2 as int,
        ) == decimal(e as nat) + close@ by {
            assert(t@.skip(p1 as int) == sep@ + (decimal(e as nat) + close@));
        }
    }
    let (exp, p3) = match read_decimal(t, p2) {
        Some(x) => x,
        None => {
            proof {
                assert forall|i: u64, e: u64| t@.skip(p as int) != #[trigger] times_json(i, e) by {
                    if t@.skip(p as int) == times_json(i, e) {
                        assert(close@[0] == '}');
                        assert(t@.skip(p2 as int) == decimal(e as nat) + close@);
                    }
                }
            }
            return None;
        },
    };
    proof {
        assert forall|i: u64, e: u64| t@.skip(p as int) == #[trigger] times_json(i, e) implies exp == e
            && t@.skip(p3 as int) == close@ by {
            assert(close@[0] == '}');
            assert(t@.skip(p2 as int) == decimal(e as nat) + close@);
            assert(p3 == p2 + decimal(e as nat).len());
            assert(t@.skip(p3 as int) =~= (decimal(e as nat) + close@).skip(decimal(e as nat).len() as int));
            assert(t@.skip(p3 as int) =~= close@);
        }
        lemma_begins_with_split(t@, p3 as int, close@);
    }
    if !reads_text(t, p3, close) || p3 + 1 != n {
        proof {
            assert forall|i: u64, e: u64| t@.skip(p as int) != #[trigger] times_json(i, e) by {
                if t@.skip(p as int) == times_json(i, e) {
                    assert(t@.skip(p3 as int) == close@ + Seq::<char>::empty());
                }
            }
        }
        return None;
    }
    proof {
        assert(t@.skip(p3 + 1) =~= Seq::<char>::empty());
        assert(t@.skip(p3 as int) =~= close@);
        assert(t@.skip(p as int) =~= times_json(iat, exp));
    }
    Some((iat, exp))
}

/// Reads meeting login claims from their JSON text, as the library writes
/// it: `Some` exactly when the text is the JSON text of some claims.
fn read_meeting_claims(t: &Vec<char>) -> (r: Option<MeetingEmailClaims>)
    ensures
        r matches Some(c) ==> t@ == meeting_claims_json(c@),
        r is None ==> forall|c: MeetingEmailClaimsView| t@ != #[trigger] meeting_claims_json(c),
{
    let n = t.len();
    let open = "{\"meeting\":";
    let sep = ",\"email\":";
    proof {
        reveal_strlit("{\"meeting\":");
        reveal_strlit(",\"email\":");
        assert(t@.skip(0) =~= t@);
        lemma_begins_with_split(t@, 0, open@);
    }
    if !reads_text(t, 0, open) {
        proof {
            assert forall|c: MeetingEmailClaimsView| t@ != #[trigger] meeting_claims_json(c) by {
                if t@ == meeting_claims_json(c) {
                    assert(t@.skip(0) == open@ + (json_string(c.meeting) + (sep@ + (json_string(c.email)
                        + times_json(c.iat, c.exp)))));
                }
            }
        }
        return None;
    }
    let p0 = open.unicode_len();
    proof {
        assert forall|c: MeetingEmailClaimsView| t@ == #[trigger] meeting_claims_json(c) implies t@.skip(
            p0 as int,
        ) == json_string(c.meeting) + (sep@ + (json_string(c.email) + times_json(c.iat, c.exp))) by {
            assert(t@.skip(0) == open@ + (json_string(c.meeting) + (sep@ + (json_string(c.email)
                + times_json(c.iat, c.exp)))));
        }
    }
    let (meeting, p1) = match read_json_string(t, p0) {
        Some(x) => x,
        None => {
            proof {
                assert forall|c: MeetingEmailClaimsView| t@ != #[trigger] meeting_claims_json(c) by {
                    if t@ == meeting_claims_json(c) {
                        assert(t@.skip(p0 as int) == json_string(c.meeting) + (sep@ + (json_string(
                            c.email,
                        ) + times_json(c.iat, c.exp))));
                    }
                }
            }
            return None;
        },
    };
    proof {
        assert forall|c: MeetingEmailClaimsView| t@ == #[trigger] meeting_claims_json(c) implies meeting@
            == c.meeting && t@.skip(p1 as int) == sep@ + (json_string(c.email) + times_json(
            c.iat,
            c.exp,
        )) by {
            let rest = sep@ + (json_string(c.email) + times_json(c.iat, c.exp));
            assert(t@.skip(p0 as int) == json_string(c.meeting) + rest);
            assert(t@.skip(p1 as int) =~= rest);
        }
        lemma_begins_with_split(t@, p1 as int, sep@);
    }
    if !reads_text(t, p1, sep) {
        proof {
            assert forall|c: MeetingEmailClaimsView| t@ != #[trigger] meeting_claims_json(c) by {
                if t@ == meeting_claims_json(c) {
                    assert(t@.skip(p1 as int) == sep@ + (json_string(c.email) + times_json(c.iat, c.exp)));
                }
            }
        }
        return None;
    }
    let p2 = p1 + sep.unicode_len();
    proof {
        assert forall|c: MeetingEmailClaimsView| t@ == #[trigger] meeting_claims_json(c) implies t@.skip(
            p2 as int,
        ) == json_string(c.email) + times_json(c.iat, c.exp) by {
            assert(t@.skip(p1 as int) == sep@ + (json_string(c.email) + times_json(c.iat, c.exp)));
        }
    }
    let (email, p3) = match read_json_string(t, p2) {
        Some(x) => x,
        None => {
            proof {
                assert forall|c: MeetingEmailClaimsView| t@ != #[trigger] meeting_claims_json(c) by {
                    if t@ == meeting_claims_json(c) {
                        assert(t@.skip(p2 as int) == json_string(c.email) + times_json(c.iat, c.exp));
                    }
                }
            }
            return None;
        },
    };
    proof {
        assert forall|c: MeetingEmailClaimsView| t@ == #[trigger] meeting_claims_json(c) implies email@
            == c.email && t@.skip(p3 as int) == times_json(c.iat, c.exp) by {
            assert(t@.skip(p2 as int) == json_string(c.email) + times_json(c.iat, c.exp));
            assert(t@.skip(p3 as int) =~= times_json(c.iat, c.exp));
        }
    }
    let (iat, exp) = match read_times(t, p3) {
        Some(x) => x,
        None => {
            proof {
                assert forall|c: MeetingEmailClaimsView| t@ != #[trigger] meeting_claims_json(c) by {
                    if t@ == meeting_claims_json(c) {
                        assert(t@.skip(p3 as int) == times_json(c.iat, c.exp));
                    }
                }
            }
            return None;
        },
    };
    let r = MeetingEmailClaims { meeting, email, iat, exp };
    proof {
        assert(t@ =~= meeting_claims_json(r@));
    }
    Some(r)
}

} // verus!
