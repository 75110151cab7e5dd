//! The administrator's password: making the Argon2 hash that the settings
//! hold, and checking a password against it.

use rand::Rng;
use vstd::prelude::*;
use vstd::string::StringExecFns;
use vstd::utf8::encode_utf8;

use crate::config::{config_strings, get_admin_hash, SettingError};

verus! {

/// The length of the random salt of a new hash, in bytes.
pub const SALT_LEN: usize = 30;

/// The error of the `argon2` crate, carried through unopened.
#[verifier::external_type_specification]
#[verifier::external_body]
pub struct ExArgon2Error(argon2::Error);

/// The encoded hash that `argon2::hash_encoded` makes of the password bytes
/// with the salt and `argon2::Config::default()`, or `None` where it fails.
pub uninterp spec fn argon2_encoded(password: Seq<u8>, salt: Seq<u8>) -> Option<Seq<char>>;

/// What `argon2::verify_encoded` answers for an encoded hash and password
/// bytes: `Some(matches)`, or `None` where it fails.
pub uninterp spec fn argon2_verdict(encoded: Seq<char>, password: Seq<u8>) -> Option<bool>;

/// Hashes the UTF-8 bytes of `password` with `argon2::hash_encoded`, the
/// salt and `argon2::Config::default()`. The contract claims that the
/// outcome is the one `argon2_encoded` names; that it fails exactly where
/// the password is longer than `0xFFFF_FFFF` bytes or the salt is shorter
/// than 8 or longer than `0xFFFF_FFFF` bytes (`Context::new` checks nothing
/// else that the default configuration does not meet); and that
/// `verify_encoded` accepts the password against the hash made of it (it
/// hashes the password again with the parameters and salt that the encoded
/// hash carries and compares).
#[verifier::external_body]
fn argon2_hash(password: &str, salt: &[u8]) -> (r: Result<String, argon2::Error>)
    ensures
        r is Ok <==> (encode_utf8(password@).len() <= 0xFFFF_FFFF && 8 <= salt@.len() <= 0xFFFF_FFFF),
        match r {
            Ok(h) => argon2_encoded(encode_utf8(password@), salt@) == Some(h@) && argon2_verdict(
                h@,
                encode_utf8(password@),
            ) == Some(true),
            Err(_) => argon2_encoded(encode_utf8(password@), salt@) is None,
        },
{
    argon2::hash_encoded(password.as_bytes(), salt, &argon2::Config::default())
}

/// Checks the UTF-8 bytes of `password` against an encoded hash with
/// `argon2::verify_encoded`. The contract claims that the outcome is the one
/// `argon2_verdict` names.
#[verifier::external_body]
fn argon2_verify(encoded: &str, password: &str) -> (r: Result<bool, argon2::Error>)
    ensures
        match r {
            Ok(b) => argon2_verdict(encoded@, encode_utf8(password@)) == Some(b),
            Err(_) => argon2_verdict(encoded@, encode_utf8(password@)) is None,
        },
{
    argon2::verify_encoded(encoded, password.as_bytes())
}

/// `n` random bytes from `rand::rng().random_iter::<u8>()`. Only their
/// number is stated: they are random.
#[verifier::external_body]
fn random_bytes(n: usize) -> (r: Vec<u8>)
    ensures
        r@.len() == n,
{
    rand::rng().random_iter::<u8>().take(n).collect()
}

/// The entry that sets the administrator's hash in `settings.toml`:
/// `[admin]`, a line break, and `hash="…"`.
pub open spec fn admin_entry(hash: Seq<char>) -> Seq<char> {
    "[admin]\nhash=\""@ + hash + "\""@
}

/// Why no hash was made.
pub enum AdminHashError {
    /// The two passwords differ.
    Mismatch,
    /// Hashing failed.
    Hash(argon2::Error),
}

/// The settings entry for the administrator's password, hashed with a fresh
/// random salt of `SALT_LEN` bytes. The entry's hash admits the password.
/// Hashing fails only for a password longer than `0xFFFF_FFFF` bytes.
pub fn argon_hashy(password: &str) -> (r: Result<String, AdminHashError>)
    ensures
        r is Ok <==> encode_utf8(password@).len() <= 0xFFFF_FFFF,
        r is Err ==> exists|salt: Seq<u8>|
            salt.len() == SALT_LEN && #[trigger] argon2_encoded(encode_utf8(password@), salt) is None,
        r matches Ok(entry) ==> exists|salt: Seq<u8>|
            salt.len() == SALT_LEN && #[trigger] argon2_encoded(encode_utf8(password@), salt) is Some
                && entry@ == admin_entry(argon2_encoded(encode_utf8(password@), salt)->0)
                && argon2_verdict(
                argon2_encoded(encode_utf8(password@), salt)->0,
                encode_utf8(password@),
            ) == Some(true),
        r matches Err(e) ==> e is Hash,
{
    let salt = random_bytes(SALT_LEN);
    match argon2_hash(password, salt.as_slice()) {
        Ok(hash) => {
            let mut entry = String::from_str("[admin]\nhash=\"");
            entry.append(hash.as_str());
            entry.append("\"");
            proof {
                assert(entry@ =~= admin_entry(hash@));
            }
            Ok(entry)
        },
        Err(e) => Err(AdminHashError::Hash(e)),
    }
}

/// The settings entry for the administrator's password, given twice as it
/// was typed; refused where the two differ.
pub fn generate_admin_hash(password_1: &str, password_2: &str) -> (r: Result<String, AdminHashError>)
    ensures
        password_1@ != password_2@ <==> r matches Err(AdminHashError::Mismatch),
        password_1@ == password_2@ ==> (r is Ok <==> encode_utf8(password_1@).len() <= 0xFFFF_FFFF),
        r matches Err(AdminHashError::Hash(_)) ==> exists|salt: Seq<u8>|
            salt.len() == SALT_LEN && #[trigger] argon2_encoded(encode_utf8(password_1@), salt) is None,
        r matches Ok(entry) ==> exists|salt: Seq<u8>|
            salt.len() == SALT_LEN && #[trigger] argon2_encoded(encode_utf8(password_1@), salt) is Some
                && entry@ == admin_entry(argon2_encoded(encode_utf8(password_1@), salt)->0)
                && argon2_verdict(
                argon2_encoded(encode_utf8(password_1@), salt)->0,
                encode_utf8(password_1@),
            ) == Some(true),
{
    let first = String::from_str(password_1);
    let second = String::from_str(password_2);
    if first == second {
        match argon_hashy(password_1) {
            Ok(entry) => Ok(entry),
            Err(e) => Err(e),
        }
    } else {
        Err(AdminHashError::Mismatch)
    }
}

/// Why a password could not be checked.
pub enum AdminPasswordError {
    /// The `admin.hash` setting is missing.
    Setting(SettingError),
    /// The hash could not be read.
    Hash(argon2::Error),
}

/// Whether `password` is the administrator's: checked against the hash in the
/// `admin.hash` setting.
pub fn is_correct_admin_password(cfg: &config::Config, password: &str) -> (r: Result<
    bool,
    AdminPasswordError,
>)
    ensures
        !config_strings(*cfg).contains_key("admin.hash"@) <==> r matches Err(
            AdminPasswordError::Setting(_),
        ),
        config_strings(*cfg).contains_key("admin.hash"@) ==> match r {
            Ok(b) => argon2_verdict(config_strings(*cfg)["admin.hash"@], encode_utf8(password@))
                == Some(b),
            Err(_) => argon2_verdict(config_strings(*cfg)["admin.hash"@], encode_utf8(password@))
                is None,
        },
{
    let hash = match get_admin_hash(cfg) {
        Ok(h) => h,
        Err(e) => {
            return Err(AdminPasswordError::Setting(e));
        },
    };
    match argon2_verify(hash.as_str(), password) {
        Ok(b) => Ok(b),
        Err(e) => Err(AdminPasswordError::Hash(e)),
    }
}

} // verus!
