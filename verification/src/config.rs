//! The service's settings, read from a `config::Config` that the program
//! builds from `settings.toml` and `MEETINIZER_` environment variables.

use vstd::prelude::*;

verus! {

/// The settings of the `config` crate, carried through unopened.
#[verifier::external_type_specification]
#[verifier::external_body]
pub struct ExConfig(config::Config);

/// The error of the `config` crate, carried through unopened.
#[verifier::external_type_specification]
#[verifier::external_body]
pub struct ExConfigError(config::ConfigError);

/// The settings that `config::Config::get_string` gives as text: the keys it
/// answers with `Ok`, each with the text it answers.
pub uninterp spec fn config_strings(cfg: config::Config) -> Map<Seq<char>, Seq<char>>;

/// The settings that `config::Config::get_int` gives as integers: the keys it
/// answers with `Ok`, each with the integer it answers.
pub uninterp spec fn config_ints(cfg: config::Config) -> Map<Seq<char>, i64>;

/// Calls `config::Config::get_string`. The contract claims only that the
/// answer is the one `config_strings` names for the settings and the key:
/// `Ok` with that text where the key is among them, an error where it is not.
#[verifier::external_body]
fn config_get_string(cfg: &config::Config, key: &str) -> (r: Result<String, config::ConfigError>)
    ensures
        match r {
            Ok(s) => config_strings(*cfg).contains_key(key@) && config_strings(*cfg)[key@] == s@,
            Err(_) => !config_strings(*cfg).contains_key(key@),
        },
{
    cfg.get_string(key)
}

/// Calls `config::Config::get_int`. The contract claims only that the answer
/// is the one `config_ints` names for the settings and the key: `Ok` with that
/// integer where the key is among them, an error where it is not.
#[verifier::external_body]
fn config_get_int(cfg: &config::Config, key: &str) -> (r: Result<i64, config::ConfigError>)
    ensures
        match r {
            Ok(v) => config_ints(*cfg).contains_key(key@) && config_ints(*cfg)[key@] == v,
            Err(_) => !config_ints(*cfg).contains_key(key@),
        },
{
    cfg.get_int(key)
}

/// A setting that is missing or has the wrong kind of value.
pub struct SettingError {
    pub cause: config::ConfigError,
}

/// A text setting under `key`.
fn text_setting(cfg: &config::Config, key: &str) -> (r: Result<String, SettingError>)
    ensures
        match r {
            Ok(s) => config_strings(*cfg).contains_key(key@) && config_strings(*cfg)[key@] == s@,
            Err(_) => !config_strings(*cfg).contains_key(key@),
        },
{
    match config_get_string(cfg, key) {
        Ok(s) => Ok(s),
        Err(cause) => Err(SettingError { cause }),
    }
}

/// An integer setting under `key`.
fn int_setting(cfg: &config::Config, key: &str) -> (r: Result<i64, SettingError>)
    ensures
        match r {
            Ok(v) => config_ints(*cfg).contains_key(key@) && config_ints(*cfg)[key@] == v,
            Err(_) => !config_ints(*cfg).contains_key(key@),
        },
{
    match config_get_int(cfg, key) {
        Ok(v) => Ok(v),
        Err(cause) => Err(SettingError { cause }),
    }
}

/// The address the web server binds to. (setting `server.bind`)
pub fn get_bind(cfg: &config::Config) -> (r: Result<String, SettingError>)
    ensures
        r is Ok <==> config_strings(*cfg).contains_key("server.bind"@),
        r matches Ok(s) ==> s@ == config_strings(*cfg)["server.bind"@],
{
    text_setting(cfg, "server.bind")
}

/// The base address of the service, used to build login links. (setting `server.host`)
pub fn get_host(cfg: &config::Config) -> (r: Result<String, SettingError>)
    ensures
        r is Ok <==> config_strings(*cfg).contains_key("server.host"@),
        r matches Ok(s) ==> s@ == config_strings(*cfg)["server.host"@],
{
    text_setting(cfg, "server.host")
}

/// The secret that signs login tokens. (setting `jwt.secret`)
pub fn get_jwt_secret(cfg: &config::Config) -> (r: Result<String, SettingError>)
    ensures
        r is Ok <==> config_strings(*cfg).contains_key("jwt.secret"@),
        r matches Ok(s) ==> s@ == config_strings(*cfg)["jwt.secret"@],
{
    text_setting(cfg, "jwt.secret")
}

/// The Argon2 hash of the administrator's password. (setting `admin.hash`)
pub fn get_admin_hash(cfg: &config::Config) -> (r: Result<String, SettingError>)
    ensures
        r is Ok <==> config_strings(*cfg).contains_key("admin.hash"@),
        r matches Ok(s) ==> s@ == config_strings(*cfg)["admin.hash"@],
{
    text_setting(cfg, "admin.hash")
}

/// The SMTP server that sends login links. (setting `mail.server`)
pub fn get_mail_server(cfg: &config::Config) -> (r: Result<String, SettingError>)
    ensures
        r is Ok <==> config_strings(*cfg).contains_key("mail.server"@),
        r matches Ok(s) ==> s@ == config_strings(*cfg)["mail.server"@],
{
    text_setting(cfg, "mail.server")
}

/// The user name at the SMTP server. (setting `mail.user`)
pub fn get_mail_user(cfg: &config::Config) -> (r: Result<String, SettingError>)
    ensures
        r is Ok <==> config_strings(*cfg).contains_key("mail.user"@),
        r matches Ok(s) ==> s@ == config_strings(*cfg)["mail.user"@],
{
    text_setting(cfg, "mail.user")
}

/// The password at the SMTP server. (setting `mail.password`)
pub fn get_mail_password(cfg: &config::Config) -> (r: Result<String, SettingError>)
    ensures
        r is Ok <==> config_strings(*cfg).contains_key("mail.password"@),
        r matches Ok(s) ==> s@ == config_strings(*cfg)["mail.password"@],
{
    text_setting(cfg, "mail.password")
}

/// The sender address of mailed login links. (setting `mail.from`)
pub fn get_mail_from(cfg: &config::Config) -> (r: Result<String, SettingError>)
    ensures
        r is Ok <==> config_strings(*cfg).contains_key("mail.from"@),
        r matches Ok(s) ==> s@ == config_strings(*cfg)["mail.from"@],
{
    text_setting(cfg, "mail.from")
}

/// The port of the SMTP server. (setting `mail.port`)
pub fn get_mail_port(cfg: &config::Config) -> (r: Result<i64, SettingError>)
    ensures
        r is Ok <==> config_ints(*cfg).contains_key("mail.port"@),
        r matches Ok(v) ==> v == config_ints(*cfg)["mail.port"@],
{
    int_setting(cfg, "mail.port")
}

/// The number of seconds under the mail settings (setting `mail.seconds`)
pub fn get_mail_seconds(cfg: &config::Config) -> (r: Result<i64, SettingError>)
    ensures
        r is Ok <==> config_ints(*cfg).contains_key("mail.seconds"@),
        r matches Ok(v) ==> v == config_ints(*cfg)["mail.seconds"@],
{
    int_setting(cfg, "mail.seconds")
}

/// How many seconds a mailed login link stays valid. (setting `jwt.valid_seconds`)
pub fn get_jwt_valid_seconds(cfg: &config::Config) -> (r: Result<i64, SettingError>)
    ensures
        r is Ok <==> config_ints(*cfg).contains_key("jwt.valid_seconds"@),
        r matches Ok(v) ==> v == config_ints(*cfg)["jwt.valid_seconds"@],
{
    int_setting(cfg, "jwt.valid_seconds")
}

} // verus!
