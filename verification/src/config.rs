//! The settings of the database connection, taken from the environment
//! (`DB_HOST`, `DB_PORT`, `DB_USER`, `DB_PASSWORD`, `DB_NAME`).
//!
//! No credential has a default: a missing user or password is an error
//! rather than an empty login.

use vstd::prelude::*;
use crate::number::{parse_u16, parse_u16_spec};

verus! {

/// How to reach the database.
#[derive(Debug, PartialEq, Eq)]
pub struct DbConfig {
    pub host: String,
    pub port: u16,
    pub user: String,
    pub password: String,
    pub db_name: String,
}

/// Why the settings cannot be used.
#[derive(Debug, Clone, Copy, PartialEq, Eq)]
pub enum ConfigError {
    /// `DB_PORT` is not a port number.
    InvalidPort,
    /// `DB_USER` is not set.
    MissingUser,
    /// `DB_PASSWORD` is not set.
    MissingPassword,
}

impl ConfigError {
    /// The message shown for this error.
    pub fn message(&self) -> (r: &'static str)
        ensures
            *self is InvalidPort ==> r@ == "DB_PORT invalide"@,
            *self is MissingUser ==> r@ == "DB_USER manquant dans l'environnement (.env)"@,
            *self is MissingPassword ==> r@ == "DB_PASSWORD manquant dans l'environnement (.env)"@,
    {
        match self {
            ConfigError::InvalidPort => "DB_PORT invalide",
            ConfigError::MissingUser => "DB_USER manquant dans l'environnement (.env)",
            ConfigError::MissingPassword => "DB_PASSWORD manquant dans l'environnement (.env)",
        }
    }
}

/// The text of a setting, or `default` when it is not set.
pub open spec fn setting_or(value: Option<String>, default: Seq<char>) -> Seq<char> {
    match value {
        Some(v) => v@,
        None => default,
    }
}

/// The text of a setting, or `default` when it is not set.
fn text_or(value: Option<String>, default: &str) -> (r: String)
    ensures
        r@ == setting_or(value, default@),
{
    match value {
        Some(v) => v,
        None => String::from_str(default),
    }
}

/// The connection settings from the environment values (`None` for a
/// variable that is not set): host `127.0.0.1`, port `3306` and database
/// `trafic_aerien` by default; user and password required.
pub fn db_config(
    host: Option<String>,
    port: Option<String>,
    user: Option<String>,
    password: Option<String>,
    db_name: Option<String>,
) -> (r: Result<DbConfig, ConfigError>)
    ensures
        parse_u16_spec(setting_or(port, "3306"@)) is None ==> r == Err::<DbConfig, ConfigError>(
            ConfigError::InvalidPort,
        ),
        parse_u16_spec(setting_or(port, "3306"@)) is Some && user is None ==> r == Err::<
            DbConfig,
            ConfigError,
        >(ConfigError::MissingUser),
        parse_u16_spec(setting_or(port, "3306"@)) is Some && user is Some && password is None
            ==> r == Err::<DbConfig, ConfigError>(ConfigError::MissingPassword),
        parse_u16_spec(setting_or(port, "3306"@)) is Some && user is Some && password is Some ==> (
        r matches Ok(c) && {
            &&& c.host@ == setting_or(host, "127.0.0.1"@)
            &&& Some(c.port) == parse_u16_spec(setting_or(port, "3306"@))
            &&& c.user@ == user->0@
            &&& c.password@ == password->0@
            &&& c.db_name@ == setting_or(db_name, "trafic_aerien"@)
        }),
{
    let host = text_or(host, "127.0.0.1");
    let port_text = text_or(port, "3306");
    let port = match parse_u16(port_text.as_str()) {
        Some(p) => p,
        None => return Err(ConfigError::InvalidPort),
    };
    let user = match user {
        Some(u) => u,
        None => return Err(ConfigError::MissingUser),
    };
    let password = match password {
        Some(p) => p,
        None => return Err(ConfigError::MissingPassword),
    };
    let db_name = text_or(db_name, "trafic_aerien");
    Ok(DbConfig { host, port, user, password, db_name })
}

} // verus!
