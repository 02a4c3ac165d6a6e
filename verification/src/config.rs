//! Application configuration as plain data, with its validation rules.
//! Loading from files and the environment happens outside the library.

use vstd::prelude::*;

verus! {

/// Where the server binds.
#[derive(Debug)]
pub struct ServerConfig {
    pub host: String,
    pub port: u16,
}

/// Where the data lives.
#[derive(Debug)]
pub struct DatabaseConfig {
    pub url: String,
}

/// Session and signing settings.
#[derive(Debug)]
pub struct SecurityConfig {
    pub session_duration_hours: u32,
    pub jwt_secret: String,
}

/// Log output settings; the level is kept as its configured name.
#[derive(Debug)]
pub struct LoggingConfig {
    pub level: String,
    pub format: String,
    pub enable_colors: bool,
}

/// Fixed names used by the import tooling.
#[derive(Debug)]
pub struct ImportConfig {
    pub rule_set_name: String,
    pub rule_set_slug: String,
    pub version_name: String,
    pub version_effective_date: String,
}

/// The application's configuration.
#[derive(Debug)]
pub struct Config {
    pub server: ServerConfig,
    pub database: DatabaseConfig,
    pub security: SecurityConfig,
    pub logging: LoggingConfig,
}

impl Config {
    /// Accepts exactly the configurations whose signing secret has at
    /// least 32 characters; an empty and a short secret are told apart.
    pub fn validate(&self) -> (r: Result<(), ConfigError>)
        ensures
            self.security.jwt_secret@.len() == 0 ==> r == Err::<(), ConfigError>(
                ConfigError::EmptyJwtSecret,
            ),
            0 < self.security.jwt_secret@.len() < 32 ==> r == Err::<(), ConfigError>(
                ConfigError::ShortJwtSecret,
            ),
            self.security.jwt_secret@.len() >= 32 ==> r == Ok::<(), ConfigError>(()),
    {
        let len = self.security.jwt_secret.as_str().unicode_len();
        if len == 0 {
            Err(ConfigError::EmptyJwtSecret)
        } else if len < 32 {
            Err(ConfigError::ShortJwtSecret)
        } else {
            Ok(())
        }
    }

    /// The server bind address: the host, a colon, and the port in
    /// decimal.
    pub fn bind_address(&self) -> (r: String)
        ensures
            r@ == self.server.host@ + seq![':'] + crate::text::dec_digits(
                self.server.port as nat,
            ),
    {
        let mut r = self.server.host.clone();
        crate::text::push_char(&mut r, ':');
        let digits = crate::text::u64_to_dec(self.server.port as u64);
        r.append(digits.as_str());
        proof {
            assert(r@ =~= self.server.host@ + seq![':'] + crate::text::dec_digits(
                self.server.port as nat,
            ));
        }
        r
    }

    /// The configured session duration in seconds.
    pub fn session_duration(&self) -> (r: i64)
        ensures
            r == self.security.session_duration_hours * 3600,
    {
        (self.security.session_duration_hours as i64) * 3600
    }
}

/// Why a configuration was refused.
#[derive(Clone, Copy, Debug, PartialEq, Eq, Structural)]
pub enum ConfigError {
    EmptyJwtSecret,
    ShortJwtSecret,
}

impl ConfigError {
    /// The refusal in words.
    pub fn message(&self) -> (r: &'static str)
        ensures
            *self == ConfigError::EmptyJwtSecret ==> r@ == "JWT secret cannot be empty"@,
            *self == ConfigError::ShortJwtSecret ==> r@
                == "JWT secret must be at least 32 characters long"@,
    {
        match self {
            ConfigError::EmptyJwtSecret => "JWT secret cannot be empty",
            ConfigError::ShortJwtSecret => "JWT secret must be at least 32 characters long",
        }
    }
}

} // verus!
