//! The configuration a server starts with, made once from what its
//! environment holds and handed on from there.

use vstd::prelude::*;
use crate::text::{parse_u16, unsigned_value};

verus! {

/// The port to listen on where the environment names none.
pub const DEFAULT_PORT: u16 = 3000;

/// Where the database is and on which port to listen.
#[derive(Debug)]
pub struct EnvironmentVariables {
    pub database_url: String,
    pub port: u16,
}

impl Clone for EnvironmentVariables {
    fn clone(&self) -> (res: Self)
        ensures
            res == *self,
    {
        EnvironmentVariables { database_url: self.database_url.clone(), port: self.port }
    }
}

/// Why no configuration could be made.
#[derive(Clone, Copy, Debug, PartialEq, Eq, Structural)]
pub enum ConfigError {
    /// The environment names no database.
    MissingDatabaseUrl,
    /// The environment names a port that is no number of 16 bits.
    InvalidPort,
}

/// The port a text names.
pub open spec fn port_value(text: Seq<char>) -> Option<u16> {
    match unsigned_value(text) {
        Some(v) => if v <= u16::MAX {
            Some(v as u16)
        } else {
            None
        },
        None => None,
    }
}

impl EnvironmentVariables {
    /// Makes the configuration from the values of `DATABASE_URL` and `PORT`
    /// as the environment holds them, `None` standing for a variable that
    /// is not set. The database is needed; the port falls back to
    /// [`DEFAULT_PORT`] where none is set, and must be a number where one
    /// is.
    pub fn from_env(database_url: Option<String>, port: Option<String>) -> (made: Result<
        EnvironmentVariables,
        ConfigError,
    >)
        ensures
            database_url is None ==> made == Err::<EnvironmentVariables, ConfigError>(
                ConfigError::MissingDatabaseUrl,
            ),
            database_url is Some && port is None ==> made == Ok::<
                EnvironmentVariables,
                ConfigError,
            >(EnvironmentVariables { database_url: database_url.unwrap(), port: DEFAULT_PORT }),
            database_url is Some && port is Some ==> made == match port_value(port.unwrap()@) {
                Some(number) => Ok::<EnvironmentVariables, ConfigError>(
                    EnvironmentVariables { database_url: database_url.unwrap(), port: number },
                ),
                None => Err::<EnvironmentVariables, ConfigError>(ConfigError::InvalidPort),
            },
    {
        let url: String = match database_url {
            Some(url) => url,
            None => {
                return Err(ConfigError::MissingDatabaseUrl);
            },
        };
        let number: u16 = match port {
            Some(text) => match parse_u16(text.as_str()) {
                Some(number) => number,
                None => {
                    return Err(ConfigError::InvalidPort);
                },
            },
            None => DEFAULT_PORT,
        };
        Ok(EnvironmentVariables { database_url: url, port: number })
    }
}

} // verus!
