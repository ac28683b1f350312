//! Connection configuration and the bounded-retry policy of the connection
//! resilience layer.

use vstd::prelude::*;

verus! {

/// Database connection settings, as loaded by the surrounding program.
pub struct Database {
    pub host: String,
    pub username: String,
    pub password: String,
    pub port: u32,
    pub database: String,
}

/// The connection parameters the persistence layer dials with.
pub struct DatabaseEngine {
    pub host: String,
    pub user: String,
    pub password: String,
    pub port: u32,
    pub database: String,
}

impl DatabaseEngine {
    /// Carries the configuration over, field for field.
    pub fn new(db_config: Database) -> (r: Self)
        ensures
            r.host@ == db_config.host@,
            r.user@ == db_config.username@,
            r.password@ == db_config.password@,
            r.port == db_config.port,
            r.database@ == db_config.database@,
    {
        Self {
            host: db_config.host,
            user: db_config.username,
            password: db_config.password,
            port: db_config.port,
            database: db_config.database,
        }
    }
}

/// How many times connection acquisition is attempted before giving up.
pub const MAX_CONNECTION_RETRIES: u8 = 5;

/// Seconds waited between two connection attempts.
pub const CONNECTION_RETRY_DELAY_SECS: u64 = 5;

/// Whether a failed connection attempt (the `attempt`th, counted from one)
/// is retried after the fixed delay; past the bounded budget the failure is
/// fatal, since nothing can progress without durable storage.
pub fn retry_after_failure(attempt: u8) -> (r: bool)
    ensures
        r == (attempt < MAX_CONNECTION_RETRIES),
{
    attempt < MAX_CONNECTION_RETRIES
}

} // verus!
