//! Process configuration as plain data. Loading it from files and the
//! process environment, and opening connections from it, are the surrounding
//! service's work; the values themselves live here.

use vstd::prelude::*;

verus! {

/// Where the remote package registry is reached, and as whom.
#[derive(Debug)]
pub struct CratesIoConfiguration {
    pub base_address: String,
    pub user_agent: String,
}

/// The HTTP listener's address.
#[derive(Debug)]
pub struct HttpServerConfiguration {
    pub host: String,
    pub port: u16,
}

/// The persistent store's connection parameters.
#[derive(Debug)]
pub struct PostgresConfiguration {
    pub database_name: String,
    pub host: String,
    pub password: String,
    pub port: u16,
    pub require_ssl: bool,
    pub username: String,
}

/// The cache server's connection parameters.
#[derive(Debug)]
pub struct RedisConfiguration {
    pub database: i64,
    pub host: String,
    pub port: u16,
    pub password: Option<String>,
    pub ssl: bool,
    pub username: Option<String>,
}

/// Everything the service is configured with.
#[derive(Debug)]
pub struct Configuration {
    pub crates_io: CratesIoConfiguration,
    pub http_server: HttpServerConfiguration,
    pub postgres: PostgresConfiguration,
    pub redis: RedisConfiguration,
}

} // verus!
