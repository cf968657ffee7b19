//! A holder for app configuration.
//!
//! The values the request-handling core consumes, as plain data. An
//! external loader fills them in from a configuration file; absent keys
//! fall back to the defaults below, and ports outside the 16-bit range
//! are rejected by `validate_port`.

use vstd::prelude::*;
use vstd::string::StringExecFns;

verus! {

/// A holder for app configuration.
#[derive(Debug, Clone)]
pub struct Config {
    /// Port number to listen on.
    pub port: u16,
    pub stat: StaticFilesConfig,
    pub fcgi: FastCgiConfig,
}

#[derive(Debug, Clone)]
pub struct StaticFilesConfig {
    /// Where the files are located on disk.
    pub webroot: String,
    /// Public URI prefix that gets mapped onto `webroot`.
    pub public_prefix: String,
}

#[derive(Debug, Clone)]
pub struct FastCgiConfig {
    /// Host and port of the application server.
    pub host: String,
    pub port: u16,
}

impl Default for Config {
    fn default() -> (c: Config)
        ensures
            c.port == 8000,
            c.stat.webroot@ == "/etc/http-server/site"@,
            c.stat.public_prefix@ == "/html"@,
            c.fcgi.host@ == "localhost"@,
            c.fcgi.port == 9000,
    {
        Config { port: 8000, stat: Default::default(), fcgi: Default::default() }
    }
}

impl Default for StaticFilesConfig {
    fn default() -> (c: StaticFilesConfig)
        ensures
            c.webroot@ == "/etc/http-server/site"@,
            c.public_prefix@ == "/html"@,
    {
        StaticFilesConfig {
            webroot: String::from_str("/etc/http-server/site"),
            public_prefix: String::from_str("/html"),
        }
    }
}

impl Default for FastCgiConfig {
    fn default() -> (c: FastCgiConfig)
        ensures
            c.host@ == "localhost"@,
            c.port == 9000,
    {
        FastCgiConfig { host: String::from_str("localhost"), port: 9000 }
    }
}

/// An owned, rendered version of a configuration-file error.
#[derive(Debug, Clone)]
pub struct ErrorMessage {
    pub desc: String,
    pub line: usize,
    pub column: usize,
}

/// Accepts a configured port number only when it fits the positive 16-bit
/// range.
pub fn validate_port(p: i64) -> (r: Option<u16>)
    ensures
        match r {
            Some(x) => 0 < p <= u16::MAX && x == p,
            None => !(0 < p <= u16::MAX),
        },
{
    if 0 < p && p <= u16::MAX as i64 {
        Some(p as u16)
    } else {
        None
    }
}

} // verus!
