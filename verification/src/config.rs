//! Process configuration: read once at startup and never changed.

use vstd::prelude::*;
use vstd::string::*;

verus! {

/// How long a connection may stay silent before its request is given up,
/// in seconds.
pub const READ_TIMEOUT_SECS: u64 = 5;

/// Where the server listens and which directory it publishes.
#[derive(Clone, Debug, PartialEq, Eq)]
pub struct Config {
    /// Socket address to listen on.
    pub bind: String,
    /// The base directory: every bundle is a file directly inside it.
    pub base_dir: String,
}

/// The address to listen on where none is configured.
pub open spec fn default_bind() -> Seq<char> {
    "0.0.0.0:8080"@
}

/// The base directory where none is configured.
pub open spec fn default_base_dir() -> Seq<char> {
    "/home/root"@
}

/// The configuration for the given settings, with the default in place of
/// each one that is not set.
pub fn configure(bind: Option<String>, base_dir: Option<String>) -> (config: Config)
    ensures
        config.bind@ == match bind {
            Some(address) => address@,
            None => default_bind(),
        },
        config.base_dir@ == match base_dir {
            Some(dir) => dir@,
            None => default_base_dir(),
        },
{
    let bind = match bind {
        Some(address) => address,
        None => String::from_str("0.0.0.0:8080"),
    };
    let base_dir = match base_dir {
        Some(dir) => dir,
        None => String::from_str("/home/root"),
    };
    Config { bind, base_dir }
}

} // verus!
