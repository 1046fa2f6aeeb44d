//! Daemon configuration.
use vstd::prelude::*;

verus! {

/// Smallest memory budget the daemon runs with, in MiB.
pub const MIN_MEMORY_MB: u64 = 128;

pub struct SystemConfig {
    pub enforce_https: bool,
    pub max_memory_mb: u64,
    pub allowed_ips: Vec<String>,
    pub sandbox_mode: bool,
    pub log_level: u8,
}

impl SystemConfig {
    /// A configuration is usable with at least `MIN_MEMORY_MB` of memory and
    /// at least one allowed address.
    pub fn validate(&self) -> (r: bool)
        ensures
            r == (self.max_memory_mb >= MIN_MEMORY_MB && self.allowed_ips@.len() > 0),
    {
        if self.max_memory_mb < MIN_MEMORY_MB {
            return false;
        }
        if self.allowed_ips.len() == 0 {
            return false;
        }
        true
    }
}

} // verus!
