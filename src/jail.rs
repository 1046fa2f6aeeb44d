//! Sandbox configuration.
use vstd::prelude::*;

verus! {

/// Where a sandbox is configured: its root, host name, memory limit,
/// network access and the identity its processes run as.
pub struct JailConfig {
    pub root_dir: String,
    pub hostname: String,
    pub memory_limit_mb: u64,
    pub allow_net: bool,
    pub uid: u32,
    pub gid: u32,
}

/// The unprivileged `nobody` user and group.
pub const NOBODY: u32 = 65534;

impl Default for JailConfig {
    /// A sandbox under /var/lib/clawsec/jail with 512 MiB, no network,
    /// running as `nobody`.
    fn default() -> (r: JailConfig)
        ensures
            r.root_dir@ == "/var/lib/clawsec/jail"@,
            r.hostname@ == "claw-sandbox"@,
            r.memory_limit_mb == 512,
            !r.allow_net,
            r.uid == NOBODY,
            r.gid == NOBODY,
    {
        JailConfig {
            root_dir: String::from_str("/var/lib/clawsec/jail"),
            hostname: String::from_str("claw-sandbox"),
            memory_limit_mb: 512,
            allow_net: false,
            uid: NOBODY,
            gid: NOBODY,
        }
    }
}

impl JailConfig {
    /// The memory limit in bytes, as the cgroup takes it; `None` when it
    /// does not fit in 64 bits.
    pub fn memory_limit_bytes(&self) -> (r: Option<u64>)
        ensures
            self.memory_limit_mb * 1048576 <= u64::MAX ==> r == Some((self.memory_limit_mb * 1048576) as u64),
            self.memory_limit_mb * 1048576 > u64::MAX ==> r is None,
    {
        self.memory_limit_mb.checked_mul(1048576)
    }
}

/// A sandbox and the process running in it, if any.
pub struct Jail {
    pub config: JailConfig,
    pub active_pid: Option<i32>,
}

impl Jail {
    pub fn new(config: JailConfig) -> (r: Jail)
        ensures
            r.config == config,
            r.active_pid is None,
    {
        Jail { config, active_pid: None }
    }
}

} // verus!
