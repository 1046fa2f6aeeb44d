use clawsec_core::config::SystemConfig;
use clawsec_core::jail::{Jail, JailConfig};

#[test]
fn test_config_defaults() {
    let config = JailConfig::default();
    assert_eq!(config.memory_limit_mb, 512);
    assert_eq!(config.uid, 65534);
}

#[test]
fn memory_limit_in_bytes() {
    let config = JailConfig::default();
    assert_eq!(config.memory_limit_bytes(), Some(536870912));
    let huge = JailConfig { memory_limit_mb: u64::MAX, ..JailConfig::default() };
    assert_eq!(huge.memory_limit_bytes(), None);
    let jail = Jail::new(huge);
    assert!(jail.active_pid.is_none());
}

#[test]
fn system_config_validation() {
    let ok = SystemConfig { enforce_https: true, max_memory_mb: 128, allowed_ips: vec!["127.0.0.1".to_string()], sandbox_mode: true, log_level: 3 };
    assert!(ok.validate());
    let small = SystemConfig { max_memory_mb: 127, ..ok };
    assert!(!small.validate());
    let none = SystemConfig { enforce_https: true, max_memory_mb: 1024, allowed_ips: vec![], sandbox_mode: true, log_level: 3 };
    assert!(!none.validate());
}
