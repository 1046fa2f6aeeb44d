use clawsec_core::packet::{IpAddress, PacketInspector, MAX_REQUESTS_PER_MINUTE};

#[test]
fn test_blocked_ports() {
    let mut inspector = PacketInspector::new();
    assert_eq!(inspector.inspect_outbound(IpAddress::V4(127, 0, 0, 1), 22, None), false);
    assert_eq!(inspector.inspect_outbound(IpAddress::V4(127, 0, 0, 1), 80, None), true);
}

#[test]
fn test_rate_limiting() {
    let mut inspector = PacketInspector::new();
    for _ in 0..MAX_REQUESTS_PER_MINUTE {
        assert_eq!(inspector.check_rate_limit(), true);
    }
    assert_eq!(inspector.check_rate_limit(), false);
}

#[test]
fn rate_limit_window_slides() {
    let mut inspector = PacketInspector::new();
    for _ in 0..MAX_REQUESTS_PER_MINUTE {
        assert!(inspector.check_rate_limit_at(1000));
    }
    assert!(!inspector.check_rate_limit_at(1059));
    assert!(inspector.check_rate_limit_at(1060));
}

#[test]
fn address_policy() {
    assert!(PacketInspector::is_ip_allowed(IpAddress::V4(10, 1, 2, 3)));
    assert!(PacketInspector::is_ip_allowed(IpAddress::V4(172, 16, 0, 1)));
    assert!(!PacketInspector::is_ip_allowed(IpAddress::V4(172, 32, 0, 1)));
    assert!(PacketInspector::is_ip_allowed(IpAddress::V4(192, 168, 1, 1)));
    assert!(PacketInspector::is_ip_allowed(IpAddress::V4(8, 8, 8, 8)));
    assert!(!PacketInspector::is_ip_allowed(IpAddress::V4(8, 8, 4, 4)));
    assert!(!PacketInspector::is_ip_allowed(IpAddress::V6));
}

#[test]
fn blocked_domains_and_updates() {
    let mut inspector = PacketInspector::new();
    assert!(!inspector.inspect_outbound_at(IpAddress::V4(10, 0, 0, 1), 443, Some("malware.com"), 5));
    assert!(inspector.inspect_outbound_at(IpAddress::V4(10, 0, 0, 1), 443, Some("example.org"), 5));
    inspector.update_rules(vec!["example.org".to_string(), "example.org".to_string()]);
    assert!(inspector.is_domain_blocked("example.org"));
    assert!(!inspector.inspect_outbound_at(IpAddress::V4(10, 0, 0, 1), 443, Some("example.org"), 5));
    assert!(!inspector.inspect_outbound_at(IpAddress::V4(1, 1, 1, 1), 443, None, 5));
}
