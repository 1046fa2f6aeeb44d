use clawsec_core::scanner::{HeuristicEngine, ThreatLevel};

#[test]
fn subsequence_search() {
    let e = HeuristicEngine::new(3);
    assert!(e.find_subsequence(&[1, 2, 3, 4], &[2, 3]));
    assert!(e.find_subsequence(&[1, 2, 3, 4], &[1, 2, 3, 4]));
    assert!(!e.find_subsequence(&[1, 2, 3, 4], &[3, 2]));
    assert!(!e.find_subsequence(&[1], &[1, 1]));
}

#[test]
fn bundled_signature_matches() {
    let mut e = HeuristicEngine::new(9);
    assert_eq!(e.load_database("/var/lib/clawsec/sigs.db"), 1);
    assert_eq!(e.load_database("/var/lib/clawsec/sigs.db"), 1);
    assert_eq!(e.matching_signatures(&[0, 0xDE, 0xAD, 0xBE, 0xEF, 1]), vec!["SIG-9092".to_string()]);
    assert!(e.matching_signatures(&[0xDE, 0xAD, 0xBE]).is_empty());
    assert!(e.flags_packer(true));
    assert!(!HeuristicEngine::new(5).flags_packer(true));
    assert_ne!(ThreatLevel::Critical, ThreatLevel::Low);
}

#[test]
fn whitelist_and_updates() {
    let mut e = HeuristicEngine::new(1);
    e.whitelist_hash("abc".to_string());
    e.whitelist_hash("abc".to_string());
    assert_eq!(e.update_definitions(""), Err("Invalid update source".to_string()));
    assert_eq!(e.update_definitions("https://updates.example/defs"), Ok(true));
}
