use clawsec_core::audit::{compute, AuditEntry, AuditSeverity};

#[test]
fn serialize_layout() {
    let e = AuditEntry::new_at(AuditSeverity::AccessDenied, "ab", "x", "res", 0x0102030405060708);
    assert_eq!(e.serialize(), vec![1, 2, 3, 4, 5, 6, 7, 8, b'a', b'b', 0, b'x', 0]);
}

#[test]
fn checksum_is_wrapping_byte_sum() {
    assert_eq!(compute(vec![]), 0);
    assert_eq!(compute(vec![1, 2, 250]), 253);
    let e = AuditEntry::new_at(AuditSeverity::Info, "a", "b", "c", 1);
    assert_eq!(compute(e.serialize()), 1 + 97 + 98);
}
