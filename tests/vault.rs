use clawsec_core::vault::{CryptoError, HardwareSecurityModule, SecureKey, Vault};

fn vault_with_key() -> Vault {
    let mut v = Vault::initialize(vec![1, 2, 3]);
    v.store_key(SecureKey::new_at("k1".to_string(), "AES".to_string(), 100)).unwrap();
    v
}

#[test]
fn encrypt_then_decrypt_round_trips() {
    let v = vault_with_key();
    let data = vec![0x00, 0xAA, 0xFF, 0x55, 7];
    let c = v.encrypt_block(&data, "k1").unwrap();
    assert_eq!(c, vec![0xAA, 0x00, 0x55, 0xFF, 0xAD]);
    assert_eq!(v.decrypt_block(&c, "k1").unwrap(), data);
}

#[test]
fn block_errors() {
    let mut v = vault_with_key();
    assert_eq!(v.encrypt_block(&vec![0u8; 257], "k1"), Err(CryptoError::EncryptionPaddingError));
    assert_eq!(v.encrypt_block(&vec![0u8; 256], "k1").map(|c| c.len()), Ok(256));
    assert_eq!(v.encrypt_block(&[1], "nope"), Err(CryptoError::DecryptionIntegrityFailure));
    v.lock();
    assert_eq!(v.encrypt_block(&[1], "k1"), Err(CryptoError::VaultLocked));
    assert_eq!(v.decrypt_block(&[1], "k1"), Err(CryptoError::VaultLocked));
    assert!(v.retrieve_key("k1").is_err());
}

#[test]
fn unlock_needs_the_master_seed() {
    let mut v = vault_with_key();
    v.lock();
    assert_eq!(v.unlock(&[1, 2]), Err(CryptoError::DecryptionIntegrityFailure));
    assert_eq!(v.store_key(SecureKey::new_at("k2".to_string(), "AES".to_string(), 0)), Err(CryptoError::VaultLocked));
    assert_eq!(v.unlock(&[1, 2, 3]), Ok(()));
    assert_eq!(v.retrieve_key("k1").unwrap().id(), "k1");
}

#[test]
fn keys_expire_after_rotation_period() {
    let mut v = vault_with_key();
    v.store_key(SecureKey::new_at("k2".to_string(), "AES".to_string(), 1000)).unwrap();
    assert_eq!(v.purge_expired_at(86400 + 500), 1);
    assert!(v.retrieve_key("k1").is_err());
    assert!(v.retrieve_key("k2").is_ok());
    let k = SecureKey::new_at("x".to_string(), "AES".to_string(), u64::MAX - 5);
    assert!(k.is_valid_at(u64::MAX - 1));
}

#[test]
fn hsm_signs_with_payload_length() {
    let hsm = HardwareSecurityModule::connect().unwrap();
    assert_eq!(hsm.device_id, "HSM-VIRTUAL-01");
    assert_eq!(hsm.sign_transaction(&[9u8; 12]), Ok("SIG-12".to_string()));
}
