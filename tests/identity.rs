use clawsec_core::identity::{IdentityProvider, Permission};

#[test]
fn test_auth_flow() {
    let mut idp = IdentityProvider::new();
    let _uid = idp.create_user("alice", "secret123", vec!["admin".to_string()]).unwrap();
    let token = idp.authenticate("alice", "secret123").unwrap();
    assert!(idp.validate_token(&token, Permission::AccessVault));
}

#[test]
fn duplicate_username_is_refused() {
    let mut idp = IdentityProvider::new();
    assert!(idp.create_user("bob", "pw", vec![]).is_ok());
    assert_eq!(idp.create_user("bob", "other", vec![]), Err("Username already exists".to_string()));
}

#[test]
fn user_id_and_token_are_built_from_nonce() {
    let mut idp = IdentityProvider::new();
    let uid = idp.create_user_with_nonce("carol", "pw", vec!["admin".to_string()], 42).unwrap();
    assert_eq!(uid, "USR-42");
    let token = idp.authenticate_with("carol", "pw", 1000, 7).unwrap();
    assert_eq!(token, "tkn_USR-42_7");
    assert!(idp.validate_token_at(&token, Permission::ManageUsers, 4600));
    assert!(!idp.validate_token_at(&token, Permission::ManageUsers, 4601));
    assert!(!idp.validate_token_at(&token, Permission::AuditLogs, 1000));
}

#[test]
fn wrong_password_and_unknown_user_are_refused() {
    let mut idp = IdentityProvider::new();
    idp.create_user_with_nonce("dave", "secret", vec![], 1).unwrap();
    assert_eq!(idp.authenticate_with("dave", "secrex1", 0, 1), Err("Invalid credentials".to_string()));
    assert_eq!(idp.authenticate_with("erin", "secret", 0, 1), Err("Invalid credentials".to_string()));
    // Only the length of the password is stored.
    assert!(idp.authenticate_with("dave", "abcdef", 0, 2).is_ok());
}

#[test]
fn unknown_roles_grant_nothing() {
    let mut idp = IdentityProvider::new();
    idp.create_user_with_nonce("frank", "pw", vec!["guest".to_string()], 3).unwrap();
    let token = idp.authenticate_with("frank", "pw", 0, 3).unwrap();
    assert!(!idp.validate_token_at(&token, Permission::ReadFiles, 0));
    assert!(!idp.validate_token_at("no-such-token", Permission::ReadFiles, 0));
}

#[test]
fn revoked_sessions_no_longer_validate() {
    let mut idp = IdentityProvider::new();
    let uid = idp.create_user_with_nonce("gina", "pw", vec!["admin".to_string()], 5).unwrap();
    idp.create_user_with_nonce("hank", "pw", vec!["admin".to_string()], 6).unwrap();
    let t1 = idp.authenticate_with("gina", "pw", 0, 1).unwrap();
    let t2 = idp.authenticate_with("hank", "pw", 0, 2).unwrap();
    idp.revoke_user_sessions(&uid);
    assert!(!idp.validate_token_at(&t1, Permission::ReadFiles, 0));
    assert!(idp.validate_token_at(&t2, Permission::ReadFiles, 0));
}
