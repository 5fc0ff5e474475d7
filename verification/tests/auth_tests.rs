use menu_engine::auth::{authenticate_admin, create_default_admin, hash_password, verify_password};
use menu_engine::error_handler::AppError;
use menu_engine::storage::JsonStorage;

#[test]
fn hashing_and_verifying_round_trip() {
    let hash = hash_password("open sesame").unwrap();
    // Argon2 hashes are salted: the hash is not the password itself.
    assert_ne!(hash, "open sesame");
    assert!(hash.starts_with("$argon2"));
    assert_eq!(verify_password("open sesame", &hash).unwrap(), true);
    assert_eq!(verify_password("wrong", &hash).unwrap(), false);
}

#[test]
fn verifying_against_garbage_hash_fails() {
    let r = verify_password("pw", "not a phc hash");
    match r {
        Err(AppError::Auth(m)) => assert_eq!(m, "Password hashing error"),
        other => panic!("unexpected {other:?}"),
    }
}

#[test]
fn default_admin_is_created_once() {
    let mut storage = JsonStorage::new();
    assert_eq!(create_default_admin(&mut storage).unwrap(), true);
    let users = storage.get_admin_users();
    assert_eq!(users.len(), 1);
    assert_eq!(users[0].username, "admin");
    assert_eq!(
        verify_password("admin123", &users[0].password_hash).unwrap(),
        true
    );
    // A second call leaves the collection alone.
    assert_eq!(create_default_admin(&mut storage).unwrap(), false);
    assert_eq!(storage.get_admin_users().len(), 1);
}

#[test]
fn authentication_checks_name_and_password() {
    let mut storage = JsonStorage::new();
    create_default_admin(&mut storage).unwrap();
    let id = storage.get_admin_users()[0].id;
    assert_eq!(authenticate_admin(&storage, "admin", "admin123").unwrap(), id);
    assert!(matches!(
        authenticate_admin(&storage, "admin", "nope"),
        Err(AppError::Auth(_))
    ));
    assert!(matches!(
        authenticate_admin(&storage, "ghost", "admin123"),
        Err(AppError::Auth(_))
    ));
}
