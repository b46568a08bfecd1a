use secrets_manager::keys::{derive_key_from_password, generate_salt, valid_salt};
use secrets_manager::VaultError;

#[test]
fn test_key_derivation_works() {
    let password = "minha_senha";
    let salt = generate_salt();
    println!("Salt gerado: {}", salt);

    let result = derive_key_from_password(password, &salt);

    assert!(result.is_ok());
    let master_key = result.unwrap();

    assert_ne!(master_key.key, [0u8; 32]);

    println!("Chave derivada com sucesso!");
}

#[test]
fn test_same_password_same_salt_equals_same_key() {
    let password = "minha_senha";
    let salt = generate_salt();

    let k1 = derive_key_from_password(password, &salt).unwrap();
    let k2 = derive_key_from_password(password, &salt).unwrap();

    assert_eq!(k1.key, k2.key);
}

#[test]
fn different_salts_give_different_keys() {
    let s1 = generate_salt();
    let s2 = generate_salt();
    assert_ne!(s1, s2);

    let k1 = derive_key_from_password("same password", &s1).unwrap();
    let k2 = derive_key_from_password("same password", &s2).unwrap();
    assert_ne!(k1.key, k2.key);
}

#[test]
fn generated_salt_is_well_formed() {
    let salt = generate_salt();
    assert!(valid_salt(&salt));
    assert_eq!(salt.chars().count(), 22);
}

#[test]
fn malformed_salt_is_rejected() {
    assert!(!valid_salt(""));
    assert!(!valid_salt("ab"));
    assert!(!valid_salt("has a space"));
    assert!(!valid_salt("salt!bang"));
    assert!(valid_salt("abcdEF09+/.-"));

    let r = derive_key_from_password("pw", "no spaces allowed");
    assert_eq!(r.err(), Some(VaultError::InvalidSalt));
}

#[test]
fn short_salt_fails_derivation_not_parsing() {
    // Four characters parse as a salt but are too short for the hash.
    let r = derive_key_from_password("pw", "abcd");
    assert_eq!(r.err(), Some(VaultError::DerivationFailed));
}

#[test]
fn wiped_key_is_zero() {
    let salt = generate_salt();
    let mut k = derive_key_from_password("pw", &salt).unwrap();
    k.wipe();
    assert_eq!(k.key, [0u8; 32]);
}
