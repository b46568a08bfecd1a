use secrets_manager::aead::{decrypt_data, encrypt_data};
use secrets_manager::codec::{decode_secrets, decode_store, encode_secrets};
use secrets_manager::keys::{derive_key_from_password, generate_salt};
use secrets_manager::records::Secret;
use secrets_manager::store::RecordStore;
use secrets_manager::VaultError;

fn test_key(password: &str) -> secrets_manager::keys::MasterKey {
    let salt = generate_salt();
    derive_key_from_password(password, &salt).unwrap()
}

#[test]
fn encrypt_decrypt_round_trip() {
    let key = test_key("pw");
    let plain = b"some plaintext bytes, of no particular shape".to_vec();
    let env = encrypt_data(&plain, &key).unwrap();
    assert_eq!(env.len(), plain.len() + 28);
    let back = decrypt_data(&env, &key).unwrap();
    assert_eq!(back, plain);
}

#[test]
fn fresh_nonce_every_envelope() {
    let key = test_key("pw");
    let plain = b"same message".to_vec();
    let e1 = encrypt_data(&plain, &key).unwrap();
    let e2 = encrypt_data(&plain, &key).unwrap();
    assert_ne!(e1, e2);
}

#[test]
fn tampered_envelope_is_rejected() {
    let key = test_key("pw");
    let plain = b"tamper with me".to_vec();
    let env = encrypt_data(&plain, &key).unwrap();
    // Flip every single bit of the ciphertext-and-tag region in turn.
    for byte in 12..env.len() {
        for bit in 0..8 {
            let mut bad = env.clone();
            bad[byte] ^= 1u8 << bit;
            let r = decrypt_data(&bad, &key);
            assert_eq!(r.err(), Some(VaultError::WrongPassword));
        }
    }
}

#[test]
fn wrong_key_is_rejected() {
    let k1 = test_key("password one");
    let k2 = test_key("password two");
    let env = encrypt_data(b"hidden", &k1).unwrap();
    let r = decrypt_data(&env, &k2);
    assert_eq!(r.err(), Some(VaultError::WrongPassword));
}

#[test]
fn truncated_envelope_is_malformed() {
    let key = test_key("pw");
    let r = decrypt_data(&[1, 2, 3, 4, 5], &key);
    assert_eq!(r.err(), Some(VaultError::InvalidFormat));
}

fn sample_secret(id: i64, title: &str, username: &str, password: &str) -> Secret {
    Secret {
        id,
        project_id: None,
        title: title.to_string(),
        username: username.to_string(),
        password: password.to_string(),
        created_at: 1_700_000_000,
        deleted_at: None,
    }
}

#[test]
fn record_set_round_trip() {
    let mut records = vec![
        sample_secret(1, "mail", "me", "hunter2"),
        sample_secret(2, "naïve café — ünïcode ✓", "ユーザー", "påsswörd"),
    ];
    records[1].project_id = Some(7);
    records[1].deleted_at = Some(1_700_000_123);

    let bytes = encode_secrets(&records);
    let back = decode_secrets(&bytes).unwrap();
    assert_eq!(back.len(), 2);
    assert_eq!(back[0].id, 1);
    assert_eq!(back[0].title, "mail");
    assert_eq!(back[1].project_id, Some(7));
    assert_eq!(back[1].title, "naïve café — ünïcode ✓");
    assert_eq!(back[1].username, "ユーザー");
    assert_eq!(back[1].password, "påsswörd");
    assert_eq!(back[1].deleted_at, Some(1_700_000_123));
}

#[test]
fn garbage_record_set_is_malformed() {
    let r = decode_secrets(&[9u8; 40]);
    assert_eq!(r.err(), Some(VaultError::InvalidFormat));
    // A count promising more records than the bytes carry.
    let mut bytes = Vec::new();
    bytes.extend_from_slice(&5u64.to_le_bytes());
    let r = decode_secrets(&bytes);
    assert_eq!(r.err(), Some(VaultError::InvalidFormat));
}

#[test]
fn trailing_bytes_are_malformed() {
    let records = vec![sample_secret(1, "a", "b", "c")];
    let mut bytes = encode_secrets(&records);
    bytes.push(0);
    assert_eq!(decode_secrets(&bytes).err(), Some(VaultError::InvalidFormat));
}

#[test]
fn store_image_round_trip() {
    let mut store = RecordStore::new();
    store.run_migrations(&secrets_manager::migrate::collect_migrations(
        &secrets_manager::vault::migration_files(),
    ));
    let s = store
        .create_secret("t".to_string(), "u".to_string(), "p".to_string(), 100)
        .unwrap();
    let pid = store.create_project("proj".to_string(), Some("d".to_string()), 101).unwrap();
    store
        .add_attachment(s.id, "f.bin".to_string(), "app/bin".to_string(), vec![1, 2, 3], 102)
        .unwrap();
    store.soft_delete_secret(s.id, 103);

    let image = store.encode_store();
    let back = decode_store(&image).unwrap();
    assert_eq!(back.version, store.version);
    assert_eq!(back.secrets.len(), 1);
    assert_eq!(back.secrets[0].deleted_at, Some(103));
    assert_eq!(back.projects.len(), 1);
    assert_eq!(back.projects[0].id, pid);
    assert_eq!(back.projects[0].description, Some("d".to_string()));
    assert_eq!(back.attachments.len(), 1);
    assert_eq!(back.attachments[0].content, vec![1, 2, 3]);
    assert_eq!(back.next_secret_id, store.next_secret_id);
    assert_eq!(back.next_project_id, store.next_project_id);
    assert_eq!(back.next_attachment_id, store.next_attachment_id);
}

#[test]
fn ill_formed_store_image_is_rejected() {
    // A syntactically valid image whose identifier counter contradicts its
    // rows: decoding must hold it to the store's invariant.
    let mut store = RecordStore::new();
    store
        .create_secret("t".to_string(), "u".to_string(), "p".to_string(), 100)
        .unwrap();
    store.next_secret_id = 1;
    let image = store.encode_store();
    assert_eq!(decode_store(&image).err(), Some(VaultError::InvalidFormat));
}
