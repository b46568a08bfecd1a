use secrets_manager::paths::{get_db_path, get_meta_path};
use secrets_manager::vault::VaultManager;
use secrets_manager::VaultError;

#[test]
fn full_lifecycle() {
    let mut vault = VaultManager::new(None, None);
    assert!(!vault.check_vault_status());

    vault.setup_vault("pw1").unwrap();
    assert!(vault.check_vault_status());

    let s = vault
        .create_secret("mail".to_string(), "me".to_string(), "pw".to_string())
        .unwrap();
    let all = vault.get_all_secrets().unwrap();
    assert_eq!(all.len(), 1);
    assert_eq!(all[0].id, s.id);
    assert_eq!(all[0].title, "mail");

    vault.lock_vault().unwrap();
    let closed = vault.create_secret("x".to_string(), "y".to_string(), "z".to_string());
    assert_eq!(closed.err(), Some(VaultError::VaultClosed));
    assert_eq!(vault.get_all_secrets().err(), Some(VaultError::VaultClosed));

    vault.unlock_vault("pw1").unwrap();
    let all = vault.get_all_secrets().unwrap();
    assert_eq!(all.len(), 1);
    assert_eq!(all[0].title, "mail");
    assert_eq!(all[0].username, "me");
    assert_eq!(all[0].password, "pw");

    let wrong = vault.unlock_vault("wrong");
    assert_eq!(wrong.err(), Some(VaultError::WrongPassword));
    // The failed unlock left the session as it was.
    assert_eq!(vault.get_all_secrets().unwrap().len(), 1);
}

#[test]
fn setup_never_overwrites() {
    let mut vault = VaultManager::new(None, None);
    vault.setup_vault("pw").unwrap();
    let again = vault.setup_vault("other");
    assert_eq!(again.err(), Some(VaultError::AlreadyExists));
}

#[test]
fn unlock_without_vault_fails() {
    let mut vault = VaultManager::new(None, None);
    assert_eq!(vault.unlock_vault("pw").err(), Some(VaultError::NoVaultFound));
}

#[test]
fn lock_is_idempotent() {
    let mut vault = VaultManager::new(None, None);
    vault.lock_vault().unwrap();
    vault.setup_vault("pw").unwrap();
    vault.lock_vault().unwrap();
    vault.lock_vault().unwrap();
    assert!(vault.key.is_none());
    assert!(vault.store.is_none());
}

#[test]
fn wrong_key_rejected_on_reopen() {
    // A store created under one password refuses every other on first
    // read: the fresh manager stands for a new process over the same
    // files.
    let mut vault = VaultManager::new(None, None);
    vault.setup_vault("senha_correta").unwrap();
    vault
        .create_secret("t".to_string(), "u".to_string(), "p".to_string())
        .unwrap();
    vault.lock_vault().unwrap();

    let mut reopened = VaultManager::new(vault.meta_salt.clone(), vault.db_file.clone());
    assert_eq!(
        reopened.unlock_vault("senha_errada").err(),
        Some(VaultError::WrongPassword)
    );
    reopened.unlock_vault("senha_correta").unwrap();
    assert_eq!(reopened.get_all_secrets().unwrap().len(), 1);
}

#[test]
fn locking_persists_mutations() {
    let mut vault = VaultManager::new(None, None);
    vault.setup_vault("pw").unwrap();
    let s = vault
        .create_secret("a".to_string(), "b".to_string(), "c".to_string())
        .unwrap();
    let pid = vault.create_project("proj".to_string(), None).unwrap();
    vault
        .add_attachment(s.id, "f".to_string(), "m".to_string(), vec![1, 2])
        .unwrap();
    vault.soft_delete_secret(s.id).unwrap();
    vault.lock_vault().unwrap();
    vault.unlock_vault("pw").unwrap();

    assert!(vault.get_all_secrets().unwrap().is_empty());
    let trash = vault.get_deleted_secrets().unwrap();
    assert_eq!(trash.len(), 1);
    assert_eq!(trash[0].id, s.id);
    assert_eq!(vault.get_all_projects().unwrap()[0].id, pid);
    assert_eq!(vault.get_attachments_metadata(s.id).unwrap().len(), 1);

    vault.restore_secret(s.id).unwrap();
    assert_eq!(vault.get_all_secrets().unwrap().len(), 1);
}

#[test]
fn export_import_round_trip() {
    // The backup key is derived from the export password and the vault's
    // own salt, so a backup comes home to the vault that made it.
    let mut vault = VaultManager::new(None, None);
    vault.setup_vault("pw").unwrap();
    vault
        .create_secret("a".to_string(), "b".to_string(), "c".to_string())
        .unwrap();
    let lost = vault
        .create_secret("x".to_string(), "y".to_string(), "z".to_string())
        .unwrap();
    let backup = vault.export_vault("backup password").unwrap();

    // One record is lost; the other still matches the backup and is
    // skipped on import.
    vault.delete_secret(lost.id).unwrap();
    assert_eq!(vault.get_all_secrets().unwrap().len(), 1);
    let (inserted, skipped) = vault.import_vault(&backup, "backup password").unwrap();
    assert_eq!(inserted, 1);
    assert_eq!(skipped, 1);
    let all = vault.get_all_secrets().unwrap();
    assert_eq!(all.len(), 2);
    assert_eq!(all[1].title, "x");
}

#[test]
fn import_with_wrong_password_fails() {
    let mut vault = VaultManager::new(None, None);
    vault.setup_vault("pw").unwrap();
    vault
        .create_secret("a".to_string(), "b".to_string(), "c".to_string())
        .unwrap();
    let backup = vault.export_vault("export pw").unwrap();
    let r = vault.import_vault(&backup, "not the export pw");
    assert_eq!(r.err(), Some(VaultError::WrongPassword));

    let r = vault.import_vault(&[1, 2, 3], "export pw");
    assert_eq!(r.err(), Some(VaultError::InvalidFormat));
}

#[test]
fn export_preserves_soft_delete_state() {
    let mut vault = VaultManager::new(None, None);
    vault.setup_vault("pw").unwrap();
    let s = vault
        .create_secret("gone".to_string(), "u".to_string(), "p".to_string())
        .unwrap();
    vault.soft_delete_secret(s.id).unwrap();
    let backup = vault.export_vault("pw").unwrap();

    // The backup carries the full record set, deletion marks included.
    let key = {
        let salt = vault.meta_salt.clone().unwrap();
        secrets_manager::keys::derive_key_from_password("pw", &salt).unwrap()
    };
    let payload = secrets_manager::aead::decrypt_data(&backup, &key).unwrap();
    let records = secrets_manager::codec::decode_secrets(&payload).unwrap();
    assert_eq!(records.len(), 1);
    assert!(records[0].deleted_at.is_some());
}

#[test]
fn error_messages_render() {
    assert_eq!(VaultError::AlreadyExists.message(), "a vault already exists here");
    assert_eq!(
        VaultError::WrongPassword.message(),
        "wrong password, or the file is corrupted"
    );
    assert_eq!(VaultError::VaultClosed.message(), "the vault is locked; unlock it first");
}

#[test]
fn paths_are_joined() {
    assert_eq!(get_meta_path("/home/me/.vaults"), "/home/me/.vaults/vault.meta");
    assert_eq!(get_db_path("/home/me/.vaults"), "/home/me/.vaults/vault.db");
}
