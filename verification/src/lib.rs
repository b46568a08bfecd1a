//! A single-user credential vault: a password-derived master key guards an
//! encrypted record store of secrets, grouping projects and binary
//! attachments, with soft-delete semantics, versioned schema migrations,
//! and an authenticated portable backup format with dedup-aware import.
//!
//! The heart is the vault lifecycle: `vault::VaultManager` owns the
//! locked/unlocked state machine around the one live `store::RecordStore`,
//! derives keys with `keys`, and persists everything through the byte
//! layout of `codec` sealed inside the envelopes of `aead`.

pub mod aead;
pub mod attachments;
pub mod codec;
pub mod keys;
pub mod merge;
pub mod migrate;
pub mod paths;
pub mod projects;
pub mod records;
pub mod secrets;
pub mod store;
pub mod trash;
pub mod vault;


use vstd::prelude::*;

verus! {

/// The errors the vault surfaces to its callers.
#[derive(Clone, Copy, PartialEq, Eq, Structural, Debug)]
pub enum VaultError {
    /// Setup was attempted while a vault already exists.
    AlreadyExists,
    /// Unlock was attempted while no vault exists.
    NoVaultFound,
    /// The derived key was rejected by the store, or an
    /// authenticated envelope failed to verify.
    WrongPassword,
    /// An entity operation was attempted while the vault is locked.
    VaultClosed,
    /// The persisted salt could not be parsed.
    InvalidSalt,
    /// The password hash could not be computed.
    DerivationFailed,
    /// A backup envelope or encoded record set is malformed.
    InvalidFormat,
    /// A storage failure not attributable to a key mismatch.
    StorageError,
    /// The lock guarding the live session was poisoned.
    MutexFailure,
}

impl VaultError {
    /// The human-readable message this error renders as.
    pub fn message(&self) -> (r: String)
        ensures
            r@ == match *self {
                VaultError::AlreadyExists => "a vault already exists here"@,
                VaultError::NoVaultFound => "no vault found; create one first"@,
                VaultError::WrongPassword => "wrong password, or the file is corrupted"@,
                VaultError::VaultClosed => "the vault is locked; unlock it first"@,
                VaultError::InvalidSalt => "the stored salt cannot be read"@,
                VaultError::DerivationFailed => "the key could not be derived"@,
                VaultError::InvalidFormat => "the file is malformed or corrupted"@,
                VaultError::StorageError => "the store refused the operation"@,
                VaultError::MutexFailure => "the vault lock is poisoned"@,
            },
    {
        match self {
            VaultError::AlreadyExists => "a vault already exists here".to_owned(),
            VaultError::NoVaultFound => "no vault found; create one first".to_owned(),
            VaultError::WrongPassword => "wrong password, or the file is corrupted".to_owned(),
            VaultError::VaultClosed => "the vault is locked; unlock it first".to_owned(),
            VaultError::InvalidSalt => "the stored salt cannot be read".to_owned(),
            VaultError::DerivationFailed => "the key could not be derived".to_owned(),
            VaultError::InvalidFormat => "the file is malformed or corrupted".to_owned(),
            VaultError::StorageError => "the store refused the operation".to_owned(),
            VaultError::MutexFailure => "the vault lock is poisoned".to_owned(),
        }
    }
}

} // verus!
