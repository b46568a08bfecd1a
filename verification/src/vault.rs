use vstd::prelude::*;
use crate::VaultError;
use crate::aead::{encrypt_data, decrypt_data, envelope_for, spec_open_envelope};
use crate::codec::{decode_secrets, decode_store, dec_secrets, dec_store, enc_secrets, enc_store,
    secrets_encodable, store_encodable};
use crate::keys::{MasterKey, derivable, derive_key_from_password, derived_key, generate_salt,
    salt_ok};
use crate::merge::{import_rows, merge_inserts};
use crate::migrate::{Migration, collect_migrations};
use crate::records::{AttachmentMetadata, Project, Secret, view_opt_string};
use crate::store::{RecordStore, StoreV, active_projects, active_secrets, attachments_of,
    deleted_projects, deleted_secrets, empty_store, fresh_secret, has_secret, live_attachments,
    remove_attachment, remove_attachments_of, remove_project, remove_secret, view_secrets};

verus! {

/// Relies on chrono::Utc::now: the wall clock's reading as whole seconds
/// since the Unix epoch. Nothing is assumed of its value.
#[verifier::external_body]
fn now_unix_seconds() -> i64 {
    chrono::Utc::now().timestamp()
}

/// The clock's reading as an unsigned timestamp; a reading before the
/// epoch counts as the epoch.
fn current_time() -> u64 {
    let t = now_unix_seconds();
    if t < 0 {
        0
    } else {
        t as u64
    }
}

/// The built-in migration scripts, as named script files: the fixed,
/// build-time-known set that every vault is brought up to.
pub fn migration_files() -> (r: Vec<(String, String)>)
    ensures
        r@.len() == 3,
        r@[0].0@ == "001_initial_schema.sql"@,
        r@[1].0@ == "002_projects.sql"@,
        r@[2].0@ == "003_attachments.sql"@,
{
    let mut files: Vec<(String, String)> = Vec::new();
    files.push(
        (
            "001_initial_schema.sql".to_owned(),
            "CREATE TABLE secrets (id INTEGER PRIMARY KEY, title TEXT NOT NULL, username TEXT NOT NULL, password_blob BLOB NOT NULL, created_at TEXT NOT NULL DEFAULT CURRENT_TIMESTAMP, deleted_at TEXT);".to_owned(),
        ),
    );
    files.push(
        (
            "002_projects.sql".to_owned(),
            "CREATE TABLE projects (id INTEGER PRIMARY KEY, name TEXT NOT NULL, description TEXT, created_at TEXT NOT NULL DEFAULT CURRENT_TIMESTAMP, deleted_at TEXT); ALTER TABLE secrets ADD COLUMN project_id INTEGER REFERENCES projects(id);".to_owned(),
        ),
    );
    files.push(
        (
            "003_attachments.sql".to_owned(),
            "CREATE TABLE attachments (id INTEGER PRIMARY KEY, secret_id INTEGER NOT NULL REFERENCES secrets(id), filename TEXT NOT NULL, mime_type TEXT NOT NULL, file_size INTEGER NOT NULL, created_at TEXT NOT NULL DEFAULT CURRENT_TIMESTAMP, content BLOB NOT NULL);".to_owned(),
        ),
    );
    files
}

/// The vault's runtime state: the persisted metadata and encrypted store
/// image it knows of, and the session — locked, or unlocked with the
/// derived key and the live record store.
///
/// The metadata is the persisted salt; its presence alone means a vault
/// exists. The store image is the encrypted database file's content at
/// rest. A caller that keeps these two in step with the files on disk
/// gets exactly the persisted vault's behaviour.
pub struct VaultManager {
    pub meta_salt: Option<String>,
    pub db_file: Option<Vec<u8>>,
    pub key: Option<MasterKey>,
    pub store: Option<RecordStore>,
}

/// The mathematical value of a `VaultManager`.
#[verifier::ext_equal]
pub ghost struct VaultV {
    pub meta_salt: Option<Seq<char>>,
    pub db_file: Option<Seq<u8>>,
    pub key: Option<Seq<u8>>,
    pub store: Option<StoreV>,
}

impl View for VaultManager {
    type V = VaultV;

    open spec fn view(&self) -> VaultV {
        VaultV {
            meta_salt: match self.meta_salt {
                Some(ref s) => Some(s@),
                None => None,
            },
            db_file: match self.db_file {
                Some(ref b) => Some(b@),
                None => None,
            },
            key: match self.key {
                Some(ref k) => Some(k@),
                None => None,
            },
            store: match self.store {
                Some(ref st) => Some(st@),
                None => None,
            },
        }
    }
}

/// The key the vault derives for a password, where the persisted salt
/// admits one.
pub open spec fn spec_vault_key(v: VaultV, password: Seq<char>) -> Option<Seq<u8>> {
    match v.meta_salt {
        Some(salt) => if salt_ok(salt) && derivable(password, salt) {
            Some(derived_key(password, salt))
        } else {
            None
        },
        None => None,
    }
}

/// The record set an import under this password finds in the given bytes:
/// the envelope must open under the derived key and carry an encoded
/// record set.
pub open spec fn spec_import_records(v: VaultV, data: Seq<u8>, password: Seq<char>) -> Option<
    Seq<crate::records::SecretV>,
> {
    match spec_vault_key(v, password) {
        Some(k) => match spec_open_envelope(data, k) {
            Some(payload) => dec_secrets(payload),
            None => None,
        },
        None => None,
    }
}

impl VaultManager {
    /// The manager's invariant: a key is held exactly while a store is
    /// open, and an open store is well-formed and belongs to an existing
    /// vault.
    pub open spec fn wf(&self) -> bool {
        &&& self@.key is Some <==> self@.store is Some
        &&& self@.store matches Some(st) ==> st.wf() && self@.meta_salt is Some
    }

    /// Whether the vault is unlocked.
    pub open spec fn is_unlocked(&self) -> bool {
        self@.store is Some
    }

    /// A manager over what was found on disk: the metadata file's
    /// contents, if it exists, and the encrypted store file's contents,
    /// if it exists. The session starts locked.
    pub fn new(meta_salt: Option<String>, db_file: Option<Vec<u8>>) -> (r: VaultManager)
        ensures
            r.wf(),
            r@.meta_salt == view_opt_string(meta_salt),
            r@.db_file == (match db_file {
                Some(b) => Some(b@),
                None => None::<Seq<u8>>,
            }),
            r@.key is None,
            r@.store is None,
    {
        VaultManager { meta_salt, db_file, key: None, store: None }
    }

    /// Whether a vault exists here: the metadata is present. A pure read.
    pub fn check_vault_status(&self) -> (r: bool)
        ensures
            r == (self@.meta_salt is Some),
    {
        self.meta_salt.is_some()
    }

    /// Create a brand-new vault and leave it unlocked: generate a fresh
    /// salt, persist it as the metadata, discard any stale store image,
    /// derive the key, and build and persist a fresh, fully migrated,
    /// empty store encrypted under that key.
    ///
    /// Refuses with `AlreadyExists` while metadata is present — a vault
    /// is never overwritten. With no vault present, setup succeeds for
    /// every password of at most 2^32 - 1 bytes, and fails the key
    /// derivation otherwise, leaving no vault behind.
    pub fn setup_vault(&mut self, password: &str) -> (r: Result<(), VaultError>)
        requires
            old(self).wf(),
        ensures
            final(self).wf(),
            old(self)@.meta_salt is Some ==> r == Err::<(), VaultError>(VaultError::AlreadyExists)
                && final(self)@ == old(self)@,
            old(self)@.meta_salt is None && !derivable_with_fresh_salt(password@) ==> r == Err::<
                (),
                VaultError,
            >(VaultError::DerivationFailed) && final(self)@ == old(self)@,
            old(self)@.meta_salt is None && derivable_with_fresh_salt(password@) ==> (r is Ok && {
                let v = final(self)@;
                &&& v.meta_salt matches Some(salt) && salt_ok(salt) && salt.len() == 22
                    && derivable(password@, salt)
                &&& v.key matches Some(k) && Some(k) == Some(
                    derived_key(password@, v.meta_salt.unwrap()),
                )
                &&& v.store matches Some(st) && st == (StoreV {
                    version: st.version,
                    ..empty_store()
                })
                &&& v.db_file matches Some(env) && envelope_for(
                    env,
                    v.key.unwrap(),
                    enc_store(v.store.unwrap()),
                ) && store_encodable(v.store.unwrap())
            }),
    {
        if self.meta_salt.is_some() {
            return Err(VaultError::AlreadyExists);
        }
        let salt = generate_salt();
        proof {
            crate::keys::lemma_salt_utf8_len(salt@);
        }
        let key = match derive_key_from_password(password, salt.as_str()) {
            Ok(k) => k,
            Err(_) => {
                proof {
                    assert(!derivable(password@, salt@));
                    assert(!derivable_with_fresh_salt(password@));
                }
                return Err(VaultError::DerivationFailed);
            },
        };
        proof {
            assert(derivable(password@, salt@));
            assert(derivable_with_fresh_salt(password@));
        }
        let mut store = RecordStore::new();
        let migrations: Vec<Migration> = collect_migrations(&migration_files());
        store.run_migrations(&migrations);
        let image = store.encode_store();
        let env = match encrypt_data(image.as_slice(), &key) {
            Ok(e) => e,
            Err(_) => {
                proof {
                    lemma_empty_image_fits(store@);
                    assert(false);
                }
                return Err(VaultError::StorageError);
            },
        };
        self.meta_salt = Some(salt);
        self.db_file = Some(env);
        self.key = Some(key);
        self.store = Some(store);
        proof {
            let st = self@.store.unwrap();
            assert(st =~= (StoreV { version: st.version, ..empty_store() }));
        }
        Ok(())
    }

    /// Open an existing vault: read the persisted salt, derive the key,
    /// decrypt the store image, parse it and bring it up to the current
    /// schema, then publish the live store. Valid while locked, and also
    /// while unlocked — the old session is wiped and replaced.
    ///
    /// Fails with `NoVaultFound` when no metadata exists; with
    /// `InvalidSalt` or `DerivationFailed` when the persisted salt or the
    /// password cannot derive a key; with `WrongPassword` when the image
    /// does not open under the derived key — the tag is the only password
    /// check there is; and with `InvalidFormat` when an opened image does
    /// not carry a well-formed store. A failed unlock leaves the session
    /// exactly as it was. With no store image on disk, unlocking builds a
    /// fresh, fully migrated, empty store, as creating the missing file
    /// would.
    pub fn unlock_vault(&mut self, password: &str) -> (r: Result<(), VaultError>)
        requires
            old(self).wf(),
        ensures
            final(self).wf(),
            r is Err ==> final(self)@ == old(self)@,
            old(self)@.meta_salt is None <==> r == Err::<(), VaultError>(VaultError::NoVaultFound),
            old(self)@.meta_salt matches Some(salt) ==> ({
                &&& (!salt_ok(salt) <==> r == Err::<(), VaultError>(VaultError::InvalidSalt))
                &&& (salt_ok(salt) && !derivable(password@, salt) <==> r == Err::<(), VaultError>(
                    VaultError::DerivationFailed,
                ))
                &&& salt_ok(salt) && derivable(password@, salt) ==> match old(self)@.db_file {
                    None => r is Ok,
                    Some(env) => ((spec_open_envelope(env, derived_key(password@, salt)) matches
                    Some(payload) && dec_store(payload) matches Some(base) && base.wf()) ==> r
                        is Ok),
                }
            }),
            r is Ok ==> ({
                let v = final(self)@;
                let salt = old(self)@.meta_salt.unwrap();
                &&& v.meta_salt == old(self)@.meta_salt
                &&& v.db_file == old(self)@.db_file
                &&& v.key == Some(derived_key(password@, salt))
                &&& v.store is Some
                &&& match old(self)@.db_file {
                    None => v.store.unwrap() == (StoreV {
                        version: v.store.unwrap().version,
                        ..empty_store()
                    }),
                    Some(env) => {
                        &&& spec_open_envelope(env, derived_key(password@, salt)) matches Some(
                            payload,
                        )
                        &&& dec_store(payload) matches Some(base)
                        &&& (StoreV { version: base.version, ..v.store.unwrap() }) == base
                        &&& v.store.unwrap().version >= base.version
                    },
                }
            }),
            old(self)@.meta_salt matches Some(salt) ==> ((salt_ok(salt) && derivable(
                password@,
                salt,
            ) && old(self)@.db_file is Some) ==> ({
                let env = old(self)@.db_file.unwrap();
                &&& (spec_open_envelope(env, derived_key(password@, salt)) is None <==> r == Err::<
                    (),
                    VaultError,
                >(VaultError::WrongPassword))
                &&& (spec_open_envelope(env, derived_key(password@, salt)) matches Some(payload)
                    ==> ((dec_store(payload) is None || !dec_store(payload).unwrap().wf()) ==> r
                    == Err::<(), VaultError>(VaultError::InvalidFormat)))
            })),
    {
        let salt = match &self.meta_salt {
            Some(s) => s,
            None => {
                return Err(VaultError::NoVaultFound);
            },
        };
        let mut key = match derive_key_from_password(password, salt.as_str()) {
            Ok(k) => k,
            Err(e) => {
                return Err(e);
            },
        };
        proof {
            crate::keys::lemma_salt_utf8_len(self@.meta_salt.unwrap());
        }
        let mut store = match &self.db_file {
            None => RecordStore::new(),
            Some(env) => {
                let payload = match decrypt_data(env.as_slice(), &key) {
                    Ok(p) => p,
                    Err(_) => {
                        key.wipe();
                        return Err(VaultError::WrongPassword);
                    },
                };
                match decode_store(payload.as_slice()) {
                    Ok(st) => st,
                    Err(_) => {
                        key.wipe();
                        return Err(VaultError::InvalidFormat);
                    },
                }
            },
        };
        let ghost base = store@;
        let migrations: Vec<Migration> = collect_migrations(&migration_files());
        store.run_migrations(&migrations);
        proof {
            crate::migrate::lemma_final_version_ge(
                crate::migrate::versions_of(crate::migrate::view_migrations(migrations@)),
                base.version,
            );
            assert((StoreV { version: base.version, ..store@ }) =~= base);
            if old(self)@.db_file is None {
                assert(store@ =~= (StoreV { version: store@.version, ..empty_store() }));
            }
        }
        match &mut self.key {
            Some(k) => {
                k.wipe();
            },
            None => {},
        }
        self.key = Some(key);
        self.store = Some(store);
        Ok(())
    }

    /// Lock the vault: persist the live store as a fresh encrypted image,
    /// wipe the key to zeros, and drop the session. Idempotent — locking
    /// a locked or uninitialized vault does nothing and succeeds.
    ///
    /// Locking is this engine's one persistence point, by design: where a
    /// storage engine writing through to disk on every statement leaves
    /// nothing to do at lock, this store lives in memory while unlocked,
    /// so the lock that ends a session writes the image that the next
    /// unlock opens. The contract states the written image exactly.
    ///
    /// The key is wiped on every path. Only a store image too large for
    /// the cipher (over 2^36 bytes) fails; the session still locks, and
    /// the old image stands.
    pub fn lock_vault(&mut self) -> (r: Result<(), VaultError>)
        requires
            old(self).wf(),
        ensures
            final(self).wf(),
            final(self)@.key is None && final(self)@.store is None,
            final(self)@.meta_salt == old(self)@.meta_salt,
            old(self)@.store is None ==> r is Ok && final(self)@ == old(self)@,
            old(self)@.store matches Some(st) ==> ({
                &&& (r is Ok <==> enc_store(st).len() <= 0x1000000000)
                &&& r is Ok ==> (final(self)@.db_file matches Some(env) && envelope_for(
                    env,
                    old(self)@.key.unwrap(),
                    enc_store(st),
                ) && store_encodable(st))
                &&& r is Err ==> (r == Err::<(), VaultError>(VaultError::StorageError)
                    && final(self)@.db_file == old(self)@.db_file)
            }),
    {
        let image: Option<Vec<u8>> = match &self.store {
            Some(st) => Some(st.encode_store()),
            None => None,
        };
        let result: Result<(), VaultError> = match image {
            None => Ok(()),
            Some(img) => {
                match &self.key {
                    Some(k) => {
                        match encrypt_data(img.as_slice(), k) {
                            Ok(env) => {
                                self.db_file = Some(env);
                                Ok(())
                            },
                            Err(_) => Err(VaultError::StorageError),
                        }
                    },
                    None => Err(VaultError::MutexFailure),
                }
            },
        };
        match &mut self.key {
            Some(k) => {
                k.wipe();
            },
            None => {},
        }
        self.key = None;
        self.store = None;
        result
    }

    /// Export the whole record set — every secret, soft-deleted or not,
    /// with every field — as an encrypted portable backup under a key
    /// derived from the given password and the vault's salt.
    pub fn export_vault(&self, password: &str) -> (r: Result<Vec<u8>, VaultError>)
        requires
            self.wf(),
        ensures
            self@.meta_salt is None ==> r == Err::<Vec<u8>, VaultError>(VaultError::NoVaultFound),
            self@.meta_salt matches Some(salt) ==> ({
                &&& !salt_ok(salt) ==> r == Err::<Vec<u8>, VaultError>(VaultError::InvalidSalt)
                &&& salt_ok(salt) && !derivable(password@, salt) ==> r == Err::<
                    Vec<u8>,
                    VaultError,
                >(VaultError::DerivationFailed)
            }),
            spec_vault_key(self@, password@) is Some && self@.store is None ==> r == Err::<
                Vec<u8>,
                VaultError,
            >(VaultError::VaultClosed),
            spec_vault_key(self@, password@) is Some && self@.store is Some ==> ({
                let payload = enc_secrets(self@.store.unwrap().secrets);
                &&& (r is Ok <==> payload.len() <= 0x1000000000)
                &&& (payload.len() > 0x1000000000 ==> r == Err::<Vec<u8>, VaultError>(
                    VaultError::StorageError,
                ))
            }),
            r matches Ok(env) ==> ({
                let payload = enc_secrets(self@.store.unwrap().secrets);
                &&& self@.store is Some
                &&& envelope_for(env@, spec_vault_key(self@, password@).unwrap(), payload)
                &&& secrets_encodable(self@.store.unwrap().secrets)
                &&& dec_secrets(payload) == Some(self@.store.unwrap().secrets)
            }),
    {
        let salt = match &self.meta_salt {
            Some(s) => s,
            None => {
                return Err(VaultError::NoVaultFound);
            },
        };
        let mut key = match derive_key_from_password(password, salt.as_str()) {
            Ok(k) => k,
            Err(e) => {
                return Err(e);
            },
        };
        let store = match &self.store {
            Some(st) => st,
            None => {
                key.wipe();
                return Err(VaultError::VaultClosed);
            },
        };
        let payload = crate::codec::encode_secrets(&store.secrets);
        let sealed = encrypt_data(payload.as_slice(), &key);
        key.wipe();
        sealed
    }

    /// Import an encrypted backup: derive the key from the password and
    /// the vault's salt, open the envelope — a failing tag means a wrong
    /// password or a corrupted file — parse the carried record set, and
    /// merge it into the live store, skipping every record whose triple
    /// an existing record already carries. Returns how many were
    /// inserted and how many skipped.
    pub fn import_vault(&mut self, data: &[u8], password: &str) -> (r: Result<
        (u64, u64),
        VaultError,
    >)
        requires
            old(self).wf(),
        ensures
            final(self).wf(),
            r is Err ==> final(self)@ == old(self)@,
            old(self)@.meta_salt is None ==> r == Err::<(u64, u64), VaultError>(
                VaultError::NoVaultFound,
            ),
            old(self)@.meta_salt matches Some(salt) ==> ({
                &&& !salt_ok(salt) ==> r == Err::<(u64, u64), VaultError>(VaultError::InvalidSalt)
                &&& salt_ok(salt) && !derivable(password@, salt) ==> r == Err::<
                    (u64, u64),
                    VaultError,
                >(VaultError::DerivationFailed)
            }),
            spec_vault_key(old(self)@, password@) matches Some(k) ==> ({
                &&& (spec_open_envelope(data@, k) is None && data@.len() < 12) ==> r == Err::<
                    (u64, u64),
                    VaultError,
                >(VaultError::InvalidFormat)
                &&& (spec_open_envelope(data@, k) is None && data@.len() >= 12) ==> r == Err::<
                    (u64, u64),
                    VaultError,
                >(VaultError::WrongPassword)
                &&& spec_open_envelope(data@, k) matches Some(payload) ==> ({
                    &&& dec_secrets(payload) is None ==> r == Err::<(u64, u64), VaultError>(
                        VaultError::InvalidFormat,
                    )
                    &&& dec_secrets(payload) is Some && old(self)@.store is None ==> r == Err::<
                        (u64, u64),
                        VaultError,
                    >(VaultError::VaultClosed)
                })
            }),
            spec_import_records(old(self)@, data@, password@) matches Some(incoming) ==> ({
                &&& old(self)@.store matches Some(st0) ==> (incoming.len() <= i64::MAX
                    - st0.next_secret_id ==> r is Ok)
            }),
            r matches Ok(c) ==> ({
                &&& spec_import_records(old(self)@, data@, password@) matches Some(incoming)
                &&& old(self)@.store is Some
                &&& ({
                    let st0 = old(self)@.store.unwrap();
                    let plan = merge_inserts(st0.secrets, incoming);
                    &&& incoming.len() <= i64::MAX - st0.next_secret_id
                    &&& c.0 == plan.len()
                    &&& c.0 + c.1 == incoming.len()
                    &&& final(self)@.store matches Some(st1)
                    &&& exists|now: u64|
                        st1 == (StoreV {
                            secrets: st0.secrets + import_rows(plan, st0.next_secret_id, now),
                            next_secret_id: (st0.next_secret_id + plan.len()) as i64,
                            ..st0
                        })
                    &&& final(self)@.meta_salt == old(self)@.meta_salt
                    &&& final(self)@.db_file == old(self)@.db_file
                    &&& final(self)@.key == old(self)@.key
                })
            }),
    {
        let salt = match &self.meta_salt {
            Some(s) => s,
            None => {
                return Err(VaultError::NoVaultFound);
            },
        };
        let mut key = match derive_key_from_password(password, salt.as_str()) {
            Ok(k) => k,
            Err(e) => {
                return Err(e);
            },
        };
        let ghost derived = key@;
        let opened = decrypt_data(data, &key);
        key.wipe();
        let payload = match opened {
            Ok(p) => p,
            Err(e) => {
                return Err(e);
            },
        };
        let incoming = match decode_secrets(payload.as_slice()) {
            Ok(v) => v,
            Err(e) => {
                return Err(e);
            },
        };
        proof {
            assert(spec_vault_key(old(self)@, password@) == Some(derived));
            assert(spec_import_records(old(self)@, data@, password@) == Some(
                view_secrets(incoming@),
            ));
        }
        let now = current_time();
        match &mut self.store {
            Some(st) => st.import_secrets(&incoming, now),
            None => Err(VaultError::VaultClosed),
        }
    }
}

/// A password derives a key under every salt `generate_salt` can
/// produce: a fresh salt is 22 B64 characters, so only the password's
/// length decides.
pub open spec fn derivable_with_fresh_salt(password: Seq<char>) -> bool {
    vstd::utf8::encode_utf8(password).len() <= 0xFFFFFFFF
}

/// The image of a freshly migrated empty store is a fixed handful of
/// bytes, far below the cipher's limit.
proof fn lemma_empty_image_fits(st: StoreV)
    requires
        st == (StoreV { version: st.version, ..empty_store() }),
    ensures
        enc_store(st).len() <= 0x1000000000,
{
    vstd::bytes::lemma_auto_spec_u64_to_from_le_bytes();
    assert(enc_store(st).len() == 56);
}


impl VaultManager {
    /// Insert a new secret into the unlocked store, timestamped with the
    /// clock's current reading. Fails with `VaultClosed` while locked.
    pub fn create_secret(&mut self, title: String, username: String, password: String) -> (r:
        Result<Secret, VaultError>)
        requires
            old(self).wf(),
        ensures
            final(self).wf(),
            final(self)@ == (VaultV { store: final(self)@.store, ..old(self)@ }),
            old(self)@.store is None ==> r == Err::<Secret, VaultError>(VaultError::VaultClosed)
                && final(self)@ == old(self)@,
            old(self)@.store matches Some(st0) ==> ({
                &&& st0.next_secret_id == i64::MAX ==> (r == Err::<Secret, VaultError>(
                    VaultError::StorageError,
                ) && final(self)@ == old(self)@)
                &&& st0.next_secret_id < i64::MAX ==> (r matches Ok(s) && s@ == fresh_secret(
                    st0.next_secret_id,
                    title@,
                    username@,
                    password@,
                    s@.created_at,
                ) && final(self)@.store == Some(
                    StoreV {
                        secrets: st0.secrets.push(s@),
                        next_secret_id: (st0.next_secret_id + 1) as i64,
                        ..st0
                    },
                ))
            }),
    {
        let now = current_time();
        match &mut self.store {
            Some(st) => st.create_secret(title, username, password, now),
            None => Err(VaultError::VaultClosed),
        }
    }

    /// The active secrets of the unlocked store, in insertion order.
    pub fn get_all_secrets(&self) -> (r: Result<Vec<Secret>, VaultError>)
        ensures
            self@.store is None ==> r == Err::<Vec<Secret>, VaultError>(VaultError::VaultClosed),
            self@.store matches Some(st) ==> (r matches Ok(v) && view_secrets(v@)
                == active_secrets(st.secrets)),
    {
        match &self.store {
            Some(st) => Ok(st.get_all_secrets()),
            None => Err(VaultError::VaultClosed),
        }
    }

    /// The trashed secrets of the unlocked store, in insertion order.
    pub fn get_deleted_secrets(&self) -> (r: Result<Vec<Secret>, VaultError>)
        ensures
            self@.store is None ==> r == Err::<Vec<Secret>, VaultError>(VaultError::VaultClosed),
            self@.store matches Some(st) ==> (r matches Ok(v) && view_secrets(v@)
                == deleted_secrets(st.secrets)),
    {
        match &self.store {
            Some(st) => Ok(st.get_deleted_secrets()),
            None => Err(VaultError::VaultClosed),
        }
    }

    /// Move a secret to the trash: mark it deleted at the clock's current
    /// reading.
    pub fn soft_delete_secret(&mut self, id: i64) -> (r: Result<(), VaultError>)
        requires
            old(self).wf(),
        ensures
            final(self).wf(),
            final(self)@ == (VaultV { store: final(self)@.store, ..old(self)@ }),
            old(self)@.store is None ==> r == Err::<(), VaultError>(VaultError::VaultClosed)
                && final(self)@ == old(self)@,
            old(self)@.store matches Some(st0) ==> (r is Ok && exists|now: u64|
                final(self)@.store == Some(
                    StoreV {
                        secrets: crate::secrets::soft_delete_secrets_seq(st0.secrets, id, now),
                        ..st0
                    },
                )),
    {
        let now = current_time();
        match &mut self.store {
            Some(st) => {
                st.soft_delete_secret(id, now);
                Ok(())
            },
            None => Err(VaultError::VaultClosed),
        }
    }

    /// Remove a secret for good, together with its attachments.
    pub fn delete_secret(&mut self, id: i64) -> (r: Result<(), VaultError>)
        requires
            old(self).wf(),
        ensures
            final(self).wf(),
            final(self)@ == (VaultV { store: final(self)@.store, ..old(self)@ }),
            old(self)@.store is None ==> r == Err::<(), VaultError>(VaultError::VaultClosed)
                && final(self)@ == old(self)@,
            old(self)@.store matches Some(st0) ==> (r is Ok && final(self)@.store == Some(
                StoreV {
                    secrets: remove_secret(st0.secrets, id),
                    attachments: remove_attachments_of(st0.attachments, id),
                    ..st0
                },
            )),
    {
        match &mut self.store {
            Some(st) => {
                st.delete_secret(id);
                Ok(())
            },
            None => Err(VaultError::VaultClosed),
        }
    }

    /// Restore a secret from the trash: clear its deletion mark.
    pub fn restore_secret(&mut self, id: i64) -> (r: Result<(), VaultError>)
        requires
            old(self).wf(),
        ensures
            final(self).wf(),
            final(self)@ == (VaultV { store: final(self)@.store, ..old(self)@ }),
            old(self)@.store is None ==> r == Err::<(), VaultError>(VaultError::VaultClosed)
                && final(self)@ == old(self)@,
            old(self)@.store matches Some(st0) ==> (r is Ok && final(self)@.store == Some(
                StoreV {
                    secrets: crate::secrets::restore_secrets_seq(st0.secrets, id),
                    ..st0
                },
            )),
    {
        match &mut self.store {
            Some(st) => {
                st.restore_secret(id);
                Ok(())
            },
            None => Err(VaultError::VaultClosed),
        }
    }

    /// Replace a secret's title, username and password.
    pub fn update_secret(
        &mut self,
        id: i64,
        title: String,
        username: String,
        password: String,
    ) -> (r: Result<(), VaultError>)
        requires
            old(self).wf(),
        ensures
            final(self).wf(),
            final(self)@ == (VaultV { store: final(self)@.store, ..old(self)@ }),
            old(self)@.store is None ==> r == Err::<(), VaultError>(VaultError::VaultClosed)
                && final(self)@ == old(self)@,
            old(self)@.store matches Some(st0) ==> (r is Ok && final(self)@.store == Some(
                StoreV {
                    secrets: crate::secrets::update_secrets_seq(
                        st0.secrets,
                        id,
                        title@,
                        username@,
                        password@,
                    ),
                    ..st0
                },
            )),
    {
        match &mut self.store {
            Some(st) => {
                st.update_secret(id, title, username, password);
                Ok(())
            },
            None => Err(VaultError::VaultClosed),
        }
    }

    /// Create a new project, timestamped with the clock's current
    /// reading, and return its identifier.
    pub fn create_project(&mut self, name: String, description: Option<String>) -> (r: Result<
        i64,
        VaultError,
    >)
        requires
            old(self).wf(),
        ensures
            final(self).wf(),
            final(self)@ == (VaultV { store: final(self)@.store, ..old(self)@ }),
            old(self)@.store is None ==> r == Err::<i64, VaultError>(VaultError::VaultClosed)
                && final(self)@ == old(self)@,
            old(self)@.store matches Some(st0) ==> ({
                &&& st0.next_project_id == i64::MAX ==> (r == Err::<i64, VaultError>(
                    VaultError::StorageError,
                ) && final(self)@ == old(self)@)
                &&& st0.next_project_id < i64::MAX ==> (r matches Ok(id) && id
                    == st0.next_project_id && exists|now: u64|
                    final(self)@.store == Some(
                        StoreV {
                            projects: st0.projects.push(
                                crate::projects::fresh_project(
                                    id,
                                    name@,
                                    view_opt_string(description),
                                    now,
                                ),
                            ),
                            next_project_id: (st0.next_project_id + 1) as i64,
                            ..st0
                        },
                    ))
            }),
    {
        let now = current_time();
        match &mut self.store {
            Some(st) => st.create_project(name, description, now),
            None => Err(VaultError::VaultClosed),
        }
    }

    /// The active projects of the unlocked store, in ascending name order.
    pub fn get_all_projects(&self) -> (r: Result<Vec<Project>, VaultError>)
        ensures
            self@.store is None ==> r == Err::<Vec<Project>, VaultError>(VaultError::VaultClosed),
            self@.store matches Some(st) ==> (r matches Ok(v) && crate::store::view_projects(
                v@,
            ).to_multiset() == active_projects(st.projects).to_multiset()
                && crate::projects::projects_sorted_by_name(crate::store::view_projects(v@))),
    {
        match &self.store {
            Some(st) => Ok(st.get_all_projects()),
            None => Err(VaultError::VaultClosed),
        }
    }

    /// The trashed projects of the unlocked store, in ascending name order.
    pub fn get_deleted_projects(&self) -> (r: Result<Vec<Project>, VaultError>)
        ensures
            self@.store is None ==> r == Err::<Vec<Project>, VaultError>(VaultError::VaultClosed),
            self@.store matches Some(st) ==> (r matches Ok(v) && crate::store::view_projects(
                v@,
            ).to_multiset() == deleted_projects(st.projects).to_multiset()
                && crate::projects::projects_sorted_by_name(crate::store::view_projects(v@))),
    {
        match &self.store {
            Some(st) => Ok(st.get_deleted_projects()),
            None => Err(VaultError::VaultClosed),
        }
    }

    /// The first project with this identifier.
    pub fn get_project(&self, id: i64) -> (r: Result<Project, VaultError>)
        ensures
            self@.store is None ==> r == Err::<Project, VaultError>(VaultError::VaultClosed),
            self@.store matches Some(st) ==> ({
                &&& r matches Ok(p) ==> crate::projects::lookup_project(st.projects, id) == Some(
                    p@,
                )
                &&& r is Err ==> (crate::projects::lookup_project(st.projects, id) is None && r
                    == Err::<Project, VaultError>(VaultError::StorageError))
            }),
    {
        match &self.store {
            Some(st) => st.get_project(id),
            None => Err(VaultError::VaultClosed),
        }
    }

    /// Replace a project's name and description.
    pub fn update_project(&mut self, id: i64, name: String, description: Option<String>) -> (r:
        Result<(), VaultError>)
        requires
            old(self).wf(),
        ensures
            final(self).wf(),
            final(self)@ == (VaultV { store: final(self)@.store, ..old(self)@ }),
            old(self)@.store is None ==> r == Err::<(), VaultError>(VaultError::VaultClosed)
                && final(self)@ == old(self)@,
            old(self)@.store matches Some(st0) ==> (r is Ok && final(self)@.store == Some(
                StoreV {
                    projects: crate::projects::update_projects_seq(
                        st0.projects,
                        id,
                        name@,
                        view_opt_string(description),
                    ),
                    ..st0
                },
            )),
    {
        match &mut self.store {
            Some(st) => {
                st.update_project(id, name, description);
                Ok(())
            },
            None => Err(VaultError::VaultClosed),
        }
    }

    /// Move a project to the trash, detaching its secrets first — one
    /// atomic step.
    pub fn soft_delete_project(&mut self, id: i64) -> (r: Result<(), VaultError>)
        requires
            old(self).wf(),
        ensures
            final(self).wf(),
            final(self)@ == (VaultV { store: final(self)@.store, ..old(self)@ }),
            old(self)@.store is None ==> r == Err::<(), VaultError>(VaultError::VaultClosed)
                && final(self)@ == old(self)@,
            old(self)@.store matches Some(st0) ==> (r is Ok && exists|now: u64|
                final(self)@.store == Some(
                    StoreV {
                        secrets: crate::projects::detach_secrets(st0.secrets, id),
                        projects: crate::projects::soft_delete_projects_seq(st0.projects, id, now),
                        ..st0
                    },
                )),
    {
        let now = current_time();
        match &mut self.store {
            Some(st) => {
                st.soft_delete_project(id, now);
                Ok(())
            },
            None => Err(VaultError::VaultClosed),
        }
    }

    /// Remove a project for good, detaching its secrets first — one
    /// atomic step.
    pub fn delete_project(&mut self, id: i64) -> (r: Result<(), VaultError>)
        requires
            old(self).wf(),
        ensures
            final(self).wf(),
            final(self)@ == (VaultV { store: final(self)@.store, ..old(self)@ }),
            old(self)@.store is None ==> r == Err::<(), VaultError>(VaultError::VaultClosed)
                && final(self)@ == old(self)@,
            old(self)@.store matches Some(st0) ==> (r is Ok && final(self)@.store == Some(
                StoreV {
                    secrets: crate::projects::detach_secrets(st0.secrets, id),
                    projects: remove_project(st0.projects, id),
                    ..st0
                },
            )),
    {
        match &mut self.store {
            Some(st) => {
                st.delete_project(id);
                Ok(())
            },
            None => Err(VaultError::VaultClosed),
        }
    }

    /// Restore a project from the trash: clear its deletion mark.
    pub fn restore_project(&mut self, id: i64) -> (r: Result<(), VaultError>)
        requires
            old(self).wf(),
        ensures
            final(self).wf(),
            final(self)@ == (VaultV { store: final(self)@.store, ..old(self)@ }),
            old(self)@.store is None ==> r == Err::<(), VaultError>(VaultError::VaultClosed)
                && final(self)@ == old(self)@,
            old(self)@.store matches Some(st0) ==> (r is Ok && final(self)@.store == Some(
                StoreV {
                    projects: crate::projects::restore_projects_seq(st0.projects, id),
                    ..st0
                },
            )),
    {
        match &mut self.store {
            Some(st) => {
                st.restore_project(id);
                Ok(())
            },
            None => Err(VaultError::VaultClosed),
        }
    }

    /// Store an attachment for an existing secret, timestamped with the
    /// clock's current reading, and return its metadata.
    pub fn add_attachment(
        &mut self,
        secret_id: i64,
        filename: String,
        mime_type: String,
        content: Vec<u8>,
    ) -> (r: Result<AttachmentMetadata, VaultError>)
        requires
            old(self).wf(),
        ensures
            final(self).wf(),
            final(self)@ == (VaultV { store: final(self)@.store, ..old(self)@ }),
            old(self)@.store is None ==> r == Err::<AttachmentMetadata, VaultError>(
                VaultError::VaultClosed,
            ) && final(self)@ == old(self)@,
            old(self)@.store matches Some(st0) ==> ({
                &&& !has_secret(st0.secrets, secret_id) ==> (r == Err::<
                    AttachmentMetadata,
                    VaultError,
                >(VaultError::StorageError) && final(self)@ == old(self)@)
                &&& has_secret(st0.secrets, secret_id) && st0.next_attachment_id < i64::MAX ==> (r
                matches Ok(m) && exists|now: u64|
                    ({
                        &&& m@ == crate::records::metadata_of(
                            #[trigger] crate::attachments::fresh_attachment(
                                st0.next_attachment_id,
                                secret_id,
                                filename@,
                                mime_type@,
                                content@,
                                now,
                            ),
                        )
                        &&& final(self)@.store == Some(
                            StoreV {
                                attachments: st0.attachments.push(
                                    crate::attachments::fresh_attachment(
                                        st0.next_attachment_id,
                                        secret_id,
                                        filename@,
                                        mime_type@,
                                        content@,
                                        now,
                                    ),
                                ),
                                next_attachment_id: (st0.next_attachment_id + 1) as i64,
                                ..st0
                            },
                        )
                    }))
            }),
    {
        let now = current_time();
        match &mut self.store {
            Some(st) => st.add_attachment(secret_id, filename, mime_type, content, now),
            None => Err(VaultError::VaultClosed),
        }
    }

    /// The metadata of one secret's attachments, newest first.
    pub fn get_attachments_metadata(&self, secret_id: i64) -> (r: Result<
        Vec<AttachmentMetadata>,
        VaultError,
    >)
        ensures
            self@.store is None ==> r == Err::<Vec<AttachmentMetadata>, VaultError>(
                VaultError::VaultClosed,
            ),
            self@.store matches Some(st) ==> (r matches Ok(v) && crate::attachments::view_metadata(
                v@,
            ).to_multiset() == crate::attachments::metadata_seq(
                attachments_of(st.attachments, secret_id),
            ).to_multiset() && crate::attachments::metadata_sorted_by_created_desc(
                crate::attachments::view_metadata(v@),
            )),
    {
        match &self.store {
            Some(st) => Ok(st.get_attachments_metadata(secret_id)),
            None => Err(VaultError::VaultClosed),
        }
    }

    /// The content of the attachment with this identifier.
    pub fn get_attachment_content(&self, attachment_id: i64) -> (r: Result<Vec<u8>, VaultError>)
        ensures
            self@.store is None ==> r == Err::<Vec<u8>, VaultError>(VaultError::VaultClosed),
            self@.store matches Some(st) ==> ({
                &&& r matches Ok(c) ==> (crate::attachments::lookup_attachment(
                    st.attachments,
                    attachment_id,
                ) matches Some(a) && a.content == c@)
                &&& r is Err ==> (crate::attachments::lookup_attachment(
                    st.attachments,
                    attachment_id,
                ) is None && r == Err::<Vec<u8>, VaultError>(VaultError::StorageError))
            }),
    {
        match &self.store {
            Some(st) => st.get_attachment_content(attachment_id),
            None => Err(VaultError::VaultClosed),
        }
    }

    /// Remove an attachment for good.
    pub fn delete_attachment(&mut self, id: i64) -> (r: Result<(), VaultError>)
        requires
            old(self).wf(),
        ensures
            final(self).wf(),
            final(self)@ == (VaultV { store: final(self)@.store, ..old(self)@ }),
            old(self)@.store is None ==> r == Err::<(), VaultError>(VaultError::VaultClosed)
                && final(self)@ == old(self)@,
            old(self)@.store matches Some(st0) ==> (r is Ok && final(self)@.store == Some(
                StoreV { attachments: remove_attachment(st0.attachments, id), ..st0 },
            )),
    {
        match &mut self.store {
            Some(st) => {
                st.delete_attachment(id);
                Ok(())
            },
            None => Err(VaultError::VaultClosed),
        }
    }

    /// Empty the trash: remove every soft-deleted secret and project, and
    /// the attachments of the removed secrets.
    pub fn empty_trash(&mut self) -> (r: Result<(), VaultError>)
        requires
            old(self).wf(),
        ensures
            final(self).wf(),
            final(self)@ == (VaultV { store: final(self)@.store, ..old(self)@ }),
            old(self)@.store is None ==> r == Err::<(), VaultError>(VaultError::VaultClosed)
                && final(self)@ == old(self)@,
            old(self)@.store matches Some(st0) ==> (r is Ok && final(self)@.store == Some(
                StoreV {
                    secrets: active_secrets(st0.secrets),
                    projects: active_projects(st0.projects),
                    attachments: live_attachments(st0.attachments, active_secrets(st0.secrets)),
                    ..st0
                },
            )),
    {
        match &mut self.store {
            Some(st) => {
                st.empty_trash();
                Ok(())
            },
            None => Err(VaultError::VaultClosed),
        }
    }
}

/// Persisting and reopening commute: an image locked away under a key
/// opens back, under the same key, to exactly the store that was locked.
pub proof fn lemma_lock_unlock_round_trip(env: Seq<u8>, key: Seq<u8>, st: StoreV)
    requires
        envelope_for(env, key, enc_store(st)),
        store_encodable(st),
    ensures
        spec_open_envelope(env, key) == Some(enc_store(st)),
        dec_store(enc_store(st)) == Some(st),
{
    crate::aead::lemma_encrypt_decrypt_round_trip(env, key, enc_store(st));
    crate::codec::lemma_store_round_trip(st);
}

} // verus!
