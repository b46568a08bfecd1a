use vstd::prelude::*;
use crate::VaultError;
use crate::keys::MasterKey;

verus! {

/// The ciphertext-and-tag that the authenticated cipher produces for a
/// key, a nonce and a plaintext: a fixed function of the three.
pub uninterp spec fn sealed(key: Seq<u8>, nonce: Seq<u8>, plaintext: Seq<u8>) -> Seq<u8>;

/// What authenticated decryption returns for a key, a nonce and a
/// ciphertext: the plaintext when the tag verifies, nothing otherwise.
pub uninterp spec fn opened(key: Seq<u8>, nonce: Seq<u8>, ciphertext: Seq<u8>) -> Option<Seq<u8>>;

/// An envelope as `encrypt_data` lays it out: a 12-byte nonce followed by
/// the authenticated ciphertext of the plaintext under the key and that
/// nonce.
pub open spec fn envelope_for(env: Seq<u8>, key: Seq<u8>, plaintext: Seq<u8>) -> bool {
    &&& env.len() >= 12
    &&& env.subrange(12, env.len() as int) == sealed(key, env.subrange(0, 12), plaintext)
    &&& opened(key, env.subrange(0, 12), env.subrange(12, env.len() as int)) == Some(plaintext)
}

/// What opening an envelope under a key yields: nothing for a truncated
/// envelope or a tag that does not verify, the plaintext otherwise.
pub open spec fn spec_open_envelope(env: Seq<u8>, key: Seq<u8>) -> Option<Seq<u8>> {
    if env.len() < 12 {
        None
    } else {
        opened(key, env.subrange(0, 12), env.subrange(12, env.len() as int))
    }
}

/// Relies on aes_gcm::Aes256Gcm::generate_nonce with the operating
/// system's randomness: 12 fresh random bytes.
#[verifier::external_body]
fn generate_nonce() -> (r: Vec<u8>)
    ensures
        r@.len() == 12,
{
    <aes_gcm::Aes256Gcm as aes_gcm::aead::AeadCore>::generate_nonce(&mut aes_gcm::aead::OsRng)
        .to_vec()
}

/// Relies on aes_gcm::Aes256Gcm through aes_gcm::aead::Aead::encrypt: the
/// ciphertext with its appended tag is a function of key, nonce and
/// plaintext alone, is 16 bytes longer than the plaintext, decrypts back
/// to the plaintext under the same key and nonce, and is refused exactly
/// when the plaintext is over 2^36 bytes.
#[verifier::external_body]
fn aes_seal(key: &MasterKey, nonce: &[u8], msg: &[u8]) -> (r: Result<Vec<u8>, ()>)
    requires
        nonce@.len() == 12,
    ensures
        r is Ok <==> msg@.len() <= 0x1000000000,
        r matches Ok(ct) ==> {
            &&& ct@ == sealed(key@, nonce@, msg@)
            &&& ct@.len() == msg@.len() + 16
            &&& opened(key@, nonce@, ct@) == Some(msg@)
        },
{
    let cipher = <aes_gcm::Aes256Gcm as aes_gcm::KeyInit>::new((&key.key).into());
    match aes_gcm::aead::Aead::encrypt(&cipher, aes_gcm::Nonce::from_slice(nonce), msg) {
        Ok(ct) => Ok(ct),
        Err(_) => Err(()),
    }
}

/// Relies on aes_gcm::Aes256Gcm through aes_gcm::aead::Aead::decrypt: it
/// returns the plaintext exactly when the authentication tag verifies for
/// this key, nonce and ciphertext.
#[verifier::external_body]
fn aes_open(key: &MasterKey, nonce: &[u8], ct: &[u8]) -> (r: Result<Vec<u8>, ()>)
    requires
        nonce@.len() == 12,
    ensures
        r matches Ok(m) ==> opened(key@, nonce@, ct@) == Some(m@),
        r is Err ==> opened(key@, nonce@, ct@) is None,
{
    let cipher = <aes_gcm::Aes256Gcm as aes_gcm::KeyInit>::new((&key.key).into());
    match aes_gcm::aead::Aead::decrypt(&cipher, aes_gcm::Nonce::from_slice(nonce), ct) {
        Ok(m) => Ok(m),
        Err(_) => Err(()),
    }
}

/// Encrypt a plaintext under the master key into a portable envelope:
/// a fresh random 12-byte nonce, then the authenticated ciphertext.
///
/// Succeeds on every plaintext of at most 2^36 bytes; the envelope is 28
/// bytes longer than the plaintext and opens back to it under the same
/// key.
pub fn encrypt_data(data: &[u8], key: &MasterKey) -> (r: Result<Vec<u8>, VaultError>)
    ensures
        r is Ok <==> data@.len() <= 0x1000000000,
        r matches Ok(env) ==> envelope_for(env@, key@, data@) && env@.len() == data@.len() + 28,
        r is Err ==> r == Err::<Vec<u8>, VaultError>(VaultError::StorageError),
{
    let mut package = generate_nonce();
    let mut ct = match aes_seal(key, package.as_slice(), data) {
        Ok(ct) => ct,
        Err(()) => {
            return Err(VaultError::StorageError);
        },
    };
    let ghost nonce_view = package@;
    let ghost ct_view = ct@;
    package.append(&mut ct);
    proof {
        assert(package@.subrange(0, 12) =~= nonce_view);
        assert(package@.subrange(12, package@.len() as int) =~= ct_view);
    }
    Ok(package)
}

/// Open an envelope under the master key.
///
/// An envelope shorter than the 12-byte nonce is malformed; one whose tag
/// does not verify under this key is reported as a wrong password, since
/// the tag is the only password check a backup carries.
pub fn decrypt_data(encrypted_data: &[u8], key: &MasterKey) -> (r: Result<Vec<u8>, VaultError>)
    ensures
        r matches Ok(m) ==> spec_open_envelope(encrypted_data@, key@) == Some(m@),
        r is Err ==> spec_open_envelope(encrypted_data@, key@) is None,
        r matches Err(e) ==> e == (if encrypted_data@.len() < 12 {
            VaultError::InvalidFormat
        } else {
            VaultError::WrongPassword
        }),
{
    if encrypted_data.len() < 12 {
        return Err(VaultError::InvalidFormat);
    }
    let nonce = vstd::slice::slice_subrange(encrypted_data, 0, 12);
    let ct = vstd::slice::slice_subrange(encrypted_data, 12, encrypted_data.len());
    match aes_open(key, nonce, ct) {
        Ok(m) => Ok(m),
        Err(()) => Err(VaultError::WrongPassword),
    }
}

/// Round trip: an envelope produced for a plaintext under a key opens
/// back to exactly that plaintext under the same key.
pub proof fn lemma_encrypt_decrypt_round_trip(env: Seq<u8>, key: Seq<u8>, plaintext: Seq<u8>)
    requires
        envelope_for(env, key, plaintext),
    ensures
        spec_open_envelope(env, key) == Some(plaintext),
{
}

} // verus!
