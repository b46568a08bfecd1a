use vstd::prelude::*;
use vstd::string::StrSliceExecFns;
use vstd::utf8::encode_utf8;
use crate::VaultError;

verus! {

/// The 32-byte symmetric master key derived from the vault password.
///
/// It is never persisted; the holder wipes it with `wipe` before
/// letting go of it, so no key material outlives a lock.
pub struct MasterKey {
    pub key: [u8; 32],
}

impl View for MasterKey {
    type V = Seq<u8>;

    open spec fn view(&self) -> Seq<u8> {
        self.key@
    }
}

impl MasterKey {
    /// Overwrite the key bytes with zeros.
    pub fn wipe(&mut self)
        ensures
            final(self)@ =~= seq![0u8; 32],
    {
        self.key = [0u8; 32];
    }
}

/// The characters a persisted salt may contain: the B64 alphabet of the
/// PHC string format, lowercase and uppercase letters, digits, `/`, `+`,
/// `.` and `-`.
pub open spec fn salt_char_ok(c: char) -> bool {
    ||| 'a' <= c <= 'z'
    ||| 'A' <= c <= 'Z'
    ||| '0' <= c <= '9'
    ||| c == '/'
    ||| c == '+'
    ||| c == '.'
    ||| c == '-'
}

/// A well-formed salt string: between 4 and 64 characters, all drawn from
/// the PHC B64 alphabet.
pub open spec fn salt_ok(s: Seq<char>) -> bool {
    &&& 4 <= s.len() <= 64
    &&& forall|i: int| 0 <= i < s.len() ==> salt_char_ok(#[trigger] s[i])
}

/// The inputs on which the password hash itself is defined: the password
/// must encode to at most 2^32 - 1 bytes and the salt to between 8 and
/// 2^32 - 1 bytes.
pub open spec fn derivable(password: Seq<char>, salt: Seq<char>) -> bool {
    &&& encode_utf8(password).len() <= 0xFFFFFFFF
    &&& 8 <= encode_utf8(salt).len() <= 0xFFFFFFFF
}

/// The key that the password hash produces for a password and salt: a
/// fixed function of the two, 32 bytes long.
pub uninterp spec fn derived_key(password: Seq<char>, salt: Seq<char>) -> Seq<u8>;

/// Relies on argon2::Argon2::hash_password_into with default parameters
/// (Argon2id v19): it fills the 32-byte output with a hash that is a
/// function of the password and salt bytes alone, and it errs exactly
/// when the password is longer than 2^32 - 1 bytes or the salt lies
/// outside 8..=2^32 - 1 bytes.
#[verifier::external_body]
fn argon2_hash(password: &str, salt: &str) -> (r: Result<[u8; 32], ()>)
    ensures
        r is Ok <==> derivable(password@, salt@),
        r matches Ok(k) ==> k@ == derived_key(password@, salt@),
{
    let mut key = [0u8; 32];
    match argon2::Argon2::default().hash_password_into(password.as_bytes(), salt.as_bytes(), &mut key) {
        Ok(()) => Ok(key),
        Err(_) => Err(()),
    }
}

/// Relies on argon2::password_hash::SaltString::generate: it encodes 16
/// bytes drawn from the operating system's randomness as 22 characters of
/// the B64 alphabet.
#[verifier::external_body]
pub fn generate_salt() -> (r: String)
    ensures
        salt_ok(r@),
        r@.len() == 22,
{
    argon2::password_hash::SaltString::generate(&mut argon2::password_hash::rand_core::OsRng)
        .as_str()
        .to_owned()
}

/// Whether a string is a well-formed salt.
pub fn valid_salt(s: &str) -> (r: bool)
    ensures
        r == salt_ok(s@),
{
    let n = s.unicode_len();
    if n < 4 || n > 64 {
        return false;
    }
    let mut i: usize = 0;
    while i < n
        invariant
            n == s@.len(),
            i <= n,
            forall|j: int| 0 <= j < i ==> salt_char_ok(#[trigger] s@[j]),
        decreases n - i,
    {
        let c = s.get_char(i);
        let ok = ('a' <= c && c <= 'z') || ('A' <= c && c <= 'Z') || ('0' <= c && c <= '9')
            || c == '/' || c == '+' || c == '.' || c == '-';
        if !ok {
            return false;
        }
        i = i + 1;
    }
    true
}

/// Derive the master key for a password and a persisted salt.
///
/// Rejects a malformed salt with `InvalidSalt`; a well-formed salt that
/// the hash itself cannot take (shorter than 8 characters, or a password
/// over 2^32 - 1 bytes) yields `DerivationFailed`. On every other input
/// the derivation succeeds and is deterministic: the key is a function of
/// the password and salt alone.
pub fn derive_key_from_password(password: &str, salt_str: &str) -> (r: Result<MasterKey, VaultError>)
    ensures
        !salt_ok(salt_str@) ==> r == Err::<MasterKey, VaultError>(VaultError::InvalidSalt),
        salt_ok(salt_str@) && !derivable(password@, salt_str@) ==> r == Err::<MasterKey, VaultError>(
            VaultError::DerivationFailed,
        ),
        salt_ok(salt_str@) && derivable(password@, salt_str@) ==> (r matches Ok(k) && k@
            == derived_key(password@, salt_str@)),
        r matches Ok(k) ==> k@ == derived_key(password@, salt_str@),
{
    if !valid_salt(salt_str) {
        return Err(VaultError::InvalidSalt);
    }
    match argon2_hash(password, salt_str) {
        Ok(key) => Ok(MasterKey { key }),
        Err(()) => Err(VaultError::DerivationFailed),
    }
}

/// A well-formed salt is ASCII, so its UTF-8 encoding is one byte per
/// character: between 4 and 64 bytes.
pub proof fn lemma_salt_utf8_len(s: Seq<char>)
    requires
        salt_ok(s),
    ensures
        encode_utf8(s).len() == s.len(),
{
    assert(vstd::utf8::is_ascii_chars(s)) by {
        assert forall|i: int| 0 <= i < s.len() implies '\0' <= #[trigger] s[i] <= '\u{7f}' by {
            assert(salt_char_ok(s[i]));
        }
    }
    vstd::utf8::is_ascii_chars_encode_utf8(s);
}

/// The derived key is deterministic: two derivations from the same
/// password and the same salt agree.
pub proof fn lemma_derive_key_deterministic(
    password: Seq<char>,
    salt: Seq<char>,
    k1: Seq<u8>,
    k2: Seq<u8>,
)
    requires
        k1 == derived_key(password, salt),
        k2 == derived_key(password, salt),
    ensures
        k1 == k2,
{
}

} // verus!
