//! Encryption of stored SSH passwords.
//!
//! A single random 256-bit master key lives in the OS keychain. Passwords are sealed with
//! XChaCha20-Poly1305 and the device MAC is bound in as associated data, so a ciphertext cannot
//! be moved between device rows. Only the ciphertext and nonce are persisted; the key never
//! touches the database.
use vstd::prelude::*;
use chacha20poly1305::aead::{Aead, AeadCore, KeyInit, OsRng, Payload};
use chacha20poly1305::{Key, XChaCha20Poly1305, XNonce};

verus! {

#[verifier::external_type_specification]
#[verifier::external_body]
pub struct ExKeyringError(keyring::Error);

#[verifier::external_type_specification]
#[verifier::external_body]
pub struct ExEntry(keyring::Entry);

/// Keychain service under which the master key is stored.
pub const KEYCHAIN_SERVICE: &'static str = "dev.KodingKorp.homelab-utils";
/// Keychain account under which the master key is stored.
pub const KEYCHAIN_USER: &'static str = "ssh-credential-master-key";
/// Length of the master key in bytes.
pub const KEY_LEN: usize = 32;
/// Length of an XChaCha20 nonce in bytes.
pub const NONCE_LEN: usize = 24;

/// Failures from the credential crypto layer.
#[derive(Debug)]
pub enum CryptoError {
    /// The OS keychain is missing or unusable: we refuse to pretend a secret was protected when
    /// it would not be.
    KeyStoreUnavailable(String),
    /// A keychain operation failed.
    Keyring(keyring::Error),
    /// Sealing or opening failed (wrong key, tampered ciphertext, or associated data mismatch).
    Aead,
    /// A persisted nonce had the wrong length.
    BadNonce,
    /// A decrypted password was not valid UTF-8.
    BadUtf8,
}

/// The display text of a keychain error (its `Display`). Nothing is stated of the text.
#[verifier::external_body]
fn keyring_error_text(e: &keyring::Error) -> String {
    format!("{e}")
}

impl CryptoError {
    /// The error's message.
    pub fn message(&self) -> (r: String)
        ensures
            match self {
                CryptoError::KeyStoreUnavailable(m) => r@ == "secure key store unavailable: "@ + m@,
                CryptoError::Keyring(_) => exists|t: Seq<char>| r@ == "keychain error: "@ + t,
                CryptoError::Aead => r@ == "encryption/decryption failed"@,
                CryptoError::BadNonce => r@ == "stored nonce is malformed"@,
                CryptoError::BadUtf8 => r@ == "decrypted password is not valid UTF-8"@,
            },
    {
        match self {
            CryptoError::KeyStoreUnavailable(m) => {
                let mut v = crate::text::to_chars("secure key store unavailable: ");
                crate::text::append(&mut v, &crate::text::to_chars(m.as_str()));
                crate::text::from_chars(&v)
            },
            CryptoError::Keyring(e) => {
                let mut v = crate::text::to_chars("keychain error: ");
                crate::text::append(&mut v, &crate::text::to_chars(keyring_error_text(e).as_str()));
                crate::text::from_chars(&v)
            },
            CryptoError::Aead => "encryption/decryption failed".to_owned(),
            CryptoError::BadNonce => "stored nonce is malformed".to_owned(),
            CryptoError::BadUtf8 => "decrypted password is not valid UTF-8".to_owned(),
        }
    }
}

// ---- the cipher -------------------------------------------------------------------------------

/// What XChaCha20-Poly1305 seals `msg` to under `key`, `nonce` and associated data `aad`.
pub uninterp spec fn xchacha_sealed(key: Seq<u8>, nonce: Seq<u8>, aad: Seq<u8>, msg: Seq<u8>) -> Seq<u8>;

/// What XChaCha20-Poly1305 opens `ct` to under `key`, `nonce` and `aad`: `None` when the tag does
/// not verify.
pub uninterp spec fn xchacha_opened(key: Seq<u8>, nonce: Seq<u8>, aad: Seq<u8>, ct: Seq<u8>) -> Option<Seq<u8>>;

/// The largest message length the cipher seals: fewer than 2^32 - 1 keystream blocks of 64 bytes.
pub open spec fn sealable(msg: Seq<u8>) -> bool {
    msg.len() / 64 < 0xFFFF_FFFF
}

pub open spec fn opt_bytes(o: Option<Vec<u8>>) -> Option<Seq<u8>> {
    match o {
        Some(v) => Some(v@),
        None => None,
    }
}

/// `Aead::encrypt` of `XChaCha20Poly1305`: the sealed message (ciphertext with its 16-byte tag
/// appended), which the crate gives for every message short enough for the keystream, and only
/// for those.
#[verifier::external_body]
fn seal(key: &[u8; 32], nonce: &[u8], aad: &[u8], msg: &[u8]) -> (r: Option<Vec<u8>>)
    requires
        nonce@.len() == 24,
    ensures
        r is Some <==> sealable(msg@),
        r is Some ==> r->0@ == xchacha_sealed(key@, nonce@, aad@, msg@),
        r is Some ==> r->0@.len() == msg@.len() + 16,
{
    let cipher = XChaCha20Poly1305::new(Key::from_slice(key));
    cipher.encrypt(XNonce::from_slice(nonce), Payload { msg, aad }).ok()
}

/// `Aead::decrypt` of `XChaCha20Poly1305`: the opened message, `None` when the ciphertext is
/// shorter than a tag or the tag does not verify. A message sealed under the same key, nonce
/// and associated data opens to itself.
#[verifier::external_body]
fn open(key: &[u8; 32], nonce: &[u8], aad: &[u8], ct: &[u8]) -> (r: Option<Vec<u8>>)
    requires
        nonce@.len() == 24,
    ensures
        opt_bytes(r) == xchacha_opened(key@, nonce@, aad@, ct@),
        ct@.len() < 16 ==> r is None,
        forall|m: Seq<u8>|
            sealable(m) && #[trigger] xchacha_sealed(key@, nonce@, aad@, m) == ct@ ==> opt_bytes(r)
                == Some(m),
{
    let cipher = XChaCha20Poly1305::new(Key::from_slice(key));
    cipher.decrypt(XNonce::from_slice(nonce), Payload { msg: ct, aad }).ok()
}

/// `XChaCha20Poly1305::generate_nonce` with the OS random source: 24 random bytes. Nothing is
/// stated of the bytes; the call panics if the OS has no randomness to give.
#[verifier::external_body]
fn fresh_nonce() -> (r: Vec<u8>)
    ensures
        r@.len() == 24,
{
    XChaCha20Poly1305::generate_nonce(&mut OsRng).to_vec()
}

/// `XChaCha20Poly1305::generate_key` with the OS random source: 32 random bytes. Nothing is
/// stated of the bytes; the call panics if the OS has no randomness to give.
#[verifier::external_body]
fn fresh_key() -> [u8; 32] {
    XChaCha20Poly1305::generate_key(&mut OsRng).into()
}

/// Encrypt `plaintext` under `key`, binding `aad`, with a fresh random nonce. Returns
/// `(ciphertext, nonce)`.
pub fn encrypt(key: &[u8; 32], aad: &[u8], plaintext: &[u8]) -> (r: Result<(Vec<u8>, Vec<u8>), CryptoError>)
    ensures
        r is Ok <==> sealable(plaintext@),
        match r {
            Ok((ct, nonce)) => nonce@.len() == 24 && ct@ == xchacha_sealed(key@, nonce@, aad@, plaintext@),
            Err(e) => e is Aead,
        },
{
    let nonce = fresh_nonce();
    match seal(key, nonce.as_slice(), aad, plaintext) {
        Some(ct) => Ok((ct, nonce)),
        None => Err(CryptoError::Aead),
    }
}

/// Decrypt `ciphertext` under `key`, verifying `aad`: `BadNonce` unless the nonce has 24 bytes,
/// `Aead` unless the tag verifies. What [`encrypt`] sealed under the same key and `aad` decrypts
/// to the plaintext.
pub fn decrypt(key: &[u8; 32], aad: &[u8], ciphertext: &[u8], nonce: &[u8]) -> (r: Result<Vec<u8>, CryptoError>)
    ensures
        nonce@.len() != 24 ==> r is Err && r->Err_0 is BadNonce,
        nonce@.len() == 24 ==> match xchacha_opened(key@, nonce@, aad@, ciphertext@) {
            Some(p) => r is Ok && r->Ok_0@ == p,
            None => r is Err && r->Err_0 is Aead,
        },
        forall|m: Seq<u8>|
            nonce@.len() == 24 && sealable(m) && #[trigger] xchacha_sealed(key@, nonce@, aad@, m)
                == ciphertext@ ==> r is Ok && r->Ok_0@ == m,
{
    if nonce.len() != 24 {
        return Err(CryptoError::BadNonce);
    }
    match open(key, nonce, aad, ciphertext) {
        Some(p) => Ok(p),
        None => Err(CryptoError::Aead),
    }
}

// ---- text -------------------------------------------------------------------------------------

/// `String::from_utf8`: the text whose UTF-8 encoding the bytes are, when they are valid UTF-8.
#[verifier::external_body]
fn utf8_text(bytes: Vec<u8>) -> (r: Option<String>)
    ensures
        r is Some <==> vstd::utf8::valid_utf8(bytes@),
        r is Some ==> vstd::utf8::encode_utf8(r->0@) == bytes@,
{
    String::from_utf8(bytes).ok()
}

/// Seal a password for the device whose MAC is `mac` (bound as associated data) under `key`.
pub fn encrypt_text(key: &[u8; 32], mac: &str, plaintext: &str) -> (r: Result<(Vec<u8>, Vec<u8>), CryptoError>)
    ensures
        r is Ok <==> sealable(vstd::utf8::encode_utf8(plaintext@)),
        match r {
            Ok((ct, nonce)) => nonce@.len() == 24 && ct@ == xchacha_sealed(
                key@,
                nonce@,
                vstd::utf8::encode_utf8(mac@),
                vstd::utf8::encode_utf8(plaintext@),
            ),
            Err(e) => e is Aead,
        },
{
    encrypt(key, mac.as_bytes(), plaintext.as_bytes())
}

/// Open a stored password for `mac` under `key`: the nonce must have 24 bytes, the tag must
/// verify, and the plaintext must be UTF-8. A password sealed by [`encrypt_text`] under the same
/// key and MAC opens to itself.
pub fn decrypt_text(key: &[u8; 32], mac: &str, ciphertext: &[u8], nonce: &[u8]) -> (r: Result<String, CryptoError>)
    ensures
        nonce@.len() != 24 ==> r is Err && r->Err_0 is BadNonce,
        nonce@.len() == 24 ==> match xchacha_opened(key@, nonce@, vstd::utf8::encode_utf8(mac@), ciphertext@) {
            Some(p) => if vstd::utf8::valid_utf8(p) {
                r is Ok && vstd::utf8::encode_utf8(r->Ok_0@) == p
            } else {
                r is Err && r->Err_0 is BadUtf8
            },
            None => r is Err && r->Err_0 is Aead,
        },
        forall|m: Seq<char>|
            nonce@.len() == 24 && sealable(vstd::utf8::encode_utf8(m)) && #[trigger] xchacha_sealed(
                key@,
                nonce@,
                vstd::utf8::encode_utf8(mac@),
                vstd::utf8::encode_utf8(m),
            ) == ciphertext@ ==> r is Ok && r->Ok_0@ == m,
{
    let r = match decrypt(key, mac.as_bytes(), ciphertext, nonce) {
        Ok(p) => match utf8_text(p) {
            Some(s) => Ok(s),
            None => Err(CryptoError::BadUtf8),
        },
        Err(e) => Err(e),
    };
    proof {
        assert forall|m: Seq<char>|
            nonce@.len() == 24 && sealable(vstd::utf8::encode_utf8(m)) && #[trigger] xchacha_sealed(
                key@,
                nonce@,
                vstd::utf8::encode_utf8(mac@),
                vstd::utf8::encode_utf8(m),
            ) == ciphertext@ implies r is Ok && r->Ok_0@ == m by {
            vstd::utf8::encode_utf8_valid_utf8(m);
            vstd::utf8::encode_utf8_decode_utf8(m);
            if r is Ok {
                vstd::utf8::encode_utf8_decode_utf8(r->Ok_0@);
            }
        }
    }
    r
}

// ---- the master key ---------------------------------------------------------------------------

/// `keyring::Entry::new`: the keychain entry for a service and account, or the keychain's error.
#[verifier::external_body]
fn keychain_entry(service: &str, user: &str) -> Result<keyring::Entry, keyring::Error> {
    keyring::Entry::new(service, user)
}

/// What reading a keychain entry gave.
pub enum SecretRead {
    /// The stored secret.
    Found(Vec<u8>),
    /// The entry holds no secret.
    Missing,
    /// The keychain failed.
    Failed(keyring::Error),
}

/// `keyring::Entry::get_secret`, with the "no such entry" error told apart. What the keychain
/// holds is the machine's, so nothing is stated of the outcome.
#[verifier::external_body]
fn read_secret(entry: &keyring::Entry) -> SecretRead {
    match entry.get_secret() {
        Ok(bytes) => SecretRead::Found(bytes),
        Err(keyring::Error::NoEntry) => SecretRead::Missing,
        Err(e) => SecretRead::Failed(e),
    }
}

/// `keyring::Entry::set_secret`. Nothing is stated of the outcome.
#[verifier::external_body]
fn write_secret(entry: &keyring::Entry, secret: &[u8]) -> Result<(), keyring::Error> {
    entry.set_secret(secret)
}

/// What a first read of the keychain decides.
pub enum KeyLookup {
    /// A stored key of the right length: use it.
    Use([u8; 32]),
    /// No key, or a corrupt/wrong-length one: generate, store and verify a fresh one.
    Generate,
    /// The keychain failed.
    Fail(keyring::Error),
}

fn key_from(bytes: &Vec<u8>) -> (r: [u8; 32])
    requires
        bytes@.len() == 32,
    ensures
        r@ == bytes@,
{
    let mut key = [0u8; 32];
    let mut i: usize = 0;
    while i < 32
        invariant
            i <= 32,
            bytes@.len() == 32,
            forall|j: int| 0 <= j < i ==> key@[j] == bytes@[j],
        decreases 32 - i,
    {
        key.set(i, bytes[i]);
        i += 1;
    }
    assert(key@ =~= bytes@);
    key
}

/// The decision on the first read: a 32-byte secret is the key; a missing or other-length
/// secret means a fresh key; a keychain failure is passed on.
pub fn stored_key(read: SecretRead) -> (r: KeyLookup)
    ensures
        match read {
            SecretRead::Found(b) => if b@.len() == 32 {
                r matches KeyLookup::Use(k) && k@ == b@
            } else {
                r is Generate
            },
            SecretRead::Missing => r is Generate,
            SecretRead::Failed(_) => r is Fail,
        },
{
    match read {
        SecretRead::Found(b) => if b.len() == 32 {
            KeyLookup::Use(key_from(&b))
        } else {
            KeyLookup::Generate
        },
        SecretRead::Missing => KeyLookup::Generate,
        SecretRead::Failed(e) => KeyLookup::Fail(e),
    }
}

fn same_bytes(a: &Vec<u8>, b: &[u8; 32]) -> (r: bool)
    ensures
        r == (a@ == b@),
{
    if a.len() != 32 {
        return false;
    }
    let mut i: usize = 0;
    while i < 32
        invariant
            i <= 32,
            a@.len() == 32,
            forall|j: int| 0 <= j < i ==> a@[j] == b@[j],
        decreases 32 - i,
    {
        if a[i] != b[i] {
            return false;
        }
        i += 1;
    }
    assert(a@ =~= b@);
    true
}

/// The message when a freshly stored key does not read back.
pub open spec fn not_persisted_msg() -> Seq<char> {
    "key did not persist (no usable OS keychain backend)"@
}

/// The decision on the read-back of a freshly stored key: the key only if exactly it came back
/// (a keychain that silently fell back to a no-op store fails here, loudly).
pub fn confirm_persisted(fresh: [u8; 32], readback: SecretRead) -> (r: Result<[u8; 32], CryptoError>)
    ensures
        match readback {
            SecretRead::Found(b) => if b@ == fresh@ {
                r matches Ok(k) && k@ == fresh@
            } else {
                r matches Err(CryptoError::KeyStoreUnavailable(m)) && m@ == not_persisted_msg()
            },
            _ => r matches Err(CryptoError::KeyStoreUnavailable(m)) && m@ == not_persisted_msg(),
        },
{
    match readback {
        SecretRead::Found(b) => if same_bytes(&b, &fresh) {
            Ok(fresh)
        } else {
            Err(CryptoError::KeyStoreUnavailable("key did not persist (no usable OS keychain backend)".to_owned()))
        },
        _ => Err(CryptoError::KeyStoreUnavailable("key did not persist (no usable OS keychain backend)".to_owned())),
    }
}

/// Whether an error can come from the keychain rather than the cipher.
pub open spec fn keychain_error(e: CryptoError) -> bool {
    e is KeyStoreUnavailable || e is Keyring
}

/// Load the master key from the OS keychain, generating and storing it on first use (or when
/// the stored one is corrupt). The keychain is the machine's: whatever it answers, the outcome
/// is a key or a keychain error.
fn master_key() -> (r: Result<[u8; 32], CryptoError>)
    ensures
        r matches Err(e) ==> keychain_error(e),
        r matches Err(CryptoError::KeyStoreUnavailable(m)) ==> m@ == not_persisted_msg(),
{
    let entry = match keychain_entry(KEYCHAIN_SERVICE, KEYCHAIN_USER) {
        Ok(e) => e,
        Err(e) => return Err(CryptoError::Keyring(e)),
    };
    match stored_key(read_secret(&entry)) {
        KeyLookup::Use(k) => Ok(k),
        KeyLookup::Fail(e) => Err(CryptoError::Keyring(e)),
        KeyLookup::Generate => {
            let fresh = fresh_key();
            match write_secret(&entry, &fresh) {
                Ok(()) => {},
                Err(e) => return Err(CryptoError::Keyring(e)),
            }
            confirm_persisted(fresh, read_secret(&entry))
        },
    }
}

/// Encrypt a password for the device identified by `mac` (bound as associated data) under the
/// keychain's master key. Returns `(ciphertext, nonce)`.
pub fn encrypt_password(mac: &str, plaintext: &str) -> (r: Result<(Vec<u8>, Vec<u8>), CryptoError>)
    ensures
        match r {
            Ok((ct, nonce)) => nonce@.len() == 24 && exists|key: Seq<u8>|
                key.len() == 32 && ct@ == xchacha_sealed(
                    key,
                    nonce@,
                    vstd::utf8::encode_utf8(mac@),
                    vstd::utf8::encode_utf8(plaintext@),
                ),
            Err(e) => keychain_error(e) || (e is Aead && !sealable(vstd::utf8::encode_utf8(plaintext@))),
        },
{
    let key = master_key()?;
    let r = encrypt_text(&key, mac, plaintext);
    assert(key@.len() == 32);
    r
}

/// Decrypt a stored password for `mac` under the keychain's master key.
pub fn decrypt_password(mac: &str, ciphertext: &[u8], nonce: &[u8]) -> (r: Result<String, CryptoError>)
    ensures
        match r {
            Ok(s) => nonce@.len() == 24 && exists|key: Seq<u8>|
                key.len() == 32 && xchacha_opened(key, nonce@, vstd::utf8::encode_utf8(mac@), ciphertext@)
                    == Some(vstd::utf8::encode_utf8(s@)),
            Err(e) => keychain_error(e) || e is Aead || e is BadUtf8 || (e is BadNonce && nonce@.len() != 24),
        },
{
    let key = master_key()?;
    let r = decrypt_text(&key, mac, ciphertext, nonce);
    assert(key@.len() == 32);
    r
}

} // verus!
