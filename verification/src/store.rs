//! The rules of the persisted inventory: how SSH credentials are stored and read back, what of
//! them the UI may see, and how user edits change a device. The SQLite connection itself belongs
//! to the caller; the store is crypto-agnostic and keeps the password ciphertext and nonce as
//! opaque bytes.
use vstd::prelude::*;
use crate::error::CoreError;
use crate::model::{opt_view, Device};
use crate::text::{append, from_chars, to_chars};

verus! {

/// How a device's SSH login is authenticated.
#[derive(Debug, Clone, Copy, PartialEq, Eq, Structural)]
pub enum AuthMethod {
    /// A password, stored encrypted.
    Password,
    /// A private key file, stored as its path.
    Key,
}

impl AuthMethod {
    /// The method's text in the `auth_method` column.
    pub open spec fn db_text(self) -> Seq<char> {
        match self {
            AuthMethod::Password => "password"@,
            AuthMethod::Key => "key"@,
        }
    }

    /// The method stored as `s`, if any.
    pub open spec fn from_db_text(s: Seq<char>) -> Option<AuthMethod> {
        if s == "password"@ {
            Some(AuthMethod::Password)
        } else if s == "key"@ {
            Some(AuthMethod::Key)
        } else {
            None
        }
    }

    /// The method's text in the `auth_method` column.
    pub fn as_db_str(&self) -> (r: &'static str)
        ensures
            r@ == self.db_text(),
    {
        match self {
            AuthMethod::Password => "password",
            AuthMethod::Key => "key",
        }
    }

    /// Read an `auth_method` column value.
    pub fn from_db_str(s: &str) -> (r: Option<AuthMethod>)
        ensures
            r == AuthMethod::from_db_text(s@),
    {
        let v = to_chars(s);
        let pw = to_chars("password");
        let key = to_chars("key");
        if crate::text::eq_v(&v, &pw) {
            Some(AuthMethod::Password)
        } else if crate::text::eq_v(&v, &key) {
            Some(AuthMethod::Key)
        } else {
            None
        }
    }
}

/// Storing a method and reading it back gives the same method.
pub proof fn lemma_auth_method_roundtrip(m: AuthMethod)
    ensures
        AuthMethod::from_db_text(m.db_text()) == Some(m),
{
    reveal_strlit("password");
    reveal_strlit("key");
    assert("password"@ != "key"@) by {
        assert("password"@.len() != "key"@.len());
    }
}

/// A device's stored SSH credential, keyed by MAC, including the password ciphertext. Only the
/// crypto layer may see this; the UI gets [`CredentialMeta`].
#[derive(Debug, Clone)]
pub struct StoredCredential {
    pub mac: String,
    pub auth_method: AuthMethod,
    /// Ciphertext of the password (password auth only).
    pub pw_cipher: Option<Vec<u8>>,
    /// Nonce the password was sealed with (password auth only).
    pub pw_nonce: Option<Vec<u8>>,
    /// Path of the private key file (key auth only).
    pub key_path: Option<String>,
    /// Unix seconds when the credential was first saved.
    pub created_at: i64,
    /// Unix seconds of the latest change.
    pub updated_at: i64,
}

/// The non-secret part of a stored credential, safe to show.
#[derive(Debug, Clone)]
pub struct CredentialMeta {
    pub mac: String,
    pub auth_method: AuthMethod,
    /// Whether a password ciphertext is stored.
    pub has_password: bool,
    pub key_path: Option<String>,
}

/// The message for a stored method the model does not know.
pub open spec fn unknown_method_msg(method: Seq<char>, mac: Seq<char>) -> Seq<char> {
    "unknown auth_method '"@ + method + "' for "@ + mac
}

/// A credential row read back: its fields as stored, or an integrity error when the method
/// column holds text no method is stored as.
pub fn credential_from_row(
    mac: String,
    method: String,
    pw_cipher: Option<Vec<u8>>,
    pw_nonce: Option<Vec<u8>>,
    key_path: Option<String>,
    created_at: i64,
    updated_at: i64,
) -> (r: Result<StoredCredential, CoreError>)
    ensures
        match AuthMethod::from_db_text(method@) {
            Some(m) => r matches Ok(c) && c.mac == mac && c.auth_method == m && c.pw_cipher == pw_cipher
                && c.pw_nonce == pw_nonce && c.key_path == key_path && c.created_at == created_at
                && c.updated_at == updated_at,
            None => r matches Err(CoreError::Integrity(msg)) && msg@ == unknown_method_msg(method@, mac@),
        },
{
    match AuthMethod::from_db_str(method.as_str()) {
        Some(auth_method) => Ok(
            StoredCredential { mac, auth_method, pw_cipher, pw_nonce, key_path, created_at, updated_at },
        ),
        None => {
            let mut v = to_chars("unknown auth_method '");
            append(&mut v, &to_chars(method.as_str()));
            append(&mut v, &to_chars("' for "));
            append(&mut v, &to_chars(mac.as_str()));
            Err(CoreError::Integrity(from_chars(&v)))
        },
    }
}

/// The non-secret metadata of a credential: everything but the ciphertext and nonce, and
/// whether a ciphertext is stored.
pub fn credential_meta(c: StoredCredential) -> (r: CredentialMeta)
    ensures
        r.mac == c.mac,
        r.auth_method == c.auth_method,
        r.has_password == (c.pw_cipher is Some),
        r.key_path == c.key_path,
{
    CredentialMeta {
        mac: c.mac,
        auth_method: c.auth_method,
        has_password: c.pw_cipher.is_some(),
        key_path: c.key_path,
    }
}

/// A credential about to replace `existing`: it keeps the first creation time when there is
/// one.
pub fn keep_created_at(cred: StoredCredential, existing: &Option<StoredCredential>) -> (r: StoredCredential)
    ensures
        r.mac == cred.mac,
        r.auth_method == cred.auth_method,
        r.pw_cipher == cred.pw_cipher,
        r.pw_nonce == cred.pw_nonce,
        r.key_path == cred.key_path,
        r.updated_at == cred.updated_at,
        r.created_at == match existing {
            Some(e) => e.created_at,
            None => cred.created_at,
        },
{
    let mut c = cred;
    match existing {
        Some(e) => {
            c.created_at = e.created_at;
        },
        None => {},
    }
    c
}

fn own(o: Option<&str>) -> (r: Option<String>)
    ensures
        opt_view(r) == match o {
            Some(s) => Some(s@),
            None => None,
        },
{
    match o {
        Some(s) => Some(s.to_owned()),
        None => None,
    }
}

/// Set (or clear, with `None`) the device's user-supplied name; nothing else changes.
pub fn set_custom_name(device: &mut Device, name: Option<&str>)
    ensures
        opt_view(final(device).custom_name) == match name {
            Some(s) => Some(s@),
            None => None,
        },
        final(device).id == old(device).id,
        final(device).ip == old(device).ip,
        final(device).mac == old(device).mac,
        final(device).vendor == old(device).vendor,
        final(device).ssh_user == old(device).ssh_user,
        final(device).names == old(device).names,
        final(device).status == old(device).status,
        final(device).ssh == old(device).ssh,
        final(device).open_ports == old(device).open_ports,
        final(device).services == old(device).services,
        final(device).ports_scanned_at == old(device).ports_scanned_at,
        final(device).first_seen == old(device).first_seen,
        final(device).last_seen == old(device).last_seen,
{
    device.custom_name = own(name);
}

/// Set (or clear, with `None`) the device's chosen SSH login; nothing else changes.
pub fn set_username(device: &mut Device, user: Option<&str>)
    ensures
        opt_view(final(device).ssh_user) == match user {
            Some(s) => Some(s@),
            None => None,
        },
        final(device).id == old(device).id,
        final(device).ip == old(device).ip,
        final(device).mac == old(device).mac,
        final(device).vendor == old(device).vendor,
        final(device).custom_name == old(device).custom_name,
        final(device).names == old(device).names,
        final(device).status == old(device).status,
        final(device).ssh == old(device).ssh,
        final(device).open_ports == old(device).open_ports,
        final(device).services == old(device).services,
        final(device).ports_scanned_at == old(device).ports_scanned_at,
        final(device).first_seen == old(device).first_seen,
        final(device).last_seen == old(device).last_seen,
{
    device.ssh_user = own(user);
}

} // verus!
