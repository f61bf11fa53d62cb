//! Errors shared by the inventory, its persistence and the discovery engine.
use vstd::prelude::*;
use crate::text::{append, from_chars, to_chars};

verus! {

/// Errors produced by the core domain and persistence layer. The persistence failures carry the
/// message of the failure that caused them.
#[derive(Debug, Clone, PartialEq, Eq)]
pub enum CoreError {
    /// A SQLite / persistence failure.
    Db(String),
    /// JSON (de)serialization failure for import/export.
    Serde(String),
    /// Filesystem failure while reading/writing the store or exports.
    Io(String),
    /// The platform did not yield a usable application data directory.
    NoDataDir,
    /// A stored row holds a value the model cannot represent.
    Integrity(String),
}

/// The text a [`CoreError`] displays.
pub open spec fn core_error_text(e: CoreError) -> Seq<char> {
    match e {
        CoreError::Db(m) => "database error: "@ + m@,
        CoreError::Serde(m) => "serialization error: "@ + m@,
        CoreError::Io(m) => "io error: "@ + m@,
        CoreError::NoDataDir => "could not determine an application data directory"@,
        CoreError::Integrity(m) => "data integrity error: "@ + m@,
    }
}

fn prefixed(prefix: &str, m: &String) -> (r: String)
    ensures
        r@ == prefix@ + m@,
{
    let mut v = to_chars(prefix);
    append(&mut v, &to_chars(m.as_str()));
    from_chars(&v)
}

impl CoreError {
    /// The error's message.
    pub fn message(&self) -> (r: String)
        ensures
            r@ == core_error_text(*self),
    {
        match self {
            CoreError::Db(m) => prefixed("database error: ", m),
            CoreError::Serde(m) => prefixed("serialization error: ", m),
            CoreError::Io(m) => prefixed("io error: ", m),
            CoreError::NoDataDir => "could not determine an application data directory".to_owned(),
            CoreError::Integrity(m) => prefixed("data integrity error: ", m),
        }
    }
}

/// Errors the discovery engine can surface.
#[derive(Debug, Clone, PartialEq, Eq)]
pub enum DiscoveryError {
    /// No local IPv4 subnet could be determined and no explicit host list was given.
    NoSubnet,
    /// A core/persistence error bubbled up.
    Core(CoreError),
}

/// The text a [`DiscoveryError`] displays; a core error shows through unchanged.
pub open spec fn discovery_error_text(e: DiscoveryError) -> Seq<char> {
    match e {
        DiscoveryError::NoSubnet => "could not determine the local subnet to scan"@,
        DiscoveryError::Core(c) => core_error_text(c),
    }
}

impl DiscoveryError {
    /// The error's message.
    pub fn message(&self) -> (r: String)
        ensures
            r@ == discovery_error_text(*self),
    {
        match self {
            DiscoveryError::NoSubnet => "could not determine the local subnet to scan".to_owned(),
            DiscoveryError::Core(c) => c.message(),
        }
    }
}

} // verus!
