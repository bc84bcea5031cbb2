//! The vault's error type.

use vstd::prelude::*;

verus! {

/// Why a vault operation did not go through.
#[derive(Debug, Clone, PartialEq, Eq)]
pub enum VaultError {
    /// The item to operate on is absent.
    NotFound,
    /// The target name is already taken.
    AlreadyExists,
    /// A reference did not decode to UTF-8 text.
    DecodeError,
    /// A path derived from an outside reference lies outside the vault root.
    SecurityRejected,
    /// The filesystem refused a step; the text says why.
    Io(String),
}

impl VaultError {
    /// A short human-readable description for the shell.
    pub fn message(&self) -> (r: String)
        ensures
            self matches VaultError::Io(m) ==> r@ == m@,
            !(self is Io) ==> r@.len() > 0,
    {
        proof {
            reveal_strlit("not found");
            reveal_strlit("already exists");
            reveal_strlit("reference is not valid UTF-8 after decoding");
            reveal_strlit("path lies outside the vault");
        }
        match self {
            VaultError::NotFound => String::from_str("not found"),
            VaultError::AlreadyExists => String::from_str("already exists"),
            VaultError::DecodeError => String::from_str("reference is not valid UTF-8 after decoding"),
            VaultError::SecurityRejected => String::from_str("path lies outside the vault"),
            VaultError::Io(m) => m.clone(),
        }
    }
}

} // verus!
