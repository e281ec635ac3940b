//! The library's error type and how it reads as text.

use vstd::prelude::*;
use crate::text::push_str;

verus! {

/// What can go wrong, with a human-readable detail.
#[derive(Debug)]
pub enum EnvlyError {
    Crypto(String),
    Vault(String),
    Io(String),
    Serialization(String),
    Keychain(String),
    Validation(String),
}

/// The text of an error: a prefix naming its kind, then its detail.
pub open spec fn error_text(e: EnvlyError) -> Seq<char> {
    match e {
        EnvlyError::Crypto(m) => "Crypto error: "@ + m@,
        EnvlyError::Vault(m) => "Vault error: "@ + m@,
        EnvlyError::Io(m) => "IO error: "@ + m@,
        EnvlyError::Serialization(m) => "Serialization error: "@ + m@,
        EnvlyError::Keychain(m) => "Keychain error: "@ + m@,
        EnvlyError::Validation(m) => "Validation error: "@ + m@,
    }
}

/// `r` failed with a validation error whose detail is `msg`.
pub open spec fn is_validation_err<T>(r: Result<T, EnvlyError>, msg: Seq<char>) -> bool {
    r matches Err(EnvlyError::Validation(m)) && m@ == msg
}

/// `r` failed with a vault error whose detail is `msg`.
pub open spec fn is_vault_err<T>(r: Result<T, EnvlyError>, msg: Seq<char>) -> bool {
    r matches Err(EnvlyError::Vault(m)) && m@ == msg
}

impl EnvlyError {
    /// The text of this error.
    pub fn to_text(&self) -> (s: String)
        ensures
            s@ == error_text(*self),
    {
        let mut s = String::new();
        let m = match self {
            EnvlyError::Crypto(m) => {
                push_str(&mut s, "Crypto error: ");
                m
            },
            EnvlyError::Vault(m) => {
                push_str(&mut s, "Vault error: ");
                m
            },
            EnvlyError::Io(m) => {
                push_str(&mut s, "IO error: ");
                m
            },
            EnvlyError::Serialization(m) => {
                push_str(&mut s, "Serialization error: ");
                m
            },
            EnvlyError::Keychain(m) => {
                push_str(&mut s, "Keychain error: ");
                m
            },
            EnvlyError::Validation(m) => {
                push_str(&mut s, "Validation error: ");
                m
            },
        };
        push_str(&mut s, m.as_str());
        proof {
            assert(Seq::<char>::empty() + "Crypto error: "@ + m@ =~= "Crypto error: "@ + m@);
            assert(Seq::<char>::empty() + "Vault error: "@ + m@ =~= "Vault error: "@ + m@);
            assert(Seq::<char>::empty() + "IO error: "@ + m@ =~= "IO error: "@ + m@);
            assert(Seq::<char>::empty() + "Serialization error: "@ + m@ =~= "Serialization error: "@
                + m@);
            assert(Seq::<char>::empty() + "Keychain error: "@ + m@ =~= "Keychain error: "@ + m@);
            assert(Seq::<char>::empty() + "Validation error: "@ + m@ =~= "Validation error: "@
                + m@);
        }
        s
    }
}

/// Turns an error into the text that a command reports.
pub fn to_cmd_err(e: EnvlyError) -> (s: String)
    ensures
        s@ == error_text(e),
{
    e.to_text()
}

/// Turns an error into the text that a command reports (the form used with `map_err`).
pub fn map_err(e: EnvlyError) -> (s: String)
    ensures
        s@ == error_text(e),
{
    e.to_text()
}

} // verus!
