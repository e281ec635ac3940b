//! What the application's commands do to the vault and the registry. Each
//! command takes the state it works on and the I/O results it needs, and
//! gives back its answer, the text of its error, or what the caller must
//! still do on disk.

pub mod projects;
pub mod environments;
pub mod secrets;
pub mod vault_commands;

use vstd::prelude::*;
use crate::error::{EnvlyError, error_text, map_err};

verus! {

/// The text of a validation error with detail `msg`, as a command reports it.
pub open spec fn validation_text(msg: Seq<char>) -> Seq<char> {
    "Validation error: "@ + msg
}

/// The text of a vault error with detail `msg`, as a command reports it.
pub open spec fn vault_text(msg: Seq<char>) -> Seq<char> {
    "Vault error: "@ + msg
}

/// `r` failed and reported the text `msg`.
pub open spec fn fails_with<T>(r: Result<T, String>, msg: Seq<char>) -> bool {
    r matches Err(m) && m@ == msg
}

/// Reports a library error as a command's error text.
pub fn report<T>(r: Result<T, EnvlyError>) -> (out: Result<T, String>)
    ensures
        match r {
            Ok(v) => out == Ok::<T, String>(v),
            Err(e) => out matches Err(m) && m@ == error_text(e),
        },
{
    match r {
        Ok(v) => Ok(v),
        Err(e) => Err(map_err(e)),
    }
}

} // verus!
