//! How a symmetric vault key is named and written in the system keychain.
//! The keychain itself is reached by the application; this module computes
//! the entry's name and the text stored in it, and reads a key back.

use vstd::prelude::*;
use crate::error::EnvlyError;
use crate::ids::{uuid_text, uuid_string};
use crate::text::push_str;
use crate::crypto::array_32;
use crate::crypto::primitives::{base64_text, base64_decoded, base64_encode, base64_decode};

verus! {

/// The keychain service under which vault keys are stored.
pub const SERVICE_NAME: &'static str = "com.envly.envly";

/// The name of the keychain entry for the vault with id `vault_id`.
pub open spec fn key_entry_name(vault_id: u128) -> Seq<char> {
    "vault-master-key-"@ + uuid_text(vault_id)
}

/// The keychain entry name for the vault with id `vault_id`:
/// `vault-master-key-` followed by the vault's UUID.
pub fn key_entry(vault_id: u128) -> (s: String)
    ensures
        s@ == key_entry_name(vault_id),
{
    let mut s = String::from_str("vault-master-key-");
    let u = uuid_string(vault_id);
    push_str(&mut s, u.as_str());
    s
}

/// The text stored in the keychain for `key`: its standard base64.
pub fn stored_key_text(key: &[u8; 32]) -> (s: String)
    ensures
        s@ == base64_text(key@),
{
    base64_encode(key.as_slice())
}

/// Reads a key back from the text stored in the keychain: it must be base64
/// of exactly 32 bytes.
pub fn decode_stored_key(encoded: &str) -> (r: Result<[u8; 32], EnvlyError>)
    ensures
        match base64_decoded(encoded@) {
            Err(m) => r matches Err(EnvlyError::Keychain(x)) && x@ == m,
            Ok(b) => if b.len() == 32 {
                r matches Ok(k) && k@ == b
            } else {
                r matches Err(EnvlyError::Keychain(x)) && x@ == "Stored key has invalid length"@
            },
        },
        forall|k: Seq<u8>|
            k.len() == 32 && #[trigger] base64_text(k) == encoded@ ==> (r matches Ok(x) && x@ == k),
{
    let bytes = match base64_decode(encoded) {
        Ok(b) => b,
        Err(m) => {
            return Err(EnvlyError::Keychain(m));
        },
    };
    if bytes.len() != 32 {
        return Err(EnvlyError::Keychain(String::from_str("Stored key has invalid length")));
    }
    Ok(array_32(bytes.as_slice()))
}

} // verus!
