//! The encrypted vault file: the serialized vault, encrypted by a cipher,
//! together with the cipher's kind and the vault's cipher version.

use vstd::prelude::*;
use crate::error::EnvlyError;
use crate::crypto::{Cipher, CipherKind, EncryptedPayload};

verus! {

/// What reading `text` as JSON gives for the string member `field` of the
/// top-level object: an error when the text is not JSON, no string when the
/// value is not an object, has no such member or the member is not a string.
/// A function of the two texts alone.
pub uninterp spec fn json_string_field(text: Seq<char>, field: Seq<char>) -> Result<Option<Seq<char>>, ()>;

/// Reads `text` by `serde_json::from_str::<serde_json::Value>` and takes
/// `value.get(field)` as a string (`Value::as_str`). Claimed: the outcome is
/// `json_string_field(text, field)`.
#[verifier::external_body]
pub(crate) fn read_json_string_field(text: &str, field: &str) -> (r: Result<Option<String>, ()>)
    ensures
        r matches Ok(Some(v)) ==> (json_string_field(text@, field@) == Ok::<Option<Seq<char>>, ()>(Some(v@))),
        r matches Ok(None) ==> (json_string_field(text@, field@) == Ok::<Option<Seq<char>>, ()>(None)),
        r is Err ==> (json_string_field(text@, field@) == Err::<Option<Seq<char>>, ()>(())),
{
    match serde_json::from_str::<serde_json::Value>(text) {
        Ok(v) => Ok(v.get(field).and_then(|x| x.as_str()).map(String::from)),
        Err(_) => Err(()),
    }
}

/// What a vault file holds.
pub struct VaultFile {
    pub cipher_version: u32,
    pub cipher_kind: CipherKind,
    pub payload: EncryptedPayload,
}

/// Encrypts the serialized vault `contents` with `cipher` into the file that
/// is written to disk.
pub fn seal_vault_file<C: Cipher>(cipher: &mut C, cipher_version: u32, contents: &[u8]) -> (r:
    Result<VaultFile, EnvlyError>)
    ensures
        r is Ok <==> old(cipher).can_encrypt(contents@),
        r matches Ok(f) ==> {
            &&& f.cipher_version == cipher_version
            &&& f.cipher_kind == old(cipher).kind_of()
            &&& final(cipher).seals(contents@, f.payload)
        },
        r matches Err(e) ==> e is Crypto,
        final(cipher).kind_of() == old(cipher).kind_of(),
        forall|pt: Seq<u8>, p: EncryptedPayload| #[trigger]
            final(cipher).seals(pt, p) == old(cipher).seals(pt, p),
        forall|p: EncryptedPayload| #[trigger]
            final(cipher).decryption(p) == old(cipher).decryption(p),
{
    let payload = match cipher.encrypt(contents) {
        Ok(p) => p,
        Err(e) => {
            return Err(e);
        },
    };
    let kind = cipher.kind();
    Ok(VaultFile { cipher_version, cipher_kind: kind, payload })
}

/// Decrypts the serialized vault out of `file` with `cipher`. What a cipher
/// with the same key material sealed comes back unchanged.
pub fn open_vault_file<C: Cipher>(cipher: &mut C, file: &VaultFile) -> (r: Result<Vec<u8>, EnvlyError>)
    ensures
        r matches Ok(v) ==> old(cipher).decryption(file.payload) == Ok::<Seq<u8>, Seq<char>>(v@),
        r matches Err(e) ==> (e matches EnvlyError::Crypto(m) && old(cipher).decryption(file.payload)
            == Err::<Seq<u8>, Seq<char>>(m@)),
        forall|pt: Seq<u8>| #[trigger]
            old(cipher).seals(pt, file.payload) ==> (r matches Ok(v) && v@ == pt),
        final(cipher).kind_of() == old(cipher).kind_of(),
        forall|pt: Seq<u8>, p: EncryptedPayload| #[trigger]
            final(cipher).seals(pt, p) == old(cipher).seals(pt, p),
        forall|p: EncryptedPayload| #[trigger]
            final(cipher).decryption(p) == old(cipher).decryption(p),
{
    cipher.decrypt(&file.payload)
}

} // verus!
