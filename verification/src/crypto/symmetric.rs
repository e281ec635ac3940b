//! The symmetric cipher: XChaCha20-Poly1305 under a random 32-byte key.

use vstd::prelude::*;
use crate::error::EnvlyError;
use crate::crypto::{
    Cipher, CipherKind, EncryptedPayload, opening, sealed_under, open_with_key, seal_payload,
    array_32,
};
use crate::crypto::primitives::{
    base64_text, base64_decoded, base64_encode, base64_decode, sealable, fill_random,
    random_nonce,
};

verus! {

/// A cipher whose key is 32 bytes held in memory.
pub struct SymmetricCipher {
    key: [u8; 32],
}

/// The detail of the error for a decryption that the key does not open.
pub open spec fn symmetric_failure() -> Seq<char> {
    "Decryption failed: wrong key or corrupted data"@
}

impl SymmetricCipher {
    /// The key's bytes.
    pub closed spec fn key_bytes(&self) -> Seq<u8> {
        self.key@
    }

    /// A cipher with the given key.
    pub fn new(key: [u8; 32]) -> (c: Self)
        ensures
            c.key_bytes() == key@,
    {
        SymmetricCipher { key }
    }

    /// A cipher whose key is the standard base64 text `key_b64`; the text
    /// must decode to exactly 32 bytes.
    pub fn from_base64(key_b64: &str) -> (r: Result<Self, EnvlyError>)
        ensures
            match base64_decoded(key_b64@) {
                Err(m) => r matches Err(EnvlyError::Crypto(x)) && x@ == m,
                Ok(b) => if b.len() == 32 {
                    r matches Ok(c) && c.key_bytes() == b
                } else {
                    r matches Err(EnvlyError::Crypto(x)) && x@
                        == "Symmetric key must be exactly 32 bytes"@
                },
            },
            forall|k: Seq<u8>|
                k.len() == 32 && #[trigger] base64_text(k) == key_b64@ ==> (r matches Ok(c)
                    && c.key_bytes() == k),
    {
        let bytes = match base64_decode(key_b64) {
            Ok(b) => b,
            Err(m) => {
                return Err(EnvlyError::Crypto(m));
            },
        };
        if bytes.len() != 32 {
            return Err(EnvlyError::Crypto(String::from_str("Symmetric key must be exactly 32 bytes")));
        }
        let key = array_32(bytes.as_slice());
        Ok(SymmetricCipher { key })
    }

    /// A fresh random 32-byte key from the operating system.
    pub fn generate_key() -> (k: [u8; 32]) {
        let mut key = [0u8; 32];
        fill_random(&mut key);
        key
    }

    /// The key as standard base64 text.
    pub fn key_as_base64(&self) -> (s: String)
        ensures
            s@ == base64_text(self.key_bytes()),
    {
        base64_encode(self.key.as_slice())
    }
}

impl Cipher for SymmetricCipher {
    open spec fn seals(&self, plaintext: Seq<u8>, payload: EncryptedPayload) -> bool {
        sealed_under(self.key_bytes(), plaintext, payload) && payload.salt is None
    }

    open spec fn decryption(&self, payload: EncryptedPayload) -> Result<Seq<u8>, Seq<char>> {
        opening(self.key_bytes(), payload, symmetric_failure())
    }

    open spec fn can_encrypt(&self, plaintext: Seq<u8>) -> bool {
        sealable(plaintext.len())
    }

    open spec fn kind_of(&self) -> CipherKind {
        CipherKind::Symmetric
    }

    fn encrypt(&mut self, plaintext: &[u8]) -> (r: Result<EncryptedPayload, EnvlyError>)
        ensures
            final(self).key_bytes() == old(self).key_bytes(),
    {
        let nonce = random_nonce();
        seal_payload(&self.key, &nonce, None, plaintext)
    }

    fn decrypt(&mut self, payload: &EncryptedPayload) -> (r: Result<Vec<u8>, EnvlyError>)
        ensures
            final(self).key_bytes() == old(self).key_bytes(),
    {
        proof {
            reveal_strlit("Decryption failed: wrong key or corrupted data");
        }
        open_with_key(&self.key, payload, "Decryption failed: wrong key or corrupted data")
    }

    fn kind(&self) -> (k: CipherKind) {
        CipherKind::Symmetric
    }
}

} // verus!
