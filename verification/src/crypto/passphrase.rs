//! The passphrase cipher: a key derived from a passphrase and a random salt
//! with Argon2id, then XChaCha20-Poly1305 under that key. The last key and
//! salt are kept so that later encryptions skip the costly derivation.

use vstd::prelude::*;
use crate::error::EnvlyError;
use crate::crypto::{
    Cipher, CipherKind, EncryptedPayload, opening, sealed_under, open_with_key, seal_payload,
    array_16, array_32,
};
use crate::crypto::primitives::{
    base64_text, base64_decoded, base64_decode, sealable, argon2id_derived, argon2id_derive,
    argon2_params_valid, argon2_inputs_valid, fill_random, random_nonce,
};

verus! {

/// Argon2id memory cost, in KiB (64 MiB).
pub const ARGON2_MEMORY: u32 = 65536;

/// Argon2id number of passes.
pub const ARGON2_ITERATIONS: u32 = 3;

/// Argon2id number of lanes.
pub const ARGON2_PARALLELISM: u32 = 4;

/// What this library's Argon2id settings derive from `password` and `salt`.
pub open spec fn derived_key(password: Seq<u8>, salt: Seq<u8>) -> Result<Seq<u8>, Seq<char>> {
    argon2id_derived(ARGON2_MEMORY, ARGON2_ITERATIONS, ARGON2_PARALLELISM, password, salt)
}

/// The detail of the error for a decryption that the passphrase does not open.
pub open spec fn passphrase_failure() -> Seq<char> {
    "Decryption failed: wrong passphrase or corrupted data"@
}

/// A derived key and the salt it was derived with.
struct KeyCache {
    key: [u8; 32],
    salt: [u8; 16],
}

/// A cipher keyed by a passphrase.
pub struct PassphraseCipher {
    passphrase: String,
    cache: Option<KeyCache>,
}

/// What decrypting `payload` with passphrase bytes `password` gives: the salt
/// must be present, decode, and be 16 bytes; the key is derived from it, and
/// the payload must open under that key.
pub open spec fn passphrase_decryption(password: Seq<u8>, payload: EncryptedPayload) -> Result<
    Seq<u8>,
    Seq<char>,
> {
    match payload.salt {
        None => Err("Missing salt in passphrase-encrypted payload"@),
        Some(t) => match base64_decoded(t@) {
            Err(m) => Err(m),
            Ok(salt) => if salt.len() != 16 {
                Err("Invalid salt length: expected 16 bytes"@)
            } else {
                match derived_key(password, salt) {
                    Err(m) => Err(m),
                    Ok(key) => opening(key, payload, passphrase_failure()),
                }
            },
        },
    }
}

/// `payload` carries `plaintext` under a key derived from `password` and a
/// 16-byte salt that the payload names.
pub open spec fn passphrase_sealed(password: Seq<u8>, plaintext: Seq<u8>, payload: EncryptedPayload) -> bool {
    exists|salt: Seq<u8>|
        #![trigger base64_text(salt)]
        {
            &&& salt.len() == 16
            &&& payload.salt matches Some(t) && t@ == base64_text(salt)
            &&& derived_key(password, salt) is Ok
            &&& sealed_under(derived_key(password, salt)->Ok_0, plaintext, payload)
        }
}

impl PassphraseCipher {
    /// The passphrase.
    pub closed spec fn passphrase_text(&self) -> Seq<char> {
        self.passphrase@
    }

    /// The passphrase's UTF-8 bytes, from which keys are derived.
    pub open spec fn password(&self) -> Seq<u8> {
        vstd::utf8::encode_utf8(self.passphrase_text())
    }

    /// The key and salt kept from the last derivation, if any.
    pub closed spec fn cached(&self) -> Option<(Seq<u8>, Seq<u8>)> {
        match self.cache {
            Some(c) => Some((c.key@, c.salt@)),
            None => None,
        }
    }

    /// A kept key is the one derived from the passphrase and the kept salt.
    #[verifier::type_invariant]
    closed spec fn cache_matches(&self) -> bool {
        match self.cache {
            Some(c) => derived_key(vstd::utf8::encode_utf8(self.passphrase@), c.salt@) == Ok::<
                Seq<u8>,
                Seq<char>,
            >(c.key@),
            None => true,
        }
    }

    /// A cipher for `passphrase` that has derived no key yet.
    pub fn new(passphrase: String) -> (c: Self)
        ensures
            c.passphrase_text() == passphrase@,
            c.cached() is None,
    {
        PassphraseCipher { passphrase, cache: None }
    }

    /// Whether a derived key is kept.
    pub fn has_cached_key(&self) -> (b: bool)
        ensures
            b == self.cached() is Some,
    {
        self.cache.is_some()
    }

    /// Derives the key for `salt` from the passphrase.
    fn derive_key(&self, salt: &[u8]) -> (r: Result<[u8; 32], EnvlyError>)
        ensures
            match derived_key(self.password(), salt@) {
                Ok(k) => r matches Ok(x) && x@ == k,
                Err(m) => r matches Err(EnvlyError::Crypto(x)) && x@ == m,
            },
            r is Ok <==> argon2_inputs_valid(self.password().len(), salt@.len()),
    {
        assert(argon2_params_valid(ARGON2_MEMORY, ARGON2_ITERATIONS, ARGON2_PARALLELISM));
        match argon2id_derive(
            ARGON2_MEMORY,
            ARGON2_ITERATIONS,
            ARGON2_PARALLELISM,
            self.passphrase.as_str().as_bytes(),
            salt,
        ) {
            Ok(k) => Ok(array_32(k.as_slice())),
            Err(m) => Err(EnvlyError::Crypto(m)),
        }
    }
}

impl Cipher for PassphraseCipher {
    open spec fn seals(&self, plaintext: Seq<u8>, payload: EncryptedPayload) -> bool {
        passphrase_sealed(self.password(), plaintext, payload)
    }

    open spec fn decryption(&self, payload: EncryptedPayload) -> Result<Seq<u8>, Seq<char>> {
        passphrase_decryption(self.password(), payload)
    }

    open spec fn can_encrypt(&self, plaintext: Seq<u8>) -> bool {
        &&& self.cached() is Some || argon2_inputs_valid(self.password().len(), 16)
        &&& sealable(plaintext.len())
    }

    open spec fn kind_of(&self) -> CipherKind {
        CipherKind::Passphrase
    }

    fn encrypt(&mut self, plaintext: &[u8]) -> (r: Result<EncryptedPayload, EnvlyError>)
        ensures
            final(self).passphrase_text() == old(self).passphrase_text(),
            old(self).cached() is Some ==> final(self).cached() == old(self).cached(),
            r is Ok ==> final(self).cached() is Some,
            r matches Ok(p) ==> (final(self).cached() is Some && final(self).cached()->Some_0.1.len()
                == 16 && p.salt is Some && p.salt->Some_0@ == base64_text(
                final(self).cached()->Some_0.1,
            )),
    {
        proof {
            use_type_invariant(&*self);
        }
        let (key, salt) = match &self.cache {
            Some(c) => (c.key, c.salt),
            None => {
                let mut salt = [0u8; 16];
                fill_random(&mut salt);
                let key = match self.derive_key(salt.as_slice()) {
                    Ok(k) => k,
                    Err(e) => {
                        return Err(e);
                    },
                };
                self.cache = Some(KeyCache { key, salt });
                (key, salt)
            },
        };
        let nonce = random_nonce();
        let r = seal_payload(&key, &nonce, Some(&salt), plaintext);
        proof {
            if r is Ok {
                let p = r->Ok_0;
                assert(base64_text(salt@) == p.salt->Some_0@);
                assert(passphrase_sealed(self.password(), plaintext@, p));
            }
        }
        r
    }

    fn decrypt(&mut self, payload: &EncryptedPayload) -> (r: Result<Vec<u8>, EnvlyError>)
        ensures
            final(self).passphrase_text() == old(self).passphrase_text(),
            r is Err ==> final(self).cached() == old(self).cached(),
            r is Ok ==> (final(self).cached() matches Some(c) && payload.salt matches Some(t)
                && base64_decoded(t@) == Ok::<Seq<u8>, Seq<char>>(c.1)),
    {
        proof {
            reveal_strlit("Missing salt in passphrase-encrypted payload");
            reveal_strlit("Decryption failed: wrong passphrase or corrupted data");
            reveal_strlit("Invalid salt length: expected 16 bytes");
        }
        let salt_text = match &payload.salt {
            Some(t) => t,
            None => {
                return Err(
                    EnvlyError::Crypto(String::from_str("Missing salt in passphrase-encrypted payload")),
                );
            },
        };
        let salt = match base64_decode(salt_text.as_str()) {
            Ok(s) => s,
            Err(m) => {
                return Err(EnvlyError::Crypto(m));
            },
        };
        let ghost password = self.password();
        if salt.len() != 16 {
            proof {
                assert forall|pt: Seq<u8>| !passphrase_sealed(password, pt, *payload) by {
                    if passphrase_sealed(password, pt, *payload) {
                        let s = choose|s: Seq<u8>|
                            {
                                &&& s.len() == 16
                                &&& payload.salt matches Some(t) && t@ == base64_text(s)
                                &&& derived_key(password, s) is Ok
                                &&& sealed_under(derived_key(password, s)->Ok_0, pt, *payload)
                            };
                        assert(base64_text(s) == salt_text@);
                    }
                }
            }
            return Err(EnvlyError::Crypto(String::from_str("Invalid salt length: expected 16 bytes")));
        }
        let key = match self.derive_key(salt.as_slice()) {
            Ok(k) => k,
            Err(e) => {
                return Err(e);
            },
        };
        let plaintext = open_with_key(
            &key,
            payload,
            "Decryption failed: wrong passphrase or corrupted data",
        );
        proof {
            assert forall|pt: Seq<u8>| #[trigger]
                passphrase_sealed(password, pt, *payload) implies sealed_under(
                key@,
                pt,
                *payload,
            ) by {
                let s = choose|s: Seq<u8>|
                    {
                        &&& s.len() == 16
                        &&& payload.salt matches Some(t) && t@ == base64_text(s)
                        &&& derived_key(password, s) is Ok
                        &&& sealed_under(derived_key(password, s)->Ok_0, pt, *payload)
                    };
                assert(base64_text(s) == salt_text@);
            }
        }
        let plaintext = match plaintext {
            Ok(v) => v,
            Err(e) => {
                return Err(e);
            },
        };
        let salt_arr = array_16(salt.as_slice());
        self.cache = Some(KeyCache { key, salt: salt_arr });
        Ok(plaintext)
    }

    fn kind(&self) -> (k: CipherKind) {
        CipherKind::Passphrase
    }
}

} // verus!
