//! Encrypting vault contents: the kinds of cipher, the payload a cipher
//! produces, the `Cipher` interface, and the sealing and opening of a payload
//! under a 32-byte key that both ciphers share.

pub mod primitives;
pub mod symmetric;
pub mod passphrase;
pub mod keychain;

use vstd::prelude::*;
use crate::error::EnvlyError;
use crate::text::{decimal, push_decimal};
use self::passphrase::PassphraseCipher;
use self::symmetric::SymmetricCipher;
use self::primitives::{
    base64_text, base64_decoded, base64_encode, base64_decode, xchacha_sealed, xchacha_opened,
    sealable, xchacha_seal, xchacha_open,
};

verus! {

/// How a vault's key is obtained.
#[derive(Debug, Clone, Copy, PartialEq, Eq, Structural)]
pub enum CipherKind {
    /// The key is derived from a passphrase with Argon2id.
    Passphrase,
    /// The key is a random 32-byte key kept in the system keychain.
    Symmetric,
}

/// The lower-case name of a cipher kind.
pub open spec fn kind_name(k: CipherKind) -> Seq<char> {
    match k {
        CipherKind::Passphrase => "passphrase"@,
        CipherKind::Symmetric => "symmetric"@,
    }
}

impl CipherKind {
    /// The lower-case name of this kind, `passphrase` or `symmetric`.
    pub fn as_text(&self) -> (s: String)
        ensures
            s@ == kind_name(*self),
    {
        match self {
            CipherKind::Passphrase => String::from_str("passphrase"),
            CipherKind::Symmetric => String::from_str("symmetric"),
        }
    }
}

/// An encrypted blob: the base64 of the ciphertext and of the nonce, and for
/// a passphrase cipher the base64 of the salt its key was derived with.
#[derive(Debug, Clone)]
pub struct EncryptedPayload {
    pub ciphertext: String,
    pub nonce: String,
    pub salt: Option<String>,
}

/// Something that encrypts and decrypts vault contents.
///
/// A cipher has a fixed key material. `seals` says which payloads carry which
/// plaintexts under it, and `decryption` what decrypting a payload gives.
pub trait Cipher {
    /// `payload` is `plaintext` encrypted under this cipher's key material.
    spec fn seals(&self, plaintext: Seq<u8>, payload: EncryptedPayload) -> bool;

    /// What decrypting `payload` gives: the plaintext, or the detail of the
    /// crypto error.
    spec fn decryption(&self, payload: EncryptedPayload) -> Result<Seq<u8>, Seq<char>>;

    /// Whether encrypting `plaintext` now succeeds.
    spec fn can_encrypt(&self, plaintext: Seq<u8>) -> bool;

    /// The kind of this cipher.
    spec fn kind_of(&self) -> CipherKind;

    /// Encrypts `plaintext`. On success the payload carries `plaintext`
    /// under this cipher's key material, which does not change.
    fn encrypt(&mut self, plaintext: &[u8]) -> (r: Result<EncryptedPayload, EnvlyError>)
        ensures
            r is Ok <==> old(self).can_encrypt(plaintext@),
            r matches Ok(p) ==> final(self).seals(plaintext@, p),
            r matches Ok(p) ==> payload_shape(plaintext@.len(), p),
            r matches Err(e) ==> e is Crypto,
            final(self).kind_of() == old(self).kind_of(),
            forall|pt: Seq<u8>, p: EncryptedPayload| #[trigger]
                final(self).seals(pt, p) == old(self).seals(pt, p),
            forall|p: EncryptedPayload| #[trigger]
                final(self).decryption(p) == old(self).decryption(p),
            forall|pt: Seq<u8>| old(self).can_encrypt(pt) ==> #[trigger] final(self).can_encrypt(pt),
    ;

    /// Decrypts `payload`. A payload that this cipher's key material sealed
    /// gives back its plaintext.
    fn decrypt(&mut self, payload: &EncryptedPayload) -> (r: Result<Vec<u8>, EnvlyError>)
        ensures
            match r {
                Ok(v) => old(self).decryption(*payload) == Ok::<Seq<u8>, Seq<char>>(v@),
                Err(e) => e matches EnvlyError::Crypto(m) && old(self).decryption(*payload) == Err::<
                    Seq<u8>,
                    Seq<char>,
                >(m@),
            },
            forall|pt: Seq<u8>| #[trigger]
                old(self).seals(pt, *payload) ==> (r matches Ok(v) && v@ == pt),
            final(self).kind_of() == old(self).kind_of(),
            forall|pt: Seq<u8>, p: EncryptedPayload| #[trigger]
                final(self).seals(pt, p) == old(self).seals(pt, p),
            forall|p: EncryptedPayload| #[trigger]
                final(self).decryption(p) == old(self).decryption(p),
            forall|pt: Seq<u8>| old(self).can_encrypt(pt) ==> #[trigger] final(self).can_encrypt(pt),
    ;

    /// The kind of this cipher.
    fn kind(&self) -> (k: CipherKind)
        ensures
            k == self.kind_of(),
    ;
}

/// The detail of the error for a nonce that is not 24 bytes long.
pub open spec fn nonce_length_message(n: nat) -> Seq<char> {
    "Invalid nonce length: expected 24 bytes, got "@ + decimal(n)
}

/// What opening `payload` under `key` gives: the nonce and the ciphertext are
/// decoded from base64, the nonce must be 24 bytes, and the ciphertext must
/// open under the key; `failure` is the detail when it does not.
pub open spec fn opening(key: Seq<u8>, payload: EncryptedPayload, failure: Seq<char>) -> Result<
    Seq<u8>,
    Seq<char>,
> {
    match base64_decoded(payload.nonce@) {
        Err(m) => Err(m),
        Ok(n) => if n.len() != 24 {
            Err(nonce_length_message(n.len()))
        } else {
            match base64_decoded(payload.ciphertext@) {
                Err(m) => Err(m),
                Ok(c) => match xchacha_opened(key, n, c) {
                    Some(p) => Ok(p),
                    None => Err(failure),
                },
            }
        },
    }
}

/// The shape of a payload written for `plaintext_len` bytes of plaintext: the
/// base64 of a 24-byte nonce, and the base64 of a ciphertext 16 bytes (the
/// authentication tag) longer than the plaintext.
pub open spec fn payload_shape(plaintext_len: nat, payload: EncryptedPayload) -> bool {
    exists|n: Seq<u8>, c: Seq<u8>|
        #![trigger base64_text(n), base64_text(c)]
        {
            &&& n.len() == 24
            &&& c.len() == plaintext_len + 16
            &&& payload.nonce@ == base64_text(n)
            &&& payload.ciphertext@ == base64_text(c)
        }
}

/// `payload` carries `plaintext` encrypted under `key` with some 24-byte nonce.
pub open spec fn sealed_under(key: Seq<u8>, plaintext: Seq<u8>, payload: EncryptedPayload) -> bool {
    &&& sealable(plaintext.len())
    &&& exists|n: Seq<u8>|
        #![trigger base64_text(n)]
        n.len() == 24 && base64_text(n) == payload.nonce@ && payload.ciphertext@ == base64_text(
            xchacha_sealed(key, n, plaintext),
        )
}

/// The 24 bytes of `v` as an array.
pub(crate) fn array_24(v: &[u8]) -> (a: [u8; 24])
    requires
        v@.len() == 24,
    ensures
        a@ == v@,
{
    let mut a = [0u8; 24];
    let mut i: usize = 0;
    while i < 24
        invariant
            v@.len() == 24,
            i <= 24,
            forall|j: int| 0 <= j < i ==> a@[j] == v@[j],
        decreases 24 - i,
    {
        a[i] = v[i];
        i = i + 1;
    }
    assert(a@ =~= v@);
    a
}

/// The 16 bytes of `v` as an array.
pub(crate) fn array_16(v: &[u8]) -> (a: [u8; 16])
    requires
        v@.len() == 16,
    ensures
        a@ == v@,
{
    let mut a = [0u8; 16];
    let mut i: usize = 0;
    while i < 16
        invariant
            v@.len() == 16,
            i <= 16,
            forall|j: int| 0 <= j < i ==> a@[j] == v@[j],
        decreases 16 - i,
    {
        a[i] = v[i];
        i = i + 1;
    }
    assert(a@ =~= v@);
    a
}

/// The 32 bytes of `v` as an array.
pub(crate) fn array_32(v: &[u8]) -> (a: [u8; 32])
    requires
        v@.len() == 32,
    ensures
        a@ == v@,
{
    let mut a = [0u8; 32];
    let mut i: usize = 0;
    while i < 32
        invariant
            v@.len() == 32,
            i <= 32,
            forall|j: int| 0 <= j < i ==> a@[j] == v@[j],
        decreases 32 - i,
    {
        a[i] = v[i];
        i = i + 1;
    }
    assert(a@ =~= v@);
    a
}

/// Opens `payload` under `key`; `failure` is the detail of the error when the
/// key does not open it. A payload sealed under `key` opens to its plaintext.
pub fn open_with_key(key: &[u8; 32], payload: &EncryptedPayload, failure: &str) -> (r: Result<
    Vec<u8>,
    EnvlyError,
>)
    ensures
        match r {
            Ok(v) => opening(key@, *payload, failure@) == Ok::<Seq<u8>, Seq<char>>(v@),
            Err(e) => e matches EnvlyError::Crypto(m) && opening(key@, *payload, failure@) == Err::<
                Seq<u8>,
                Seq<char>,
            >(m@),
        },
        forall|pt: Seq<u8>| #[trigger] sealed_under(key@, pt, *payload) ==> (r matches Ok(v) && v@
            == pt),
{
    let nonce_bytes = match base64_decode(payload.nonce.as_str()) {
        Ok(v) => v,
        Err(m) => {
            return Err(EnvlyError::Crypto(m));
        },
    };
    if nonce_bytes.len() != 24 {
        let mut m = String::from_str("Invalid nonce length: expected 24 bytes, got ");
        push_decimal(&mut m, nonce_bytes.len());
        proof {
            assert forall|pt: Seq<u8>| !sealed_under(key@, pt, *payload) by {
                if sealed_under(key@, pt, *payload) {
                    let n = choose|n: Seq<u8>|
                        n.len() == 24 && base64_text(n) == payload.nonce@ && payload.ciphertext@
                            == base64_text(xchacha_sealed(key@, n, pt));
                    assert(base64_text(n) == payload.nonce@);
                }
            }
        }
        return Err(EnvlyError::Crypto(m));
    }
    let nonce = array_24(nonce_bytes.as_slice());
    let ciphertext = match base64_decode(payload.ciphertext.as_str()) {
        Ok(v) => v,
        Err(m) => {
            proof {
                assert forall|pt: Seq<u8>| !sealed_under(key@, pt, *payload) by {
                    if sealed_under(key@, pt, *payload) {
                        let n = choose|n: Seq<u8>|
                            n.len() == 24 && base64_text(n) == payload.nonce@ && payload.ciphertext@
                                == base64_text(xchacha_sealed(key@, n, pt));
                        assert(base64_text(xchacha_sealed(key@, n, pt)) == payload.ciphertext@);
                    }
                }
            }
            return Err(EnvlyError::Crypto(m));
        },
    };
    match xchacha_open(key, &nonce, ciphertext.as_slice()) {
        Some(v) => {
            proof {
                assert forall|pt: Seq<u8>| #[trigger] sealed_under(key@, pt, *payload) implies v@
                    == pt by {
                    let n = choose|n: Seq<u8>|
                        n.len() == 24 && base64_text(n) == payload.nonce@ && payload.ciphertext@
                            == base64_text(xchacha_sealed(key@, n, pt));
                    assert(base64_text(n) == payload.nonce@);
                    assert(base64_text(xchacha_sealed(key@, n, pt)) == payload.ciphertext@);
                    assert(xchacha_sealed(key@, nonce@, pt) == ciphertext@);
                }
            }
            Ok(v)
        },
        None => {
            proof {
                assert forall|pt: Seq<u8>| !sealed_under(key@, pt, *payload) by {
                    if sealed_under(key@, pt, *payload) {
                        let n = choose|n: Seq<u8>|
                            n.len() == 24 && base64_text(n) == payload.nonce@ && payload.ciphertext@
                                == base64_text(xchacha_sealed(key@, n, pt));
                        assert(base64_text(n) == payload.nonce@);
                        assert(base64_text(xchacha_sealed(key@, n, pt)) == payload.ciphertext@);
                        assert(xchacha_sealed(key@, nonce@, pt) == ciphertext@);
                    }
                }
            }
            Err(EnvlyError::Crypto(String::from_str(failure)))
        },
    }
}

/// Encrypts `plaintext` under `key` with `nonce` into a payload that also
/// carries `salt`, base64-encoded, when there is one.
pub fn seal_payload(key: &[u8; 32], nonce: &[u8; 24], salt: Option<&[u8; 16]>, plaintext: &[u8]) -> (r:
    Result<EncryptedPayload, EnvlyError>)
    ensures
        r is Ok <==> sealable(plaintext@.len()),
        r matches Ok(p) ==> {
            &&& p.nonce@ == base64_text(nonce@)
            &&& p.ciphertext@ == base64_text(xchacha_sealed(key@, nonce@, plaintext@))
            &&& match salt {
                Some(s) => p.salt matches Some(t) && t@ == base64_text(s@),
                None => p.salt is None,
            }
            &&& sealed_under(key@, plaintext@, p)
            &&& payload_shape(plaintext@.len(), p)
        },
        r matches Err(e) ==> e matches EnvlyError::Crypto(m) && m@ == "aead::Error"@,
{
    let ciphertext = match xchacha_seal(key, nonce, plaintext) {
        Ok(c) => c,
        Err(m) => {
            return Err(EnvlyError::Crypto(m));
        },
    };
    let salt_text = match salt {
        Some(s) => Some(base64_encode(s.as_slice())),
        None => None,
    };
    let p = EncryptedPayload {
        ciphertext: base64_encode(ciphertext.as_slice()),
        nonce: base64_encode(nonce.as_slice()),
        salt: salt_text,
    };
    proof {
        assert(base64_text(nonce@) == p.nonce@);
        assert(base64_text(ciphertext@) == p.ciphertext@);
    }
    Ok(p)
}

/// The cipher of an open vault: one of the two kinds.
pub enum VaultCipher {
    Passphrase(PassphraseCipher),
    Symmetric(SymmetricCipher),
}

impl Cipher for VaultCipher {
    open spec fn seals(&self, plaintext: Seq<u8>, payload: EncryptedPayload) -> bool {
        match self {
            VaultCipher::Passphrase(c) => c.seals(plaintext, payload),
            VaultCipher::Symmetric(c) => c.seals(plaintext, payload),
        }
    }

    open spec fn decryption(&self, payload: EncryptedPayload) -> Result<Seq<u8>, Seq<char>> {
        match self {
            VaultCipher::Passphrase(c) => c.decryption(payload),
            VaultCipher::Symmetric(c) => c.decryption(payload),
        }
    }

    open spec fn can_encrypt(&self, plaintext: Seq<u8>) -> bool {
        match self {
            VaultCipher::Passphrase(c) => c.can_encrypt(plaintext),
            VaultCipher::Symmetric(c) => c.can_encrypt(plaintext),
        }
    }

    open spec fn kind_of(&self) -> CipherKind {
        match self {
            VaultCipher::Passphrase(c) => CipherKind::Passphrase,
            VaultCipher::Symmetric(c) => CipherKind::Symmetric,
        }
    }

    fn encrypt(&mut self, plaintext: &[u8]) -> (r: Result<EncryptedPayload, EnvlyError>) {
        match self {
            VaultCipher::Passphrase(c) => c.encrypt(plaintext),
            VaultCipher::Symmetric(c) => c.encrypt(plaintext),
        }
    }

    fn decrypt(&mut self, payload: &EncryptedPayload) -> (r: Result<Vec<u8>, EnvlyError>) {
        match self {
            VaultCipher::Passphrase(c) => c.decrypt(payload),
            VaultCipher::Symmetric(c) => c.decrypt(payload),
        }
    }

    fn kind(&self) -> (k: CipherKind) {
        match self {
            VaultCipher::Passphrase(c) => CipherKind::Passphrase,
            VaultCipher::Symmetric(c) => CipherKind::Symmetric,
        }
    }
}

} // verus!
