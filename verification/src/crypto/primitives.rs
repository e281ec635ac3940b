//! The cryptographic building blocks that come from outside crates: standard
//! base64, XChaCha20-Poly1305, Argon2id and the operating system's random
//! source. Each is reached through one small function whose contract states
//! what the crate's source and documentation show of it.

use vstd::prelude::*;
use argon2::{Algorithm, Argon2, Params, Version};
use base64::engine::general_purpose::STANDARD;
use base64::Engine;
use chacha20poly1305::aead::rand_core::RngCore;
use chacha20poly1305::aead::{Aead, AeadCore, KeyInit, OsRng};
use chacha20poly1305::{Key, XChaCha20Poly1305, XNonce};

verus! {

/// The base64 digit for the six-bit value `v`, in the standard alphabet
/// `A-Z`, `a-z`, `0-9`, `+`, `/`.
pub open spec fn base64_digit(v: int) -> char {
    if v < 26 {
        (65 + v) as char
    } else if v < 52 {
        (97 + v - 26) as char
    } else if v < 62 {
        (48 + v - 52) as char
    } else if v == 62 {
        '+'
    } else {
        '/'
    }
}

/// Standard base64 with `=` padding: each group of three bytes becomes four
/// digits, and a last group of one or two bytes is padded to four characters.
pub open spec fn base64_text(b: Seq<u8>) -> Seq<char>
    decreases b.len(),
{
    if b.len() == 0 {
        Seq::empty()
    } else {
        let x = b[0] as int;
        let y = if b.len() >= 2 { b[1] as int } else { 0 };
        let z = if b.len() >= 3 { b[2] as int } else { 0 };
        let first = seq![base64_digit(x / 4), base64_digit((x % 4) * 16 + y / 16)];
        if b.len() == 1 {
            first + seq!['=', '=']
        } else if b.len() == 2 {
            first + seq![base64_digit((y % 16) * 4), '=']
        } else {
            first + seq![base64_digit((y % 16) * 4 + z / 64), base64_digit(z % 64)] + base64_text(
                b.skip(3),
            )
        }
    }
}

/// Encodes `bytes` by `base64::engine::general_purpose::STANDARD.encode`:
/// the standard alphabet with padding, as `base64_text` writes it out.
#[verifier::external_body]
pub(crate) fn base64_encode(bytes: &[u8]) -> (s: String)
    ensures
        s@ == base64_text(bytes@),
{
    STANDARD.encode(bytes)
}

/// What `STANDARD.decode` makes of a text: the bytes, or the text of its
/// `DecodeError`. A function of the text alone.
pub uninterp spec fn base64_decoded(text: Seq<char>) -> Result<Seq<u8>, Seq<char>>;

/// Decodes `text` by `base64::engine::general_purpose::STANDARD.decode`,
/// turning its error into the error's text. Claimed: the outcome is
/// `base64_decoded(text)`, and decoding the standard encoding of some bytes
/// gives those bytes back.
#[verifier::external_body]
pub(crate) fn base64_decode(text: &str) -> (r: Result<Vec<u8>, String>)
    ensures
        r matches Ok(v) ==> (base64_decoded(text@) == Ok::<Seq<u8>, Seq<char>>(v@)),
        r matches Err(m) ==> (base64_decoded(text@) == Err::<Seq<u8>, Seq<char>>(m@)),
        r matches Ok(v) ==> forall|b: Seq<u8>| #[trigger] base64_text(b) == text@ ==> v@ == b,
        r is Err ==> forall|b: Seq<u8>| #[trigger] base64_text(b) != text@,
{
    match STANDARD.decode(text) {
        Ok(v) => Ok(v),
        Err(e) => Err(e.to_string()),
    }
}

/// The XChaCha20-Poly1305 encryption of `plaintext` under `key` and `nonce`,
/// with no associated data: the ciphertext followed by the tag. A function of
/// its three arguments alone.
pub uninterp spec fn xchacha_sealed(key: Seq<u8>, nonce: Seq<u8>, plaintext: Seq<u8>) -> Seq<u8>;

/// What XChaCha20-Poly1305 decryption under `key` and `nonce` makes of
/// `ciphertext`: the plaintext, or nothing when the tag does not check.
pub uninterp spec fn xchacha_opened(key: Seq<u8>, nonce: Seq<u8>, ciphertext: Seq<u8>) -> Option<
    Seq<u8>,
>;

/// A plaintext of `len` bytes is within the cipher's limit of fewer than
/// 2^32 - 1 blocks of 64 bytes.
pub open spec fn sealable(len: nat) -> bool {
    len / 64 < 0xFFFF_FFFF
}

/// Encrypts `plaintext` by `XChaCha20Poly1305::new(key).encrypt(nonce, plaintext)`.
/// Claimed, as `chacha20poly1305` 0.10 and `aead` 0.5 show it: it fails, with the
/// text `aead::Error`, exactly when the plaintext is over the block limit, and
/// otherwise gives `xchacha_sealed(key, nonce, plaintext)`: the ciphertext, as
/// long as the plaintext, followed by the 16-byte Poly1305 tag.
#[verifier::external_body]
pub(crate) fn xchacha_seal(key: &[u8; 32], nonce: &[u8; 24], plaintext: &[u8]) -> (r: Result<
    Vec<u8>,
    String,
>)
    ensures
        r is Ok <==> sealable(plaintext@.len()),
        r matches Ok(c) ==> c@ == xchacha_sealed(key@, nonce@, plaintext@),
        r matches Ok(c) ==> c@.len() == plaintext@.len() + 16,
        r matches Err(m) ==> m@ == "aead::Error"@,
{
    let cipher = XChaCha20Poly1305::new(Key::from_slice(key));
    match cipher.encrypt(XNonce::from_slice(nonce), plaintext) {
        Ok(c) => Ok(c),
        Err(e) => Err(e.to_string()),
    }
}

/// Decrypts `ciphertext` by `XChaCha20Poly1305::new(key).decrypt(nonce, ciphertext)`.
/// Claimed: the outcome is `xchacha_opened(key, nonce, ciphertext)`, and what
/// was sealed under the same key and nonce opens to its plaintext (the
/// authenticated-encryption guarantee that the crate documents).
#[verifier::external_body]
pub(crate) fn xchacha_open(key: &[u8; 32], nonce: &[u8; 24], ciphertext: &[u8]) -> (r: Option<
    Vec<u8>,
>)
    ensures
        r matches Some(v) ==> xchacha_opened(key@, nonce@, ciphertext@) == Some(v@),
        r is None ==> xchacha_opened(key@, nonce@, ciphertext@) is None,
        r matches Some(v) ==> forall|pt: Seq<u8>|
            sealable(pt.len()) && #[trigger] xchacha_sealed(key@, nonce@, pt) == ciphertext@ ==> v@
                == pt,
        r is None ==> forall|pt: Seq<u8>|
            sealable(pt.len()) ==> #[trigger] xchacha_sealed(key@, nonce@, pt) != ciphertext@,
{
    let cipher = XChaCha20Poly1305::new(Key::from_slice(key));
    match cipher.decrypt(XNonce::from_slice(nonce), ciphertext) {
        Ok(v) => Some(v),
        Err(_) => None,
    }
}

/// Parameters that `argon2::Params::new` accepts for a 32-byte output:
/// at least 8 KiB and 8 KiB per lane of memory, at least one pass, and
/// between 1 and 2^24 - 1 lanes.
pub open spec fn argon2_params_valid(m_cost: u32, t_cost: u32, p_cost: u32) -> bool {
    &&& 8 <= m_cost
    &&& p_cost * 8 <= m_cost
    &&& 1 <= t_cost
    &&& 1 <= p_cost <= 0xFF_FFFF
}

/// A password and salt that `Argon2::hash_password_into` accepts: a password
/// of at most 2^32 - 1 bytes and a salt of 8 to 2^32 - 1 bytes.
pub open spec fn argon2_inputs_valid(password_len: nat, salt_len: nat) -> bool {
    password_len <= 0xFFFF_FFFF && 8 <= salt_len <= 0xFFFF_FFFF
}

/// What Argon2id (version 0x13) with the given costs and a 32-byte output
/// makes of `password` and `salt`: the key, or the text of the error.
/// A function of its arguments alone.
pub uninterp spec fn argon2id_derived(
    m_cost: u32,
    t_cost: u32,
    p_cost: u32,
    password: Seq<u8>,
    salt: Seq<u8>,
) -> Result<Seq<u8>, Seq<char>>;

/// Derives a 32-byte key by `argon2::Params::new(m_cost, t_cost, p_cost, Some(32))`
/// and `Argon2::new(Argon2id, V0x13, params).hash_password_into(password, salt, ..)`.
/// Claimed, as `argon2` 0.5 shows it: it succeeds exactly when the parameters
/// and inputs are in the ranges above, and its outcome is `argon2id_derived`
/// of its arguments. `Params::new` computes `p_cost * 8` in `u32` before it
/// checks the lane count, so a lane count above the maximum is not admitted.
#[verifier::external_body]
pub(crate) fn argon2id_derive(m_cost: u32, t_cost: u32, p_cost: u32, password: &[u8], salt: &[u8]) -> (r: Result<Vec<u8>, String>)
    requires
        p_cost <= 0xFF_FFFF,
    ensures
        r matches Ok(k) ==> k@.len() == 32,
        r is Ok <==> (argon2_params_valid(m_cost, t_cost, p_cost) && argon2_inputs_valid(password@.len(), salt@.len())),
        r matches Ok(k) ==> (argon2id_derived(m_cost, t_cost, p_cost, password@, salt@) == Ok::<Seq<u8>, Seq<char>>(k@)),
        r matches Err(m) ==> (argon2id_derived(m_cost, t_cost, p_cost, password@, salt@) == Err::<Seq<u8>, Seq<char>>(m@)),
{
    let mut out = [0u8; 32];
    let params = match Params::new(m_cost, t_cost, p_cost, Some(out.len())) {
        Ok(p) => p,
        Err(e) => return Err(e.to_string()),
    };
    match Argon2::new(Algorithm::Argon2id, Version::V0x13, params).hash_password_into(
        password,
        salt,
        &mut out,
    ) {
        Ok(()) => Ok(out.to_vec()),
        Err(e) => Err(e.to_string()),
    }
}

/// Fills `buf` from the operating system's random source (`OsRng::fill_bytes`).
/// Nothing is claimed of the bytes: they are random.
#[verifier::external_body]
pub(crate) fn fill_random(buf: &mut [u8])
    ensures
        final(buf)@.len() == old(buf)@.len(),
{
    OsRng.fill_bytes(buf)
}

/// A fresh nonce from `XChaCha20Poly1305::generate_nonce(&mut OsRng)`.
/// Nothing is claimed of it: it is random.
#[verifier::external_body]
pub(crate) fn random_nonce() -> [u8; 24] {
    let nonce = XChaCha20Poly1305::generate_nonce(&mut OsRng);
    let mut out = [0u8; 24];
    out.copy_from_slice(nonce.as_slice());
    out
}

} // verus!
