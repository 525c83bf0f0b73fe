//! The two outside ciphers: the SKIP32 block cipher that hides frame headers,
//! and the ChaCha20-Poly1305 AEAD that seals frame bodies.
use orion::hazardous::aead::chacha20poly1305 as aead;
use vstd::prelude::*;

verus! {

/// What SKIP32 encoding under a 10-byte key gives for a 32-bit word.
pub uninterp spec fn skip32_enc(key: Seq<u8>, x: u32) -> u32;

/// What SKIP32 decoding under a 10-byte key gives for a 32-bit word.
pub uninterp spec fn skip32_dec(key: Seq<u8>, x: u32) -> u32;

/// What ChaCha20-Poly1305 sealing gives (ciphertext followed by the
/// 16-byte tag, no associated data) for a 32-byte key and a 12-byte nonce.
pub uninterp spec fn aead_seal(key: Seq<u8>, nonce: Seq<u8>, plain: Seq<u8>) -> Seq<u8>;

/// Relies on `skip32::encode`; `skip32::decode` under the same key inverts it
/// (both run the same Feistel rounds, decode with the round keys reversed).
#[verifier::external_body]
pub fn skip32_encode(key: &[u8; 10], x: u32) -> (r: u32)
    ensures
        r == skip32_enc(key@, x),
        skip32_dec(key@, r) == x,
{
    skip32::encode(key, x)
}

/// Relies on `skip32::decode`.
#[verifier::external_body]
pub fn skip32_decode(key: &[u8; 10], x: u32) -> (r: u32)
    ensures
        r == skip32_dec(key@, x),
{
    skip32::decode(key, x)
}

/// Relies on `orion::hazardous::aead::chacha20poly1305::seal`. With a 32-byte
/// key, a 12-byte nonce, a plaintext far below the cipher's limit and an
/// output of exactly `plain.len() + 16` bytes, none of its checks fails, and
/// it fills the output with the ciphertext and tag. The ciphertext is the
/// plaintext xored with a keystream fixed by key and nonce, so equal sealed
/// outputs come from equal plaintexts.
#[verifier::external_body]
pub fn aead_seal_into(key: &[u8], nonce: &[u8], plain: &[u8], out: &mut [u8])
    requires
        key@.len() == 32,
        nonce@.len() == 12,
        plain@.len() < 0x1000000,
        old(out)@.len() == plain@.len() + 16,
    ensures
        final(out)@.len() == old(out)@.len(),
        final(out)@ == aead_seal(key@, nonce@, plain@),
        forall|p: Seq<u8>| aead_seal(key@, nonce@, p) == final(out)@ ==> p == plain@,
{
    let k = aead::SecretKey::from_slice(key).unwrap();
    let n = aead::Nonce::from_slice(nonce).unwrap();
    aead::seal(&k, &n, plain, None, out).unwrap()
}

/// Relies on `orion::hazardous::aead::chacha20poly1305::open`: it succeeds
/// exactly when the tag matches, which is when the input is the seal of some
/// plaintext under this key and nonce, and then writes that plaintext.
#[verifier::external_body]
pub fn aead_open_into(key: &[u8], nonce: &[u8], sealed: &[u8], out: &mut [u8]) -> (r: bool)
    requires
        key@.len() == 32,
        nonce@.len() == 12,
        sealed@.len() >= 16,
        old(out)@.len() == sealed@.len() - 16,
    ensures
        final(out)@.len() == old(out)@.len(),
        r ==> aead_seal(key@, nonce@, final(out)@) == sealed@,
        forall|p: Seq<u8>| aead_seal(key@, nonce@, p) == sealed@ ==> r && final(out)@ == p,
{
    let k = aead::SecretKey::from_slice(key).unwrap();
    let n = aead::Nonce::from_slice(nonce).unwrap();
    aead::open(&k, &n, sealed, None, out).is_ok()
}

} // verus!
