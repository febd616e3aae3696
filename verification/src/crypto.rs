//! Cryptographic primitives of the Noise engine.
//!
//! The outside primitives (BLAKE2s, X25519, ChaCha20-Poly1305, base58) are
//! reached through trusted wrappers whose results are named by
//! uninterpreted spec functions; everything built on top of them (HMAC,
//! HKDF, the Noise key schedule) is verified against those names.

use vstd::prelude::*;
use crate::bytes::concat_bytes;
use blake2::Digest;
use chacha20poly1305::{ChaCha20Poly1305, KeyInit, Nonce};
use chacha20poly1305::aead::{Aead, Payload};
use base58::ToBase58;

verus! {

/// Byte-length cap that keeps every AEAD call well inside the
/// ChaCha20-Poly1305 message-size limit, so encryption cannot fail.
pub const MAX_AEAD_LEN: usize = 0xffff_ffff;

/// The 32-byte BLAKE2s-256 digest of a byte string.
pub uninterp spec fn blake2s_of(data: Seq<u8>) -> Seq<u8>;

/// The 32-byte X25519 scalar multiplication of a scalar and a point.
pub uninterp spec fn x25519_of(k: Seq<u8>, u: Seq<u8>) -> Seq<u8>;

/// The ChaCha20-Poly1305 ciphertext-and-tag for a key, nonce, associated
/// data and plaintext.
pub uninterp spec fn seal_of(k: Seq<u8>, nonce: Seq<u8>, ad: Seq<u8>, pt: Seq<u8>) -> Seq<u8>;

/// The ChaCha20-Poly1305 decryption outcome for a key, nonce, associated
/// data and ciphertext-and-tag: the plaintext, or `None` on tag mismatch.
pub uninterp spec fn open_of(k: Seq<u8>, nonce: Seq<u8>, ad: Seq<u8>, ct: Seq<u8>) -> Option<
    Seq<u8>,
>;

/// The base58 rendering of a byte string, as ASCII bytes.
pub uninterp spec fn base58_of(data: Seq<u8>) -> Seq<u8>;

/// The X25519 base point: 9 followed by 31 zero bytes.
pub open spec fn base_point() -> Seq<u8> {
    seq![9u8] + Seq::new(31, |i: int| 0u8)
}

/// The Curve25519 public key derived from a 32-byte private key.
pub open spec fn pubkey_of(k: Seq<u8>) -> Seq<u8> {
    x25519_of(k, base_point())
}

/// The Diffie-Hellman agreement property of X25519: both parties of an
/// exchange compute the same shared secret from their own private key and
/// the peer's public key.
pub open spec fn dh_agreement() -> bool {
    forall|a: Seq<u8>, b: Seq<u8>|
        #[trigger] x25519_of(a, x25519_of(b, base_point())) == x25519_of(
            b,
            x25519_of(a, base_point()),
        )
}

/// The agreement property, stated of a secret that an X25519 call handed
/// back: it holds of every result alike.
pub open spec fn agreed_secret(r: Seq<u8>) -> bool {
    dh_agreement()
}

/// Relies on `blake2::Blake2s256` through the `Digest` trait: the 32-byte
/// BLAKE2s-256 digest of the input.
#[verifier::external_body]
pub fn hash(data: &[u8]) -> (r: Vec<u8>)
    ensures
        r@ == blake2s_of(data@) && r@.len() == 32,
{
    let mut context = blake2::Blake2s256::new();
    context.update(data);
    context.finalize().to_vec()
}

/// Relies on `x25519_dalek::x25519`: the X25519 function on a 32-byte
/// scalar and a 32-byte point, whose documentation shows that the two
/// sides of an exchange derive equal shared secrets.
#[verifier::external_body]
pub fn dh(k: &Vec<u8>, u: &Vec<u8>) -> (r: Vec<u8>)
    requires
        k@.len() == 32,
        u@.len() == 32,
    ensures
        r@ == x25519_of(k@, u@) && r@.len() == 32 && agreed_secret(r@),
{
    let key: [u8; 32] = k.as_slice().try_into().unwrap();
    let point: [u8; 32] = u.as_slice().try_into().unwrap();
    x25519_dalek::x25519(key, point).to_vec()
}

/// Relies on `chacha20poly1305::ChaCha20Poly1305` through `aead::Aead`:
/// encryption appends the 16-byte Poly1305 tag and cannot fail below the
/// message-size limit; decryption under the same parameters recovers the
/// plaintext.
#[verifier::external_body]
pub fn aead_seal(key: &Vec<u8>, nonce: &Vec<u8>, ad: &Vec<u8>, pt: &[u8]) -> (r: Vec<u8>)
    requires
        key@.len() == 32,
        nonce@.len() == 12,
        pt@.len() <= MAX_AEAD_LEN,
        ad@.len() <= MAX_AEAD_LEN,
    ensures
        r@ == seal_of(key@, nonce@, ad@, pt@) && r@.len() == pt@.len() + 16 && open_of(
            key@,
            nonce@,
            ad@,
            r@,
        ) == Some(pt@),
{
    let cipher = ChaCha20Poly1305::new_from_slice(key.as_slice()).unwrap();
    let n = Nonce::try_from(nonce.as_slice()).unwrap();
    cipher.encrypt(&n, Payload { msg: pt, aad: ad.as_slice() }).unwrap()
}

/// Relies on `chacha20poly1305::ChaCha20Poly1305` through `aead::Aead`:
/// decryption authenticates the trailing 16-byte tag and returns the
/// plaintext, or fails on any mismatch.
#[verifier::external_body]
pub fn aead_open(key: &Vec<u8>, nonce: &Vec<u8>, ad: &Vec<u8>, ct: &[u8]) -> (r: Option<Vec<u8>>)
    requires
        key@.len() == 32,
        nonce@.len() == 12,
        ct@.len() <= MAX_AEAD_LEN,
        ad@.len() <= MAX_AEAD_LEN,
    ensures
        (match r {
            Some(v) => open_of(key@, nonce@, ad@, ct@) == Some(v@) && ct@.len() >= 16 && v@.len()
                == ct@.len() - 16,
            None => open_of(key@, nonce@, ad@, ct@) is None,
        }),
{
    let cipher = ChaCha20Poly1305::new_from_slice(key.as_slice()).unwrap();
    let n = Nonce::try_from(nonce.as_slice()).unwrap();
    match cipher.decrypt(&n, Payload { msg: ct, aad: ad.as_slice() }) {
        Ok(v) => Some(v),
        Err(_) => None,
    }
}

/// Relies on `base58::ToBase58` for `[u8]`: the base58 rendering of a byte
/// string, over the all-ASCII Bitcoin alphabet.
#[verifier::external_body]
pub fn to_base58(data: &[u8]) -> (r: Vec<u8>)
    ensures
        r@ == base58_of(data@),
{
    data.to_base58().into_bytes()
}

/// The X25519 base point as a vector.
pub fn base_point_bytes() -> (r: Vec<u8>)
    ensures
        r@ == base_point(),
{
    let mut out: Vec<u8> = Vec::new();
    out.push(9u8);
    let mut i: usize = 0;
    while i < 31
        invariant
            i <= 31,
            out@.len() == 1 + i,
            out@[0] == 9u8,
            forall|j: int| 1 <= j < out@.len() ==> out@[j] == 0u8,
        decreases 31 - i,
    {
        out.push(0u8);
        i = i + 1;
    }
    assert(out@ =~= base_point());
    out
}

/// The public key of a 32-byte private key.
pub fn pub_key(k: &Vec<u8>) -> (r: Vec<u8>)
    requires
        k@.len() == 32,
    ensures
        r@ == pubkey_of(k@),
        r@.len() == 32,
        dh_agreement(),
{
    let base = base_point_bytes();
    dh(k, &base)
}

/// The 32-byte digest of `con ++ data`.
pub fn hash_with_context(con: &[u8], data: &[u8]) -> (r: Vec<u8>)
    ensures
        r@ == blake2s_of(con@ + data@) && r@.len() == 32,
{
    let joined = concat_bytes(con, data);
    hash(joined.as_slice())
}

/// The HMAC inner or outer padding of a key: the key XORed into 64 bytes
/// of the pad constant.
pub open spec fn hmac_pad(key: Seq<u8>, pad: u8) -> Seq<u8>
    recommends
        key.len() <= 64,
{
    Seq::new(64, |i: int| if i < key.len() { key[i] ^ pad } else { pad })
}

/// HMAC over BLAKE2s-256 with the standard ipad/opad construction and a
/// 64-byte block.
pub open spec fn hmac_of(key: Seq<u8>, data: Seq<u8>) -> Seq<u8>
    recommends
        key.len() <= 64,
{
    blake2s_of(hmac_pad(key, 0x5c) + blake2s_of(hmac_pad(key, 0x36) + data))
}

/// The padded key `key XOR pad*`, 64 bytes long.
fn build_pad(key: &[u8], pad: u8) -> (r: Vec<u8>)
    requires
        key@.len() <= 64,
    ensures
        r@ == hmac_pad(key@, pad),
{
    let mut out: Vec<u8> = Vec::new();
    let mut i: usize = 0;
    while i < 64
        invariant
            i <= 64,
            key@.len() <= 64,
            out@.len() == i,
            forall|j: int| 0 <= j < i ==> out@[j] == hmac_pad(key@, pad)[j],
        decreases 64 - i,
    {
        if i < key.len() {
            out.push(key[i] ^ pad);
        } else {
            out.push(pad);
        }
        i = i + 1;
    }
    assert(out@ =~= hmac_pad(key@, pad));
    out
}

/// The HMAC-BLAKE2s of `data` under `key`.
pub fn hmac(key: &[u8], data: &[u8]) -> (r: Vec<u8>)
    requires
        key@.len() <= 64,
    ensures
        r@ == hmac_of(key@, data@),
        r@.len() == 32,
{
    let ipad = build_pad(key, 0x36);
    let inner = hash_with_context(ipad.as_slice(), data);
    let opad = build_pad(key, 0x5c);
    hash_with_context(opad.as_slice(), inner.as_slice())
}

/// The first output block of the Noise HKDF.
pub open spec fn hkdf1_of(chaining_key: Seq<u8>, ikm: Seq<u8>) -> Seq<u8> {
    hmac_of(hmac_of(chaining_key, ikm), seq![1u8])
}

/// The second output block of the Noise HKDF.
pub open spec fn hkdf2_of(chaining_key: Seq<u8>, ikm: Seq<u8>) -> Seq<u8> {
    hmac_of(hmac_of(chaining_key, ikm), hkdf1_of(chaining_key, ikm) + seq![2u8])
}

/// The two-output Noise HKDF: `temp = HMAC(ck, ikm)`, `out1 = HMAC(temp,
/// 0x01)`, `out2 = HMAC(temp, out1 ++ 0x02)`.
pub fn hkdf(chaining_key: &[u8], input_key_material: &[u8]) -> (r: (Vec<u8>, Vec<u8>))
    requires
        chaining_key@.len() <= 64,
    ensures
        r.0@ == hkdf1_of(chaining_key@, input_key_material@),
        r.1@ == hkdf2_of(chaining_key@, input_key_material@),
        r.0@.len() == 32,
        r.1@.len() == 32,
{
    let temp_key = hmac(chaining_key, input_key_material);
    let mut one: Vec<u8> = Vec::new();
    one.push(1u8);
    assert(one@ =~= seq![1u8]);
    let out1 = hmac(temp_key.as_slice(), one.as_slice());
    let mut second_input = crate::bytes::copy_bytes(&out1);
    second_input.push(2u8);
    assert(second_input@ =~= hkdf1_of(chaining_key@, input_key_material@) + seq![2u8]);
    let out2 = hmac(temp_key.as_slice(), second_input.as_slice());
    (out1, out2)
}

} // verus!
