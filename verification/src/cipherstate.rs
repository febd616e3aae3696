//! Per-direction AEAD state: a 32-byte ChaCha20-Poly1305 key and a 64-bit
//! message counter.
//!
//! The counter is encoded into the 96-bit nonce (4 zero bytes, then the
//! counter little-endian), advances by one on every successful encryption
//! or decryption, and is never advanced past its reserved top value: the
//! largest counter ever used for a message is `u64::MAX - 1`, and an
//! operation at `u64::MAX` fails without touching the state.

use vstd::prelude::*;
use crate::Error;
use crate::bytes::{copy_bytes, push_u64_le, u64_le_bytes};
use crate::crypto::{aead_open, aead_seal, open_of, seal_of, MAX_AEAD_LEN};

verus! {

/// Mathematical model of a cipher state: the key bytes and the counter.
#[verifier::ext_equal]
pub struct CipherModel {
    pub k: Seq<u8>,
    pub n: u64,
}

/// The 96-bit AEAD nonce for counter `n`: 4 zero bytes, then `n` little
/// endian.
pub open spec fn nonce_bytes(n: u64) -> Seq<u8> {
    Seq::new(4, |i: int| 0u8) + u64_le_bytes(n)
}

/// The nonce for counter `n` as a vector.
pub fn nonce_vec(n: u64) -> (r: Vec<u8>)
    ensures
        r@ == nonce_bytes(n),
        r@.len() == 12,
{
    let mut out: Vec<u8> = Vec::new();
    out.push(0u8);
    out.push(0u8);
    out.push(0u8);
    out.push(0u8);
    assert(out@ =~= Seq::new(4, |i: int| 0u8));
    push_u64_le(&mut out, n);
    out
}

/// One direction of an established or in-progress Noise session.
pub struct CipherState {
    k: Vec<u8>,
    n: u64,
}

impl View for CipherState {
    type V = CipherModel;

    closed spec fn view(&self) -> CipherModel {
        CipherModel { k: self.k@, n: self.n }
    }
}

impl CipherState {
    /// Whether the state is well formed: the key is 32 bytes.
    pub open spec fn wf(&self) -> bool {
        self@.k.len() == 32
    }

    /// A fresh cipher state keyed with `key`, counter zero.
    pub fn new(key: Vec<u8>) -> (r: CipherState)
        requires
            key@.len() == 32,
        ensures
            r@.k == key@,
            r@.n == 0,
            r.wf(),
    {
        CipherState { k: key, n: 0 }
    }

    /// The current counter value.
    pub fn counter(&self) -> (r: u64)
        ensures
            r == self@.n,
    {
        self.n
    }

    /// Reset the counter, keeping the key. The receiving side of a
    /// transport uses this to adopt a frame's explicit nonce before
    /// decrypting.
    pub fn set_counter(&mut self, n: u64)
        ensures
            final(self)@.k == old(self)@.k,
            final(self)@.n == n,
    {
        self.n = n;
    }

    /// An identical copy of this state.
    pub fn snapshot(&self) -> (r: CipherState)
        ensures
            r@ == self@,
    {
        CipherState { k: copy_bytes(&self.k), n: self.n }
    }

    /// AEAD-encrypt `plaintext` under the current counter with associated
    /// data `ad`, then advance the counter.
    ///
    /// Succeeds exactly when the counter has not reached its reserved top
    /// value; the ciphertext is the plaintext sealed under the state's key
    /// and the nonce of the old counter, and decrypts back to the
    /// plaintext under those same parameters. On failure the state is
    /// unchanged.
    pub fn encrypt_with_ad(&mut self, ad: &Vec<u8>, plaintext: &[u8]) -> (r: Result<Vec<u8>, Error>)
        requires
            old(self).wf(),
            plaintext@.len() <= MAX_AEAD_LEN,
            ad@.len() <= MAX_AEAD_LEN,
        ensures
            final(self).wf(),
            final(self)@.k == old(self)@.k,
            (match r {
                Ok(ct) => old(self)@.n < u64::MAX && ct@ == seal_of(
                    old(self)@.k,
                    nonce_bytes(old(self)@.n),
                    ad@,
                    plaintext@,
                ) && ct@.len() == plaintext@.len() + 16 && open_of(
                    old(self)@.k,
                    nonce_bytes(old(self)@.n),
                    ad@,
                    ct@,
                ) == Some(plaintext@) && final(self)@.n == old(self)@.n + 1,
                Err(e) => e == Error::Input && old(self)@.n == u64::MAX && final(self)@ == old(
                    self,
                )@,
            }),
    {
        if self.n == u64::MAX {
            return Err(Error::Input);
        }
        let nonce = nonce_vec(self.n);
        let ct = aead_seal(&self.k, &nonce, ad, plaintext);
        self.n = self.n + 1;
        Ok(ct)
    }

    /// AEAD-decrypt `ciphertext` under the current counter with associated
    /// data `ad`; advance the counter only on success.
    ///
    /// Succeeds exactly when the counter is legal and the tag verifies;
    /// `Decrypt` marks a tag mismatch and `Input` an exhausted counter,
    /// and either failure leaves the state exactly as it was.
    pub fn decrypt_with_ad(&mut self, ad: &Vec<u8>, ciphertext: &[u8]) -> (r: Result<
        Vec<u8>,
        Error,
    >)
        requires
            old(self).wf(),
            ciphertext@.len() <= MAX_AEAD_LEN,
            ad@.len() <= MAX_AEAD_LEN,
        ensures
            final(self).wf(),
            final(self)@.k == old(self)@.k,
            (match r {
                Ok(pt) => old(self)@.n < u64::MAX && open_of(
                    old(self)@.k,
                    nonce_bytes(old(self)@.n),
                    ad@,
                    ciphertext@,
                ) == Some(pt@) && ciphertext@.len() >= 16 && pt@.len() == ciphertext@.len() - 16
                    && final(self)@.n == old(self)@.n + 1,
                Err(e) => final(self)@ == old(self)@ && (if e == Error::Input {
                    old(self)@.n == u64::MAX
                } else {
                    e == Error::Decrypt && old(self)@.n < u64::MAX && open_of(
                        old(self)@.k,
                        nonce_bytes(old(self)@.n),
                        ad@,
                        ciphertext@,
                    ) is None
                }),
            }),
    {
        if self.n == u64::MAX {
            return Err(Error::Input);
        }
        let nonce = nonce_vec(self.n);
        match aead_open(&self.k, &nonce, ad, ciphertext) {
            Some(pt) => {
                self.n = self.n + 1;
                Ok(pt)
            },
            None => Err(Error::Decrypt),
        }
    }
}

} // verus!
