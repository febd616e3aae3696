//! The Noise `SymmetricState`: chaining key, running transcript hash, and
//! the embedded cipher state of the current handshake encryption key.
//!
//! Every operation is specified as a pure transition on the mathematical
//! model `SymModel`, so the handshake layer can relate an initiator's and
//! a responder's state evolution step by step.

use vstd::prelude::*;
use crate::Error;
use crate::bytes::copy_bytes;
use crate::cipherstate::{nonce_bytes, CipherModel, CipherState};
use crate::crypto::{blake2s_of, hash, hkdf, hkdf1_of, hkdf2_of, open_of, MAX_AEAD_LEN};

verus! {

/// Mathematical model of a symmetric state.
#[verifier::ext_equal]
pub struct SymModel {
    pub ck: Seq<u8>,
    pub h: Seq<u8>,
    pub cipher: CipherModel,
    pub has_key: bool,
}

/// 32 zero bytes: the placeholder key of an unkeyed symmetric state.
pub open spec fn zero_key() -> Seq<u8> {
    Seq::new(32, |i: int| 0u8)
}

/// The state derived from a protocol name: a name shorter than the hash
/// length is right-padded with zeros into `h`, a longer one is hashed;
/// `ck` starts equal to `h` and no key is present.
pub open spec fn sym_init(name: Seq<u8>) -> SymModel {
    let h = if name.len() < 32 {
        name + Seq::new((32 - name.len()) as nat, |i: int| 0u8)
    } else {
        blake2s_of(name)
    };
    SymModel { ck: h, h: h, cipher: CipherModel { k: zero_key(), n: 0 }, has_key: false }
}

/// `mix_hash`: the transcript hash absorbs `data`.
pub open spec fn mixed_hash(m: SymModel, data: Seq<u8>) -> SymModel {
    SymModel { h: blake2s_of(m.h + data), ..m }
}

/// `mix_key`: the chaining key and a fresh encryption key are derived
/// from the old chaining key and the input key material.
pub open spec fn mixed_key(m: SymModel, ikm: Seq<u8>) -> SymModel {
    SymModel {
        ck: hkdf1_of(m.ck, ikm),
        h: m.h,
        cipher: CipherModel { k: hkdf2_of(m.ck, ikm), n: 0 },
        has_key: true,
    }
}

/// The bytes `encrypt_and_hash` emits for `pt`: the AEAD ciphertext under
/// the current key and transcript hash when keyed, the plaintext itself
/// when not.
pub open spec fn eah_ct(m: SymModel, pt: Seq<u8>) -> Seq<u8> {
    if m.has_key {
        crate::crypto::seal_of(m.cipher.k, nonce_bytes(m.cipher.n), m.h, pt)
    } else {
        pt
    }
}

/// The state after `encrypt_and_hash`: the emitted bytes are mixed into
/// the transcript hash, and a keyed cipher advances its counter.
pub open spec fn eah_next(m: SymModel, pt: Seq<u8>) -> SymModel {
    SymModel {
        h: blake2s_of(m.h + eah_ct(m, pt)),
        cipher: if m.has_key {
            CipherModel { k: m.cipher.k, n: (m.cipher.n + 1) as u64 }
        } else {
            m.cipher
        },
        ..m
    }
}

/// Whether `decrypt_and_hash` succeeds on `ct`: always when unkeyed, and
/// exactly on tag verification under a legal counter when keyed.
pub open spec fn dah_ok(m: SymModel, ct: Seq<u8>) -> bool {
    !m.has_key || (m.cipher.n < u64::MAX && open_of(
        m.cipher.k,
        nonce_bytes(m.cipher.n),
        m.h,
        ct,
    ) is Some)
}

/// The payload `decrypt_and_hash` recovers from `ct` on success.
pub open spec fn dah_pt(m: SymModel, ct: Seq<u8>) -> Seq<u8> {
    if m.has_key {
        open_of(m.cipher.k, nonce_bytes(m.cipher.n), m.h, ct)->Some_0
    } else {
        ct
    }
}

/// The state after a successful `decrypt_and_hash`: the received bytes
/// are mixed into the transcript hash, and a keyed cipher advances.
pub open spec fn dah_next(m: SymModel, ct: Seq<u8>) -> SymModel {
    SymModel {
        h: blake2s_of(m.h + ct),
        cipher: if m.has_key {
            CipherModel { k: m.cipher.k, n: (m.cipher.n + 1) as u64 }
        } else {
            m.cipher
        },
        ..m
    }
}

/// The first transport key of `split`: sender side of the initiator.
pub open spec fn split1_of(m: SymModel) -> Seq<u8> {
    hkdf1_of(m.ck, Seq::empty())
}

/// The second transport key of `split`: receiver side of the initiator.
pub open spec fn split2_of(m: SymModel) -> Seq<u8> {
    hkdf2_of(m.ck, Seq::empty())
}

/// The Noise symmetric state of a handshake in progress.
pub struct SymmetricState {
    ck: Vec<u8>,
    h: Vec<u8>,
    cipher: CipherState,
    has_key: bool,
}

impl View for SymmetricState {
    type V = SymModel;

    closed spec fn view(&self) -> SymModel {
        SymModel { ck: self.ck@, h: self.h@, cipher: self.cipher@, has_key: self.has_key }
    }
}

impl SymmetricState {
    /// Whether the state is well formed: 32-byte chaining key, hash and
    /// cipher key.
    pub open spec fn wf(&self) -> bool {
        self@.ck.len() == 32 && self@.h.len() == 32 && self@.cipher.k.len() == 32
    }

    /// A fresh symmetric state for the given protocol name.
    pub fn new(name: &[u8]) -> (r: SymmetricState)
        ensures
            r@ == sym_init(name@),
            r.wf(),
    {
        let h: Vec<u8> = if name.len() < 32 {
            let mut padded = crate::bytes::subvec(name, 0, name.len());
            let ghost orig = name@;
            while padded.len() < 32
                invariant
                    orig.len() <= padded@.len() <= 32,
                    padded@.subrange(0, orig.len() as int) == orig,
                    forall|j: int| orig.len() <= j < padded@.len() ==> padded@[j] == 0u8,
                decreases 32 - padded@.len(),
            {
                padded.push(0u8);
                assert(padded@.subrange(0, orig.len() as int) =~= orig);
            }
            proof {
                assert(padded@ =~= orig + Seq::new((32 - orig.len()) as nat, |i: int| 0u8));
            }
            padded
        } else {
            hash(name)
        };
        let ck = copy_bytes(&h);
        let mut zeros: Vec<u8> = Vec::new();
        let mut i: usize = 0;
        while i < 32
            invariant
                i <= 32,
                zeros@.len() == i,
                forall|j: int| 0 <= j < i ==> zeros@[j] == 0u8,
            decreases 32 - i,
        {
            zeros.push(0u8);
            i = i + 1;
        }
        assert(zeros@ =~= zero_key());
        let cipher = CipherState::new(zeros);
        SymmetricState { ck, h, cipher, has_key: false }
    }

    /// An identical copy of this state, for snapshot-and-restore around a
    /// fallible message operation.
    pub fn snapshot(&self) -> (r: SymmetricState)
        ensures
            r@ == self@,
    {
        SymmetricState {
            ck: copy_bytes(&self.ck),
            h: copy_bytes(&self.h),
            cipher: self.cipher.snapshot(),
            has_key: self.has_key,
        }
    }

    /// Absorb `data` into the transcript hash.
    pub fn mix_hash(&mut self, data: &[u8])
        requires
            old(self).wf(),
        ensures
            final(self)@ == mixed_hash(old(self)@, data@),
            final(self).wf(),
    {
        self.h = crate::crypto::hash_with_context(self.h.as_slice(), data);
    }

    /// Derive a new chaining key and encryption key from `ikm`.
    pub fn mix_key(&mut self, input_key_material: &[u8])
        requires
            old(self).wf(),
        ensures
            final(self)@ == mixed_key(old(self)@, input_key_material@),
            final(self).wf(),
    {
        let (ck_new, temp_k) = hkdf(self.ck.as_slice(), input_key_material);
        self.ck = ck_new;
        self.cipher = CipherState::new(temp_k);
        self.has_key = true;
    }

    /// Encrypt `payload` (or pass it through when unkeyed) and absorb the
    /// emitted bytes into the transcript hash.
    pub fn encrypt_and_hash(&mut self, payload: &[u8]) -> (r: Result<Vec<u8>, Error>)
        requires
            old(self).wf(),
            payload@.len() <= MAX_AEAD_LEN,
        ensures
            final(self).wf(),
            (match r {
                Ok(ct) => ct@ == eah_ct(old(self)@, payload@) && final(self)@ == eah_next(
                    old(self)@,
                    payload@,
                ) && (old(self)@.has_key ==> old(self)@.cipher.n < u64::MAX && ct@.len()
                    == payload@.len() + 16 && open_of(
                    old(self)@.cipher.k,
                    nonce_bytes(old(self)@.cipher.n),
                    old(self)@.h,
                    ct@,
                ) == Some(payload@)) && (!old(self)@.has_key ==> ct@ == payload@),
                Err(e) => e == Error::Input && old(self)@.has_key && old(self)@.cipher.n
                    == u64::MAX && final(self)@ == old(self)@,
            }),
    {
        if self.has_key {
            let ct = match self.cipher.encrypt_with_ad(&self.h, payload) {
                Ok(ct) => ct,
                Err(e) => {
                    return Err(e);
                },
            };
            self.mix_hash(ct.as_slice());
            Ok(ct)
        } else {
            let ct = crate::bytes::subvec(payload, 0, payload.len());
            assert(ct@ =~= payload@);
            self.mix_hash(ct.as_slice());
            Ok(ct)
        }
    }

    /// Decrypt `message` (or pass it through when unkeyed) and absorb the
    /// received bytes into the transcript hash; on failure the state is
    /// exactly as it was.
    pub fn decrypt_and_hash(&mut self, message: &[u8]) -> (r: Result<Vec<u8>, Error>)
        requires
            old(self).wf(),
            message@.len() <= MAX_AEAD_LEN,
        ensures
            final(self).wf(),
            (match r {
                Ok(pt) => dah_ok(old(self)@, message@) && pt@ == dah_pt(old(self)@, message@)
                    && final(self)@ == dah_next(old(self)@, message@) && (!old(self)@.has_key
                    ==> pt@ == message@) && (old(self)@.has_key ==> message@.len() >= 16
                    && pt@.len() == message@.len() - 16),
                Err(e) => final(self)@ == old(self)@ && old(self)@.has_key && (if e
                    == Error::Input {
                    old(self)@.cipher.n == u64::MAX
                } else {
                    e == Error::Decrypt && old(self)@.cipher.n < u64::MAX && open_of(
                        old(self)@.cipher.k,
                        nonce_bytes(old(self)@.cipher.n),
                        old(self)@.h,
                        message@,
                    ) is None
                }),
            }),
    {
        if self.has_key {
            let pt = match self.cipher.decrypt_with_ad(&self.h, message) {
                Ok(pt) => pt,
                Err(e) => {
                    return Err(e);
                },
            };
            self.mix_hash(message);
            Ok(pt)
        } else {
            let pt = crate::bytes::subvec(message, 0, message.len());
            assert(pt@ =~= message@);
            self.mix_hash(message);
            Ok(pt)
        }
    }

    /// Derive the two transport cipher states from the final chaining
    /// key.
    pub fn split(self) -> (r: (CipherState, CipherState))
        requires
            self.wf(),
        ensures
            r.0@.k == split1_of(self@),
            r.0@.n == 0,
            r.1@.k == split2_of(self@),
            r.1@.n == 0,
            r.0.wf(),
            r.1.wf(),
    {
        let empty: Vec<u8> = Vec::new();
        let (k1, k2) = hkdf(self.ck.as_slice(), empty.as_slice());
        assert(empty@ =~= Seq::<u8>::empty());
        (CipherState::new(k1), CipherState::new(k2))
    }
}

} // verus!
