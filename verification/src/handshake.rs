//! The Noise XX handshake state machine:
//!
//! ```text
//! -> e
//! <- e, ee, s, es
//! -> s, se
//! ```
//!
//! Each of `write_message` and `read_message` is specified as a pure
//! transition over the symmetric-state model, piece by piece of the wire
//! message, so that an initiator run and a responder run can be related
//! exactly. A failed read restores the whole state, a message in the
//! wrong direction or after completion changes nothing.

use vstd::prelude::*;
use vstd::slice::slice_to_vec;
use crate::Error;
use crate::bytes::subvec;
use crate::cipherstate::nonce_bytes;
use crate::crypto::{dh, open_of, pub_key, pubkey_of, x25519_of, MAX_AEAD_LEN};
use crate::symmetric::{
    dah_next,
    dah_ok,
    dah_pt,
    eah_ct,
    eah_next,
    mixed_hash,
    mixed_key,
    sym_init,
    zero_key,
    SymModel,
    SymmetricState,
};
use crate::transport::Transport;

verus! {

/// The largest handshake payload accepted for a single message; far
/// above the fixed scratch ceiling any caller uses, and small enough
/// that every AEAD call stays inside its message-size limit.
pub const MAX_HS_PAYLOAD: usize = 0xffff_0000;

/// The protocol name bytes: `Noise_XX_25519_ChaChaPoly_BLAKE2s`.
pub open spec fn xx_protocol_name() -> Seq<u8> {
    seq![
        78u8, 111, 105, 115, 101, 95, 88, 88, 95, 50, 53, 53, 49, 57, 95, 67, 104, 97, 67, 104,
        97, 80, 111, 108, 121, 95, 66, 76, 65, 75, 69, 50, 115,
    ]
}

/// The protocol name as a vector.
fn xx_protocol_name_bytes() -> (r: Vec<u8>)
    ensures
        r@ == xx_protocol_name(),
{
    let name: [u8; 33] = [
        78u8, 111, 105, 115, 101, 95, 88, 88, 95, 50, 53, 53, 49, 57, 95, 67, 104, 97, 67, 104,
        97, 80, 111, 108, 121, 95, 66, 76, 65, 75, 69, 50, 115,
    ];
    let out = slice_to_vec(name.as_slice());
    assert(out@ =~= xx_protocol_name());
    out
}

/// Position of a handshake in its three-message exchange. `I` states
/// belong to the initiator, `R` states to the responder; the digit is
/// the next message to process, and `IDone` / `RDone` mark completion.
#[derive(Debug, Clone, Copy, PartialEq, Eq, Structural)]
pub enum HandshakeState {
    I1,
    I2,
    I3,
    R1,
    R2,
    R3,
    IDone,
    RDone,
}

/// The byte overhead the pattern adds to a message at each stage: the
/// bare ephemeral (32), the ephemeral plus encrypted static and tag
/// (96), or the encrypted static and tag (64).
pub open spec fn stage_overhead(s: HandshakeState) -> int {
    match s {
        HandshakeState::I1 | HandshakeState::R1 => 32,
        HandshakeState::I2 | HandshakeState::R2 => 96,
        HandshakeState::I3 | HandshakeState::R3 => 64,
        HandshakeState::IDone | HandshakeState::RDone => 0,
    }
}

/// The state a successful message operation advances to.
pub open spec fn next_state(s: HandshakeState) -> HandshakeState {
    match s {
        HandshakeState::I1 => HandshakeState::I2,
        HandshakeState::I2 => HandshakeState::I3,
        HandshakeState::I3 => HandshakeState::IDone,
        HandshakeState::R1 => HandshakeState::R2,
        HandshakeState::R2 => HandshakeState::R3,
        HandshakeState::R3 => HandshakeState::RDone,
        HandshakeState::IDone => HandshakeState::IDone,
        HandshakeState::RDone => HandshakeState::RDone,
    }
}

/// Whether the stage writes a message (as opposed to reading one).
pub open spec fn is_write_state(s: HandshakeState) -> bool {
    s == HandshakeState::I1 || s == HandshakeState::R2 || s == HandshakeState::I3
}

/// Whether the stage reads a message.
pub open spec fn is_read_state(s: HandshakeState) -> bool {
    s == HandshakeState::R1 || s == HandshakeState::I2 || s == HandshakeState::R3
}

/// Whether the handshake is complete.
pub open spec fn is_done_state(s: HandshakeState) -> bool {
    s == HandshakeState::IDone || s == HandshakeState::RDone
}

/// The key status the pattern guarantees at each stage: no encryption
/// key before the second message has been processed, and a key whose
/// counter stands at 1 (after the second message's encrypted payload)
/// when the third message is due.
pub open spec fn stage_key_inv(s: HandshakeState, sym: SymModel) -> bool {
    match s {
        HandshakeState::I1 | HandshakeState::R1 | HandshakeState::I2 | HandshakeState::R2
            => !sym.has_key,
        HandshakeState::I3 | HandshakeState::R3 => sym.has_key && sym.cipher.n == 1,
        HandshakeState::IDone | HandshakeState::RDone => true,
    }
}

impl HandshakeState {
    /// The per-message overhead of this stage.
    pub fn overhead(&self) -> (r: usize)
        requires
            !is_done_state(*self),
        ensures
            r == stage_overhead(*self),
    {
        match self {
            HandshakeState::I1 | HandshakeState::R1 => 32,
            HandshakeState::I2 | HandshakeState::R2 => 96,
            HandshakeState::I3 | HandshakeState::R3 => 64,
            HandshakeState::IDone | HandshakeState::RDone => {
                proof {
                    assert(false);
                }
                0
            },
        }
    }

    /// Advance to the next stage.
    pub fn next(&mut self)
        requires
            !is_done_state(*old(self)),
        ensures
            *final(self) == next_state(*old(self)),
    {
        match self {
            HandshakeState::I1 => *self = HandshakeState::I2,
            HandshakeState::I2 => *self = HandshakeState::I3,
            HandshakeState::I3 => *self = HandshakeState::IDone,
            HandshakeState::R1 => *self = HandshakeState::R2,
            HandshakeState::R2 => *self = HandshakeState::R3,
            HandshakeState::R3 => *self = HandshakeState::RDone,
            HandshakeState::IDone | HandshakeState::RDone => {
                proof {
                    assert(false);
                }
            },
        }
    }
}

/// Mathematical model of a handshake: the four key slots, the stage, and
/// the symmetric state.
#[verifier::ext_equal]
pub struct HsModel {
    pub e: Seq<u8>,
    pub s: Seq<u8>,
    pub re: Seq<u8>,
    pub rs: Seq<u8>,
    pub state: HandshakeState,
    pub sym: SymModel,
}

// --- first message, `-> e` ---------------------------------------------
/// The bytes of the first message: the bare ephemeral public key, then
/// the payload in the clear (no key has been mixed yet).
pub open spec fn w1_msg(sym: SymModel, e: Seq<u8>, pt: Seq<u8>) -> Seq<u8> {
    eah_ct(sym, pubkey_of(e)) + eah_ct(eah_next(sym, pubkey_of(e)), pt)
}

/// The symmetric state after writing the first message.
pub open spec fn w1_sym(sym: SymModel, e: Seq<u8>, pt: Seq<u8>) -> SymModel {
    eah_next(eah_next(sym, pubkey_of(e)), pt)
}

/// The symmetric state after reading a first message `m`.
pub open spec fn r1_sym(sym: SymModel, m: Seq<u8>) -> SymModel {
    dah_next(dah_next(sym, m.subrange(0, 32)), m.subrange(32, m.len() as int))
}

// --- second message, `<- e, ee, s, es` ----------------------------------
/// The state after the writer has emitted its ephemeral and mixed `ee`.
pub open spec fn w2_after_ee(sym: SymModel, e: Seq<u8>, re: Seq<u8>) -> SymModel {
    mixed_key(eah_next(sym, pubkey_of(e)), x25519_of(e, re))
}

/// The state after the writer has also emitted its encrypted static and
/// mixed `es`.
pub open spec fn w2_after_es(sym: SymModel, e: Seq<u8>, s: Seq<u8>, re: Seq<u8>) -> SymModel {
    mixed_key(eah_next(w2_after_ee(sym, e, re), pubkey_of(s)), x25519_of(s, re))
}

/// The bytes of the second message: the bare ephemeral, the encrypted
/// static, and the encrypted payload.
pub open spec fn w2_msg(sym: SymModel, e: Seq<u8>, s: Seq<u8>, re: Seq<u8>, pt: Seq<u8>) -> Seq<
    u8,
> {
    eah_ct(sym, pubkey_of(e)) + eah_ct(w2_after_ee(sym, e, re), pubkey_of(s)) + eah_ct(
        w2_after_es(sym, e, s, re),
        pt,
    )
}

/// The symmetric state after writing the second message.
pub open spec fn w2_sym(sym: SymModel, e: Seq<u8>, s: Seq<u8>, re: Seq<u8>, pt: Seq<u8>) -> SymModel {
    eah_next(w2_after_es(sym, e, s, re), pt)
}

/// Reader side of the second message: the state after absorbing the
/// peer's ephemeral (the first 32 bytes of `m`) and mixing `ee`.
pub open spec fn r2_after_ee(sym: SymModel, e: Seq<u8>, m: Seq<u8>) -> SymModel {
    mixed_key(dah_next(sym, m.subrange(0, 32)), x25519_of(e, m.subrange(0, 32)))
}

/// Whether the encrypted static of the second message authenticates.
pub open spec fn r2_ok_s(sym: SymModel, e: Seq<u8>, m: Seq<u8>) -> bool {
    dah_ok(r2_after_ee(sym, e, m), m.subrange(32, 80))
}

/// The peer static recovered from the second message.
pub open spec fn r2_rs(sym: SymModel, e: Seq<u8>, m: Seq<u8>) -> Seq<u8> {
    dah_pt(r2_after_ee(sym, e, m), m.subrange(32, 80))
}

/// Reader state after also mixing `es` with the recovered static.
pub open spec fn r2_after_es(sym: SymModel, e: Seq<u8>, m: Seq<u8>) -> SymModel {
    mixed_key(
        dah_next(r2_after_ee(sym, e, m), m.subrange(32, 80)),
        x25519_of(e, r2_rs(sym, e, m)),
    )
}

/// Whether the encrypted payload of the second message authenticates.
pub open spec fn r2_ok_p(sym: SymModel, e: Seq<u8>, m: Seq<u8>) -> bool {
    dah_ok(r2_after_es(sym, e, m), m.subrange(80, m.len() as int))
}

/// The payload recovered from the second message.
pub open spec fn r2_payload(sym: SymModel, e: Seq<u8>, m: Seq<u8>) -> Seq<u8> {
    dah_pt(r2_after_es(sym, e, m), m.subrange(80, m.len() as int))
}

/// The symmetric state after reading the second message.
pub open spec fn r2_sym(sym: SymModel, e: Seq<u8>, m: Seq<u8>) -> SymModel {
    dah_next(r2_after_es(sym, e, m), m.subrange(80, m.len() as int))
}

// --- third message, `-> s, se` ------------------------------------------
/// The state after the writer has emitted its encrypted static and mixed
/// `se`.
pub open spec fn w3_after_se(sym: SymModel, s: Seq<u8>, re: Seq<u8>) -> SymModel {
    mixed_key(eah_next(sym, pubkey_of(s)), x25519_of(s, re))
}

/// The bytes of the third message: the encrypted static, then the
/// encrypted payload.
pub open spec fn w3_msg(sym: SymModel, s: Seq<u8>, re: Seq<u8>, pt: Seq<u8>) -> Seq<u8> {
    eah_ct(sym, pubkey_of(s)) + eah_ct(w3_after_se(sym, s, re), pt)
}

/// The symmetric state after writing the third message.
pub open spec fn w3_sym(sym: SymModel, s: Seq<u8>, re: Seq<u8>, pt: Seq<u8>) -> SymModel {
    eah_next(w3_after_se(sym, s, re), pt)
}

/// Whether the encrypted static of the third message authenticates.
pub open spec fn r3_ok_s(sym: SymModel, m: Seq<u8>) -> bool {
    dah_ok(sym, m.subrange(0, 48))
}

/// The peer static recovered from the third message.
pub open spec fn r3_rs(sym: SymModel, m: Seq<u8>) -> Seq<u8> {
    dah_pt(sym, m.subrange(0, 48))
}

/// Reader state after mixing `se` with the recovered static.
pub open spec fn r3_after_se(sym: SymModel, e: Seq<u8>, m: Seq<u8>) -> SymModel {
    mixed_key(dah_next(sym, m.subrange(0, 48)), x25519_of(e, r3_rs(sym, m)))
}

/// Whether the encrypted payload of the third message authenticates.
pub open spec fn r3_ok_p(sym: SymModel, e: Seq<u8>, m: Seq<u8>) -> bool {
    dah_ok(r3_after_se(sym, e, m), m.subrange(48, m.len() as int))
}

/// The payload recovered from the third message.
pub open spec fn r3_payload(sym: SymModel, e: Seq<u8>, m: Seq<u8>) -> Seq<u8> {
    dah_pt(r3_after_se(sym, e, m), m.subrange(48, m.len() as int))
}

/// The symmetric state after reading the third message.
pub open spec fn r3_sym(sym: SymModel, e: Seq<u8>, m: Seq<u8>) -> SymModel {
    dah_next(r3_after_se(sym, e, m), m.subrange(48, m.len() as int))
}

/// Whether a ciphertext piece emitted under pre-encryption state `s`
/// decrypts back to `pt` under that state's key, counter and transcript
/// hash — exactly the condition the reading side tests.
pub open spec fn piece_opens(s: SymModel, ct: Seq<u8>, pt: Seq<u8>) -> bool {
    s.has_key ==> open_of(s.cipher.k, nonce_bytes(s.cipher.n), s.h, ct) == Some(pt)
}

/// The Noise XX handshake engine: local ephemeral and static private
/// keys, the remote public keys learned so far, the stage, and the
/// symmetric state.
pub struct HandshakeXX {
    e: Vec<u8>,
    s: Vec<u8>,
    re: Vec<u8>,
    rs: Vec<u8>,
    state: HandshakeState,
    sym: SymmetricState,
}

impl View for HandshakeXX {
    type V = HsModel;

    closed spec fn view(&self) -> HsModel {
        HsModel {
            e: self.e@,
            s: self.s@,
            re: self.re@,
            rs: self.rs@,
            state: self.state,
            sym: self.sym@,
        }
    }
}

impl HandshakeXX {
    /// Whether the handshake is well formed: every key slot holds 32
    /// bytes and the symmetric state is well formed.
    pub open spec fn wf(&self) -> bool {
        self@.e.len() == 32 && self@.s.len() == 32 && self@.re.len() == 32 && self@.rs.len() == 32
            && self@.sym.ck.len() == 32 && self@.sym.h.len() == 32 && self@.sym.cipher.k.len()
            == 32 && stage_key_inv(self@.state, self@.sym)
    }

    /// A handshake over the given ephemeral and static private keys,
    /// with `prologue` mixed into the transcript hash. The remote key
    /// slots start zeroed.
    pub fn new(init: bool, e: Vec<u8>, s: Vec<u8>, prologue: &[u8]) -> (r: HandshakeXX)
        requires
            e@.len() == 32,
            s@.len() == 32,
        ensures
            r@.e == e@,
            r@.s == s@,
            r@.re == zero_key(),
            r@.rs == zero_key(),
            r@.state == (if init {
                HandshakeState::I1
            } else {
                HandshakeState::R1
            }),
            r@.sym == mixed_hash(sym_init(xx_protocol_name()), prologue@),
            r.wf(),
    {
        let name = xx_protocol_name_bytes();
        let mut sym = SymmetricState::new(name.as_slice());
        sym.mix_hash(prologue);
        let mut re: Vec<u8> = Vec::new();
        let mut rs: Vec<u8> = Vec::new();
        let mut i: usize = 0;
        while i < 32
            invariant
                i <= 32,
                re@.len() == i,
                rs@.len() == i,
                forall|j: int| 0 <= j < i ==> re@[j] == 0u8,
                forall|j: int| 0 <= j < i ==> rs@[j] == 0u8,
            decreases 32 - i,
        {
            re.push(0u8);
            rs.push(0u8);
            i = i + 1;
        }
        assert(re@ =~= zero_key());
        assert(rs@ =~= zero_key());
        HandshakeXX {
            e,
            s,
            re,
            rs,
            state: if init {
                HandshakeState::I1
            } else {
                HandshakeState::R1
            },
            sym,
        }
    }

    /// An initiator-side handshake.
    pub fn init(e: Vec<u8>, s: Vec<u8>, prologue: &[u8]) -> (r: HandshakeXX)
        requires
            e@.len() == 32,
            s@.len() == 32,
        ensures
            r@.e == e@,
            r@.s == s@,
            r@.re == zero_key(),
            r@.rs == zero_key(),
            r@.state == HandshakeState::I1,
            r@.sym == mixed_hash(sym_init(xx_protocol_name()), prologue@),
            r.wf(),
    {
        Self::new(true, e, s, prologue)
    }

    /// A responder-side handshake.
    pub fn resp(e: Vec<u8>, s: Vec<u8>, prologue: &[u8]) -> (r: HandshakeXX)
        requires
            e@.len() == 32,
            s@.len() == 32,
        ensures
            r@.e == e@,
            r@.s == s@,
            r@.re == zero_key(),
            r@.rs == zero_key(),
            r@.state == HandshakeState::R1,
            r@.sym == mixed_hash(sym_init(xx_protocol_name()), prologue@),
            r.wf(),
    {
        Self::new(false, e, s, prologue)
    }

    /// Write the next handshake message carrying `payload`.
    ///
    /// Succeeds exactly in the writing stages `I1`, `R2` and `I3`, emits
    /// the stage's message bytes over the current symmetric state, and
    /// advances the stage. In a reading stage nothing changes and
    /// `NotMyTurn` comes back; after completion, `NeedUpgrade`.
    pub fn write_message(&mut self, payload: &[u8]) -> (r: Result<Vec<u8>, Error>)
        requires
            old(self).wf(),
            payload@.len() <= MAX_HS_PAYLOAD,
        ensures
            final(self).wf(),
            final(self)@.e == old(self)@.e,
            final(self)@.s == old(self)@.s,
            final(self)@.re == old(self)@.re,
            final(self)@.rs == old(self)@.rs,
            (match r {
                Ok(msg) => is_write_state(old(self)@.state) && final(self)@.state == next_state(
                    old(self)@.state,
                ) && msg@.len() == stage_overhead(old(self)@.state) + payload@.len()
                    && crate::crypto::dh_agreement() && (match old(self)@.state {
                    HandshakeState::I1 => msg@ == w1_msg(old(self)@.sym, old(self)@.e, payload@)
                        && final(self)@.sym == w1_sym(old(self)@.sym, old(self)@.e, payload@)
                        && msg@.subrange(0, 32) == pubkey_of(old(self)@.e) && msg@.subrange(
                        32,
                        msg@.len() as int,
                    ) == payload@,
                    HandshakeState::R2 => msg@ == w2_msg(
                        old(self)@.sym,
                        old(self)@.e,
                        old(self)@.s,
                        old(self)@.re,
                        payload@,
                    ) && final(self)@.sym == w2_sym(
                        old(self)@.sym,
                        old(self)@.e,
                        old(self)@.s,
                        old(self)@.re,
                        payload@,
                    ) && msg@.subrange(0, 32) == pubkey_of(old(self)@.e) && msg@.subrange(32, 80)
                        == eah_ct(
                        w2_after_ee(old(self)@.sym, old(self)@.e, old(self)@.re),
                        pubkey_of(old(self)@.s),
                    ) && msg@.subrange(80, msg@.len() as int) == eah_ct(
                        w2_after_es(old(self)@.sym, old(self)@.e, old(self)@.s, old(self)@.re),
                        payload@,
                    ) && piece_opens(
                        w2_after_ee(old(self)@.sym, old(self)@.e, old(self)@.re),
                        msg@.subrange(32, 80),
                        pubkey_of(old(self)@.s),
                    ) && piece_opens(
                        w2_after_es(old(self)@.sym, old(self)@.e, old(self)@.s, old(self)@.re),
                        msg@.subrange(80, msg@.len() as int),
                        payload@,
                    ),
                    HandshakeState::I3 => msg@ == w3_msg(
                        old(self)@.sym,
                        old(self)@.s,
                        old(self)@.re,
                        payload@,
                    ) && final(self)@.sym == w3_sym(
                        old(self)@.sym,
                        old(self)@.s,
                        old(self)@.re,
                        payload@,
                    ) && msg@.subrange(0, 48) == eah_ct(old(self)@.sym, pubkey_of(old(self)@.s))
                        && msg@.subrange(48, msg@.len() as int) == eah_ct(
                        w3_after_se(old(self)@.sym, old(self)@.s, old(self)@.re),
                        payload@,
                    ) && piece_opens(
                        old(self)@.sym,
                        msg@.subrange(0, 48),
                        pubkey_of(old(self)@.s),
                    ) && piece_opens(
                        w3_after_se(old(self)@.sym, old(self)@.s, old(self)@.re),
                        msg@.subrange(48, msg@.len() as int),
                        payload@,
                    ),
                    _ => false,
                }),
                Err(e) => final(self)@ == old(self)@ && (if e == Error::NotMyTurn {
                    is_read_state(old(self)@.state)
                } else {
                    e == Error::NeedUpgrade && is_done_state(old(self)@.state)
                }),
            }),
    {
        match self.state {
            HandshakeState::R1 | HandshakeState::I2 | HandshakeState::R3 => Err(Error::NotMyTurn),
            HandshakeState::IDone | HandshakeState::RDone => Err(Error::NeedUpgrade),
            HandshakeState::I1 => {
                let e_pub = pub_key(&self.e);
                let mut msg = match self.sym.encrypt_and_hash(e_pub.as_slice()) {
                    Ok(c) => c,
                    Err(_) => {
                        proof {
                            assert(false);
                        }
                        return Err(Error::Input);
                    },
                };
                let c2 = match self.sym.encrypt_and_hash(payload) {
                    Ok(c) => c,
                    Err(_) => {
                        proof {
                            assert(false);
                        }
                        return Err(Error::Input);
                    },
                };
                crate::bytes::append_bytes(&mut msg, c2.as_slice());
                proof {
                    assert(msg@.subrange(0, 32) =~= pubkey_of(self@.e));
                    assert(msg@.subrange(32, msg@.len() as int) =~= payload@);
                }
                self.state = HandshakeState::I2;
                Ok(msg)
            },
            HandshakeState::R2 => {
                let e_pub = pub_key(&self.e);
                let mut msg = match self.sym.encrypt_and_hash(e_pub.as_slice()) {
                    Ok(c) => c,
                    Err(_) => {
                        proof {
                            assert(false);
                        }
                        return Err(Error::Input);
                    },
                };
                let ee = dh(&self.e, &self.re);
                self.sym.mix_key(ee.as_slice());
                let s_pub = pub_key(&self.s);
                let c2 = match self.sym.encrypt_and_hash(s_pub.as_slice()) {
                    Ok(c) => c,
                    Err(_) => {
                        proof {
                            assert(false);
                        }
                        return Err(Error::Input);
                    },
                };
                crate::bytes::append_bytes(&mut msg, c2.as_slice());
                let es = dh(&self.s, &self.re);
                self.sym.mix_key(es.as_slice());
                let c3 = match self.sym.encrypt_and_hash(payload) {
                    Ok(c) => c,
                    Err(_) => {
                        proof {
                            assert(false);
                        }
                        return Err(Error::Input);
                    },
                };
                crate::bytes::append_bytes(&mut msg, c3.as_slice());
                proof {
                    let o = old(self)@;
                    assert(msg@.subrange(0, 32) =~= pubkey_of(o.e));
                    assert(msg@.subrange(32, 80) =~= eah_ct(
                        w2_after_ee(o.sym, o.e, o.re),
                        pubkey_of(o.s),
                    ));
                    assert(msg@.subrange(80, msg@.len() as int) =~= eah_ct(
                        w2_after_es(o.sym, o.e, o.s, o.re),
                        payload@,
                    ));
                }
                self.state = HandshakeState::R3;
                Ok(msg)
            },
            HandshakeState::I3 => {
                let s_pub = pub_key(&self.s);
                let mut msg = match self.sym.encrypt_and_hash(s_pub.as_slice()) {
                    Ok(c) => c,
                    Err(_) => {
                        proof {
                            assert(false);
                        }
                        return Err(Error::Input);
                    },
                };
                let se = dh(&self.s, &self.re);
                self.sym.mix_key(se.as_slice());
                let c2 = match self.sym.encrypt_and_hash(payload) {
                    Ok(c) => c,
                    Err(_) => {
                        proof {
                            assert(false);
                        }
                        return Err(Error::Input);
                    },
                };
                crate::bytes::append_bytes(&mut msg, c2.as_slice());
                proof {
                    let o = old(self)@;
                    assert(msg@.subrange(0, 48) =~= eah_ct(o.sym, pubkey_of(o.s)));
                    assert(msg@.subrange(48, msg@.len() as int) =~= eah_ct(
                        w3_after_se(o.sym, o.s, o.re),
                        payload@,
                    ));
                }
                self.state = HandshakeState::IDone;
                Ok(msg)
            },
        }
    }

    /// Read the next handshake message and recover its payload.
    ///
    /// Succeeds exactly in the reading stages `R1`, `I2` and `R3` on a
    /// message that is long enough for the stage and whose encrypted
    /// parts authenticate; the peer's keys are learned from the message
    /// and the stage advances. Every failure — wrong direction,
    /// completion, a short message, or a tag mismatch — leaves the whole
    /// handshake exactly as it was.
    pub fn read_message(&mut self, message: &[u8]) -> (r: Result<Vec<u8>, Error>)
        requires
            old(self).wf(),
            message@.len() <= MAX_AEAD_LEN,
        ensures
            final(self).wf(),
            final(self)@.e == old(self)@.e,
            final(self)@.s == old(self)@.s,
            (match r {
                Ok(pt) => is_read_state(old(self)@.state) && message@.len() >= stage_overhead(
                    old(self)@.state,
                ) && final(self)@.state == next_state(old(self)@.state) && (match old(self)@.state {
                    HandshakeState::R1 => pt@ == message@.subrange(32, message@.len() as int)
                        && final(self)@.re == message@.subrange(0, 32) && final(self)@.rs == old(self)@.rs && final(self)@.sym == r1_sym(old(self)@.sym, message@),
                    HandshakeState::I2 => r2_ok_s(old(self)@.sym, old(self)@.e, message@)
                        && r2_ok_p(old(self)@.sym, old(self)@.e, message@) && pt@ == r2_payload(
                        old(self)@.sym,
                        old(self)@.e,
                        message@,
                    ) && final(self)@.re == message@.subrange(0, 32) && final(self)@.rs == r2_rs(
                        old(self)@.sym,
                        old(self)@.e,
                        message@,
                    ) && final(self)@.sym == r2_sym(old(self)@.sym, old(self)@.e, message@),
                    HandshakeState::R3 => r3_ok_s(old(self)@.sym, message@) && r3_ok_p(
                        old(self)@.sym,
                        old(self)@.e,
                        message@,
                    ) && pt@ == r3_payload(old(self)@.sym, old(self)@.e, message@) && final(self)@.re == old(self)@.re && final(self)@.rs == r3_rs(old(self)@.sym, message@)
                        && final(self)@.sym == r3_sym(old(self)@.sym, old(self)@.e, message@),
                    _ => false,
                }),
                Err(e) => final(self)@ == old(self)@ && (if e == Error::NotMyTurn {
                    is_write_state(old(self)@.state)
                } else if e == Error::NeedUpgrade {
                    is_done_state(old(self)@.state)
                } else if e == Error::Input {
                    is_read_state(old(self)@.state) && message@.len() < stage_overhead(
                        old(self)@.state,
                    )
                } else {
                    e == Error::Decrypt && message@.len() >= stage_overhead(old(self)@.state) && (
                    match old(self)@.state {
                        HandshakeState::I2 => !r2_ok_s(old(self)@.sym, old(self)@.e, message@)
                            || !r2_ok_p(old(self)@.sym, old(self)@.e, message@),
                        HandshakeState::R3 => !r3_ok_s(old(self)@.sym, message@) || !r3_ok_p(
                            old(self)@.sym,
                            old(self)@.e,
                            message@,
                        ),
                        _ => false,
                    })
                }),
            }),
    {
        match self.state {
            HandshakeState::I1 | HandshakeState::R2 | HandshakeState::I3 => Err(Error::NotMyTurn),
            HandshakeState::IDone | HandshakeState::RDone => Err(Error::NeedUpgrade),
            HandshakeState::R1 => {
                if message.len() < 32 {
                    return Err(Error::Input);
                }
                let mut sym = self.sym.snapshot();
                let re_part = subvec(message, 0, 32);
                let payload_part = subvec(message, 32, message.len());
                let re_new = match sym.decrypt_and_hash(re_part.as_slice()) {
                    Ok(v) => v,
                    Err(_) => {
                        proof {
                            assert(false);
                        }
                        return Err(Error::Decrypt);
                    },
                };
                let payload = match sym.decrypt_and_hash(payload_part.as_slice()) {
                    Ok(v) => v,
                    Err(_) => {
                        proof {
                            assert(false);
                        }
                        return Err(Error::Decrypt);
                    },
                };
                self.sym = sym;
                self.re = re_new;
                self.state = HandshakeState::R2;
                Ok(payload)
            },
            HandshakeState::I2 => {
                if message.len() < 96 {
                    return Err(Error::Input);
                }
                let mut sym = self.sym.snapshot();
                let e_part = subvec(message, 0, 32);
                let s_part = subvec(message, 32, 80);
                let p_part = subvec(message, 80, message.len());
                let re_new = match sym.decrypt_and_hash(e_part.as_slice()) {
                    Ok(v) => v,
                    Err(_) => {
                        proof {
                            assert(false);
                        }
                        return Err(Error::Decrypt);
                    },
                };
                let ee = dh(&self.e, &re_new);
                sym.mix_key(ee.as_slice());
                let rs_new = match sym.decrypt_and_hash(s_part.as_slice()) {
                    Ok(v) => v,
                    Err(_) => {
                        return Err(Error::Decrypt);
                    },
                };
                let es = dh(&self.e, &rs_new);
                sym.mix_key(es.as_slice());
                let payload = match sym.decrypt_and_hash(p_part.as_slice()) {
                    Ok(v) => v,
                    Err(_) => {
                        return Err(Error::Decrypt);
                    },
                };
                self.sym = sym;
                self.re = re_new;
                self.rs = rs_new;
                self.state = HandshakeState::I3;
                Ok(payload)
            },
            HandshakeState::R3 => {
                if message.len() < 64 {
                    return Err(Error::Input);
                }
                let mut sym = self.sym.snapshot();
                let s_part = subvec(message, 0, 48);
                let p_part = subvec(message, 48, message.len());
                let rs_new = match sym.decrypt_and_hash(s_part.as_slice()) {
                    Ok(v) => v,
                    Err(_) => {
                        return Err(Error::Decrypt);
                    },
                };
                let se = dh(&self.e, &rs_new);
                sym.mix_key(se.as_slice());
                let payload = match sym.decrypt_and_hash(p_part.as_slice()) {
                    Ok(v) => v,
                    Err(_) => {
                        return Err(Error::Decrypt);
                    },
                };
                self.sym = sym;
                self.rs = rs_new;
                self.state = HandshakeState::RDone;
                Ok(payload)
            },
        }
    }

    /// Turn a completed handshake into a transport.
    ///
    /// `IDone` keeps the split keys in order, `RDone` swaps them so that
    /// `send` is always outbound from this side; any unfinished state
    /// yields `NotMyTurn`.
    pub fn upgrade(self) -> (r: Result<Transport, Error>)
        requires
            self.wf(),
        ensures
            (match r {
                Ok(t) => is_done_state(self@.state) && t@.rs == self@.rs && t.wf() && t@.send.n
                    == 0 && t@.recv.n == 0 && (if self@.state == HandshakeState::IDone {
                    t@.send.k == crate::symmetric::split1_of(self@.sym) && t@.recv.k
                        == crate::symmetric::split2_of(self@.sym)
                } else {
                    t@.send.k == crate::symmetric::split2_of(self@.sym) && t@.recv.k
                        == crate::symmetric::split1_of(self@.sym)
                }),
                Err(e) => e == Error::NotMyTurn && !is_done_state(self@.state),
            }),
    {
        let HandshakeXX { e: _, s: _, re: _, rs, state, sym } = self;
        let (send, recv) = match state {
            HandshakeState::IDone => sym.split(),
            HandshakeState::RDone => {
                let (c1, c2) = sym.split();
                (c2, c1)
            },
            _ => {
                return Err(Error::NotMyTurn);
            },
        };
        Ok(Transport::new(rs, send, recv))
    }
}

} // verus!
