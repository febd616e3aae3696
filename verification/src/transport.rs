//! The post-handshake transport: framed messages with an explicit 64-bit
//! nonce, monotonic-progress replay rejection, and snapshot-on-failure
//! decryption.
//!
//! A frame is the sender's counter as 8 little-endian bytes followed by
//! the AEAD ciphertext. The receiver keeps its own counter and accepts
//! only frames whose nonce has not been passed yet: it adopts the frame's
//! nonce, decrypts under it, and on success moves its counter just past
//! it; a replayed or corrupt frame leaves the receiver exactly as it was.

use vstd::prelude::*;
use crate::Error;
use crate::bytes::{
    le_bytes_u64,
    lemma_le_bytes_u64_roundtrip,
    push_u64_le,
    read_u64_le,
    subvec,
    u64_le_bytes,
};
use crate::cipherstate::{nonce_bytes, CipherModel, CipherState};
use crate::crypto::{open_of, seal_of, MAX_AEAD_LEN};

verus! {

/// The largest plaintext a transport message may carry.
pub const MAX_TRANSPORT_PAYLOAD: usize = 224;

/// Mathematical model of a transport: the remote static key and the two
/// directional cipher states.
#[verifier::ext_equal]
pub struct TransportModel {
    pub rs: Seq<u8>,
    pub send: CipherModel,
    pub recv: CipherModel,
}

/// A decoded transport frame: the explicit nonce and the ciphertext.
pub struct TransportMsg {
    pub nonce: u64,
    pub data: Vec<u8>,
}

/// The wire bytes of a frame: the nonce little-endian, then the data.
pub open spec fn frame_of(nonce: u64, data: Seq<u8>) -> Seq<u8> {
    u64_le_bytes(nonce) + data
}

impl TransportMsg {
    /// The wire bytes of this frame.
    pub open spec fn wire(&self) -> Seq<u8> {
        frame_of(self.nonce, self.data@)
    }

    /// Encode the frame for the wire.
    pub fn encode(&self) -> (r: Vec<u8>)
        ensures
            r@ == self.wire(),
    {
        let mut out: Vec<u8> = Vec::new();
        push_u64_le(&mut out, self.nonce);
        crate::bytes::append_bytes(&mut out, self.data.as_slice());
        out
    }

    /// Decode a frame from wire bytes: fails exactly on fewer than 8
    /// bytes, and inverts `encode`.
    pub fn decode(wire: &[u8]) -> (r: Result<TransportMsg, Error>)
        ensures
            (match r {
                Ok(msg) => wire@.len() >= 8 && msg.nonce == le_bytes_u64(wire@.subrange(0, 8))
                    && msg.data@ == wire@.subrange(8, wire@.len() as int) && msg.wire() == wire@,
                Err(e) => e == Error::Input && wire@.len() < 8,
            }),
    {
        if wire.len() < 8 {
            return Err(Error::Input);
        }
        let nonce = read_u64_le(wire, 0);
        let data = subvec(wire, 8, wire.len());
        proof {
            lemma_u64_le_bytes_roundtrip_here(wire@);
        }
        Ok(TransportMsg { nonce, data })
    }
}

/// Helper: the first 8 bytes of a frame are the little-endian bytes of
/// the nonce they denote, so decoding and re-encoding yields the frame.
proof fn lemma_u64_le_bytes_roundtrip_here(w: Seq<u8>)
    requires
        w.len() >= 8,
    ensures
        frame_of(le_bytes_u64(w.subrange(0, 8)), w.subrange(8, w.len() as int)) == w,
{
    crate::bytes::lemma_u64_le_bytes_roundtrip(w.subrange(0, 8));
    assert(u64_le_bytes(le_bytes_u64(w.subrange(0, 8))) + w.subrange(8, w.len() as int) =~= w);
}

/// What `read_message` decides for a transport `t` and frame `f`.
pub enum RecvOutcome {
    /// Fewer than 8 bytes: no nonce to read.
    TooShort,
    /// The frame's nonce lies behind the receive counter: a replay or
    /// stale reordering, silently dropped.
    Replay,
    /// The frame names the reserved top nonce.
    Exhausted,
    /// The tag did not verify under the frame's nonce.
    BadTag,
    /// The recovered plaintext.
    Accept(Seq<u8>),
}

/// The outcome of reading frame `f` in state `t`.
pub open spec fn recv_outcome(t: TransportModel, f: Seq<u8>) -> RecvOutcome {
    if f.len() < 8 {
        RecvOutcome::TooShort
    } else {
        let nonce = le_bytes_u64(f.subrange(0, 8));
        let ct = f.subrange(8, f.len() as int);
        if nonce < t.recv.n {
            RecvOutcome::Replay
        } else if nonce == u64::MAX {
            RecvOutcome::Exhausted
        } else {
            match open_of(t.recv.k, nonce_bytes(nonce), Seq::empty(), ct) {
                Some(p) => RecvOutcome::Accept(p),
                None => RecvOutcome::BadTag,
            }
        }
    }
}

/// The state after reading frame `f` in state `t`: only an accepted
/// frame moves the receive counter, to just past the frame's nonce.
pub open spec fn recv_next(t: TransportModel, f: Seq<u8>) -> TransportModel {
    match recv_outcome(t, f) {
        RecvOutcome::Accept(p) => TransportModel {
            recv: CipherModel {
                k: t.recv.k,
                n: (le_bytes_u64(f.subrange(0, 8)) + 1) as u64,
            },
            ..t
        },
        _ => t,
    }
}

/// Whether sending plaintext `pt` in state `t` succeeds.
pub open spec fn send_ok(t: TransportModel, pt: Seq<u8>) -> bool {
    pt.len() <= MAX_TRANSPORT_PAYLOAD && t.send.n < u64::MAX
}

/// The frame emitted for plaintext `pt` in state `t`.
pub open spec fn sent_frame(t: TransportModel, pt: Seq<u8>) -> Seq<u8> {
    frame_of(t.send.n, seal_of(t.send.k, nonce_bytes(t.send.n), Seq::empty(), pt))
}

/// The state after sending: the send counter advances by one.
pub open spec fn sent_next(t: TransportModel, pt: Seq<u8>) -> TransportModel {
    TransportModel { send: CipherModel { k: t.send.k, n: (t.send.n + 1) as u64 }, ..t }
}

/// A framed bidirectional Noise session after `split`.
pub struct Transport {
    rs: Vec<u8>,
    send: CipherState,
    recv: CipherState,
}

impl View for Transport {
    type V = TransportModel;

    closed spec fn view(&self) -> TransportModel {
        TransportModel { rs: self.rs@, send: self.send@, recv: self.recv@ }
    }
}

impl Transport {
    /// Whether the transport is well formed.
    pub open spec fn wf(&self) -> bool {
        self@.rs.len() == 32 && self@.send.k.len() == 32 && self@.recv.k.len() == 32
    }

    /// A transport over the given remote static key and directional
    /// cipher states.
    pub fn new(rs: Vec<u8>, send: CipherState, recv: CipherState) -> (r: Transport)
        requires
            rs@.len() == 32,
            send.wf(),
            recv.wf(),
        ensures
            r@.rs == rs@,
            r@.send == send@,
            r@.recv == recv@,
            r.wf(),
    {
        Transport { rs, send, recv }
    }

    /// The peer's static Curve25519 public key.
    pub fn remote_static(&self) -> (r: Vec<u8>)
        ensures
            r@ == self@.rs,
    {
        crate::bytes::copy_bytes(&self.rs)
    }

    /// The counter the next outbound frame will carry.
    pub fn sending_nonce(&self) -> (r: u64)
        ensures
            r == self@.send.n,
    {
        self.send.counter()
    }

    /// The lowest nonce the next inbound frame may carry.
    pub fn receiving_nonce(&self) -> (r: u64)
        ensures
            r == self@.recv.n,
    {
        self.recv.counter()
    }

    /// Encrypt `payload` into a wire frame and advance the send counter.
    ///
    /// Succeeds exactly when the payload is within the ceiling and the
    /// counter has not been exhausted; the emitted frame carries the old
    /// counter as its explicit nonce, and decrypts back to the payload
    /// under the send key and that nonce. On failure the transport is
    /// unchanged.
    pub fn write_message(&mut self, payload: &[u8]) -> (r: Result<Vec<u8>, Error>)
        requires
            old(self).wf(),
        ensures
            final(self).wf(),
            final(self)@.rs == old(self)@.rs,
            final(self)@.recv == old(self)@.recv,
            final(self)@.send.k == old(self)@.send.k,
            (match r {
                Ok(frame) => send_ok(old(self)@, payload@) && frame@.len() == payload@.len() + 24
                    && frame@ == sent_frame(old(self)@, payload@) && final(self)@ == sent_next(
                    old(self)@,
                    payload@,
                ) && open_of(
                    old(self)@.send.k,
                    nonce_bytes(old(self)@.send.n),
                    Seq::empty(),
                    frame@.subrange(8, frame@.len() as int),
                ) == Some(payload@),
                Err(e) => e == Error::Input && !send_ok(old(self)@, payload@) && final(self)@
                    == old(self)@,
            }),
    {
        if payload.len() > MAX_TRANSPORT_PAYLOAD {
            return Err(Error::Input);
        }
        let nonce = self.send.counter();
        let empty: Vec<u8> = Vec::new();
        assert(empty@ =~= Seq::<u8>::empty());
        let ct = match self.send.encrypt_with_ad(&empty, payload) {
            Ok(ct) => ct,
            Err(e) => {
                return Err(e);
            },
        };
        let msg = TransportMsg { nonce, data: ct };
        let frame = msg.encode();
        assert(frame@.subrange(8, frame@.len() as int) =~= msg.data@);
        Ok(frame)
    }

    /// Read one wire frame: adopt its explicit nonce if it makes
    /// progress, decrypt under it, and return the plaintext.
    ///
    /// `Ok(None)` is a silently dropped replay (the nonce lies behind the
    /// receive counter); `Err(Decrypt)` is a tag failure; `Err(Input)` a
    /// truncated frame or the reserved nonce. In every case but success
    /// the transport is left exactly as it was.
    pub fn read_message(&mut self, frame: &[u8]) -> (r: Result<Option<Vec<u8>>, Error>)
        requires
            old(self).wf(),
            frame@.len() <= MAX_AEAD_LEN,
        ensures
            final(self).wf(),
            final(self)@ == recv_next(old(self)@, frame@),
            final(self)@.rs == old(self)@.rs,
            final(self)@.send == old(self)@.send,
            final(self)@.recv.k == old(self)@.recv.k,
            (match r {
                Ok(Some(p)) => recv_outcome(old(self)@, frame@) == RecvOutcome::Accept(p@),
                Ok(None) => recv_outcome(old(self)@, frame@) == RecvOutcome::Replay
                    && final(self)@ == old(self)@,
                Err(e) => final(self)@ == old(self)@ && (if e == Error::Decrypt {
                    recv_outcome(old(self)@, frame@) == RecvOutcome::BadTag
                } else {
                    e == Error::Input && (recv_outcome(old(self)@, frame@)
                        == RecvOutcome::TooShort || recv_outcome(old(self)@, frame@)
                        == RecvOutcome::Exhausted)
                }),
            }),
    {
        let msg = match TransportMsg::decode(frame) {
            Ok(msg) => msg,
            Err(e) => {
                return Err(e);
            },
        };
        let current = self.recv.counter();
        if msg.nonce < current {
            return Ok(None);
        }
        if msg.nonce == u64::MAX {
            return Err(Error::Input);
        }
        self.recv.set_counter(msg.nonce);
        let empty: Vec<u8> = Vec::new();
        assert(empty@ =~= Seq::<u8>::empty());
        match self.recv.decrypt_with_ad(&empty, msg.data.as_slice()) {
            Ok(p) => Ok(Some(p)),
            Err(e) => {
                self.recv.set_counter(current);
                proof {
                    assert(final(self)@ =~= old(self)@);
                }
                Err(e)
            },
        }
    }
}

/// Replay rejection: once a frame has been accepted, reading the very
/// same frame again yields no plaintext and leaves the receiver's state,
/// its counter included, unchanged. This holds for any later state of the
/// same session, since the receive counter never moves backwards.
pub proof fn lemma_replay_rejected(t0: TransportModel, f: Seq<u8>, t1: TransportModel)
    requires
        recv_outcome(t0, f) is Accept,
        t1.recv.n >= recv_next(t0, f).recv.n,
    ensures
        recv_outcome(t1, f) == RecvOutcome::Replay,
        recv_next(t1, f) == t1,
{
}

/// Progress only forward: whatever a frame holds, the receive counter
/// never decreases.
pub proof fn lemma_recv_counter_monotonic(t: TransportModel, f: Seq<u8>)
    ensures
        recv_next(t, f).recv.n >= t.recv.n,
        recv_next(t, f).recv.k == t.recv.k,
{
}

/// The nonces of a run of sends, starting in state `t`: each send emits
/// the current counter.
pub open spec fn sent_nonces(t: TransportModel, payloads: Seq<Seq<u8>>) -> Seq<u64>
    decreases payloads.len(),
{
    if payloads.len() == 0 {
        Seq::empty()
    } else {
        seq![t.send.n] + sent_nonces(sent_next(t, payloads[0]), payloads.drop_first())
    }
}

/// Whether a whole run of sends succeeds from state `t`.
pub open spec fn sends_ok(t: TransportModel, payloads: Seq<Seq<u8>>) -> bool
    decreases payloads.len(),
{
    payloads.len() == 0 || (send_ok(t, payloads[0]) && sends_ok(
        sent_next(t, payloads[0]),
        payloads.drop_first(),
    ))
}

/// Nonce monotonicity: across any successful send sequence the emitted
/// nonces are consecutive from the starting counter — `0, 1, 2, ...` for
/// a fresh transport — and strictly increasing; and a send with the
/// counter at its reserved top value fails.
pub proof fn lemma_nonce_monotonic(t: TransportModel, payloads: Seq<Seq<u8>>)
    requires
        sends_ok(t, payloads),
    ensures
        sent_nonces(t, payloads).len() == payloads.len(),
        forall|i: int|
            0 <= i < payloads.len() ==> sent_nonces(t, payloads)[i] == t.send.n + i,
        forall|pt: Seq<u8>| t.send.n == u64::MAX ==> !send_ok(t, pt),
    decreases payloads.len(),
{
    if payloads.len() > 0 {
        let t1 = sent_next(t, payloads[0]);
        lemma_nonce_monotonic(t1, payloads.drop_first());
        assert forall|i: int| 0 <= i < payloads.len() implies sent_nonces(t, payloads)[i]
            == t.send.n + i by {
            if i > 0 {
                assert(sent_nonces(t, payloads)[i] == sent_nonces(t1, payloads.drop_first())[i
                    - 1]);
            }
        }
    }
}

} // verus!
