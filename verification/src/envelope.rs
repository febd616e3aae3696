//! The broadcast-medium envelope: every radio frame names a target
//! address and carries either a pairing `Hello` or an opaque data
//! payload.
//!
//! The wire form is a compact binary encoding: the 6 address bytes, a
//! one-byte variant tag (0 for `Hello`, 1 for `Data`), and for data the
//! payload length as a little-endian base-128 varint followed by the
//! payload itself. Decoding is specified as a pure parser and proved to
//! invert encoding.

use vstd::prelude::*;
use crate::bytes::{append_bytes, subvec};

verus! {

/// Length of a link-layer address.
pub const ADDR_LEN: usize = 6;

/// The broadcast address: six `0xff` bytes.
pub open spec fn broadcast_addr() -> Seq<u8> {
    Seq::new(6, |i: int| 0xffu8)
}

/// The broadcast address as a vector.
pub fn broadcast_addr_bytes() -> (r: Vec<u8>)
    ensures
        r@ == broadcast_addr(),
{
    let mut v: Vec<u8> = Vec::new();
    let mut i: usize = 0;
    while i < 6
        invariant
            i <= 6,
            v@.len() == i,
            forall|j: int| 0 <= j < i ==> v@[j] == 0xffu8,
        decreases 6 - i,
    {
        v.push(0xffu8);
        i = i + 1;
    }
    assert(v@ =~= broadcast_addr());
    v
}

/// The largest data payload an envelope may carry: its length always
/// fits a two-byte varint.
pub const MAX_ENVELOPE_DATA: usize = 16383;

/// What an envelope carries: a pairing advertisement or opaque bytes.
pub enum EspNowPacketData {
    Hello,
    Data(Vec<u8>),
}

/// Model of the payload.
pub enum PayloadModel {
    Hello,
    Data(Seq<u8>),
}

impl View for EspNowPacketData {
    type V = PayloadModel;

    closed spec fn view(&self) -> PayloadModel {
        match self {
            EspNowPacketData::Hello => PayloadModel::Hello,
            EspNowPacketData::Data(d) => PayloadModel::Data(d@),
        }
    }
}

/// A broadcast frame: the address it is meant for, and its payload.
pub struct EspNowPacket {
    pub addr: Vec<u8>,
    pub data: EspNowPacketData,
}

/// Model of a frame.
#[verifier::ext_equal]
pub struct PacketModel {
    pub addr: Seq<u8>,
    pub data: PayloadModel,
}

impl View for EspNowPacket {
    type V = PacketModel;

    closed spec fn view(&self) -> PacketModel {
        PacketModel { addr: self.addr@, data: self.data@ }
    }
}

/// Whether a frame model is well formed: a 6-byte address and a payload
/// within the ceiling.
pub open spec fn packet_wf(p: PacketModel) -> bool {
    p.addr.len() == 6 && (match p.data {
        PayloadModel::Hello => true,
        PayloadModel::Data(d) => d.len() <= MAX_ENVELOPE_DATA,
    })
}

/// The little-endian base-128 varint of `n`.
pub open spec fn varint_of(n: nat) -> Seq<u8>
    decreases n,
{
    if n < 128 {
        seq![n as u8]
    } else {
        seq![(128 + (n % 128)) as u8] + varint_of(n / 128)
    }
}

/// The wire bytes of a payload.
pub open spec fn payload_bytes(p: PayloadModel) -> Seq<u8> {
    match p {
        PayloadModel::Hello => seq![0u8],
        PayloadModel::Data(d) => seq![1u8] + varint_of(d.len()) + d,
    }
}

/// The wire bytes of a frame.
pub open spec fn envelope_bytes(p: PacketModel) -> Seq<u8> {
    p.addr + payload_bytes(p.data)
}

/// Parse a varint of at most two bytes at `pos`: the value and the
/// position after it. Values above the envelope ceiling are rejected.
pub open spec fn parse_varint(s: Seq<u8>, pos: int) -> Option<(nat, int)> {
    if !(0 <= pos < s.len()) {
        None
    } else if s[pos] < 128 {
        Some((s[pos] as nat, pos + 1))
    } else if pos + 1 < s.len() && s[pos + 1] < 128 {
        Some((((s[pos] - 128) + 128 * s[pos + 1]) as nat, pos + 2))
    } else {
        None
    }
}

/// Parse a whole frame: the address, the tag, and for data the length
/// and payload; anything malformed or trailing is rejected.
pub open spec fn parse_envelope(s: Seq<u8>) -> Option<PacketModel> {
    if s.len() < 7 {
        None
    } else {
        let addr = s.subrange(0, 6);
        if s[6] == 0 {
            if s.len() == 7 {
                Some(PacketModel { addr, data: PayloadModel::Hello })
            } else {
                None
            }
        } else if s[6] == 1 {
            match parse_varint(s, 7) {
                Some((len, p)) => if s.len() - p == len {
                    Some(
                        PacketModel {
                            addr,
                            data: PayloadModel::Data(s.subrange(p, s.len() as int)),
                        },
                    )
                } else {
                    None
                },
                None => None,
            }
        } else {
            None
        }
    }
}

/// Append the varint of `n` (at most two bytes) to `out`.
fn push_varint(out: &mut Vec<u8>, n: usize)
    requires
        n <= MAX_ENVELOPE_DATA,
    ensures
        final(out)@ == old(out)@ + varint_of(n as nat),
{
    if n < 128 {
        out.push(n as u8);
        assert(final(out)@ =~= old(out)@ + varint_of(n as nat));
    } else {
        out.push((128 + (n % 128)) as u8);
        out.push((n / 128) as u8);
        proof {
            assert(n / 128 >= 1 && n / 128 < 128);
            assert(varint_of((n / 128) as nat) =~= seq![(n / 128) as u8]);
            assert(final(out)@ =~= old(out)@ + varint_of(n as nat));
        }
    }
}

impl EspNowPacket {
    /// Whether the frame is well formed.
    pub open spec fn wf(&self) -> bool {
        packet_wf(self@)
    }

    /// Encode the frame for the radio.
    pub fn encode(&self) -> (r: Vec<u8>)
        requires
            self.wf(),
        ensures
            r@ == envelope_bytes(self@),
    {
        let mut out = crate::bytes::copy_bytes(&self.addr);
        match &self.data {
            EspNowPacketData::Hello => {
                out.push(0u8);
                assert(out@ =~= envelope_bytes(self@));
            },
            EspNowPacketData::Data(d) => {
                out.push(1u8);
                push_varint(&mut out, d.len());
                append_bytes(&mut out, d.as_slice());
                proof {
                    assert(out@ =~= envelope_bytes(self@));
                }
            },
        }
        out
    }

    /// Decode a radio frame; yields exactly what the pure parser does.
    pub fn decode(wire: &[u8]) -> (r: Option<EspNowPacket>)
        ensures
            (match r {
                Some(p) => parse_envelope(wire@) == Some(p@) && p.wf(),
                None => parse_envelope(wire@) is None,
            }),
    {
        if wire.len() < 7 {
            return None;
        }
        let addr = subvec(wire, 0, 6);
        let tag = wire[6];
        if tag == 0 {
            if wire.len() == 7 {
                Some(EspNowPacket { addr, data: EspNowPacketData::Hello })
            } else {
                None
            }
        } else if tag == 1 {
            if wire.len() == 7 {
                return None;
            }
            let b0 = wire[7];
            let (len, p): (usize, usize) = if b0 < 128 {
                (b0 as usize, 8)
            } else {
                if wire.len() > 8 && wire[8] < 128 {
                    ((b0 - 128) as usize + 128 * (wire[8] as usize), 9)
                } else {
                    return None;
                }
            };
            if wire.len() - p == len {
                let data = subvec(wire, p, wire.len());
                Some(EspNowPacket { addr, data: EspNowPacketData::Data(data) })
            } else {
                None
            }
        } else {
            None
        }
    }
}

/// What a broadcast channel does with one queued frame.
pub enum FrameDisposition {
    /// A broadcast `Hello`: answer it with a directed `Hello`.
    RespondHello,
    /// Data addressed to this node: hand the bytes up.
    Deliver(Vec<u8>),
    /// Anything else: drop it silently.
    Ignore,
}

/// Sort one queued frame: a broadcast `Hello` is answered, data aimed
/// at this node is delivered, and every other envelope — malformed,
/// directed elsewhere, or a directed `Hello` — is silently discarded.
pub fn classify_frame(wire: &[u8], local_addr: &[u8]) -> (r: FrameDisposition)
    ensures
        (match parse_envelope(wire@) {
            None => r is Ignore,
            Some(pkt) => (match pkt.data {
                PayloadModel::Hello => if pkt.addr == broadcast_addr() {
                    r is RespondHello
                } else {
                    r is Ignore
                },
                PayloadModel::Data(d) => if pkt.addr == local_addr@ {
                    r matches FrameDisposition::Deliver(p) && p@ == d
                } else {
                    r is Ignore
                },
            }),
        }),
{
    let pkt = match EspNowPacket::decode(wire) {
        Some(p) => p,
        None => {
            return FrameDisposition::Ignore;
        },
    };
    let broadcast = broadcast_addr_bytes();
    match pkt.data {
        EspNowPacketData::Hello => {
            if crate::bytes::bytes_eq(pkt.addr.as_slice(), broadcast.as_slice()) {
                FrameDisposition::RespondHello
            } else {
                FrameDisposition::Ignore
            }
        },
        EspNowPacketData::Data(d) => {
            if crate::bytes::bytes_eq(pkt.addr.as_slice(), local_addr) {
                FrameDisposition::Deliver(d)
            } else {
                FrameDisposition::Ignore
            }
        },
    }
}

/// The advertisement frame: a `Hello` aimed at the broadcast address.
pub fn advertise_frame() -> (r: Vec<u8>)
    ensures
        r@ == envelope_bytes(PacketModel { addr: broadcast_addr(), data: PayloadModel::Hello }),
{
    let pkt = EspNowPacket { addr: broadcast_addr_bytes(), data: EspNowPacketData::Hello };
    pkt.encode()
}

/// A directed `Hello`, answering a peer's advertisement.
pub fn hello_frame(target: &[u8]) -> (r: Vec<u8>)
    requires
        target@.len() == ADDR_LEN,
    ensures
        r@ == envelope_bytes(PacketModel { addr: target@, data: PayloadModel::Hello }),
{
    let addr = subvec(target, 0, target.len());
    assert(addr@ =~= target@);
    let pkt = EspNowPacket { addr, data: EspNowPacketData::Hello };
    pkt.encode()
}

/// A data frame aimed at `target`.
pub fn data_frame(target: &[u8], payload: &[u8]) -> (r: Vec<u8>)
    requires
        target@.len() == ADDR_LEN,
        payload@.len() <= MAX_ENVELOPE_DATA,
    ensures
        r@ == envelope_bytes(
            PacketModel { addr: target@, data: PayloadModel::Data(payload@) },
        ),
{
    let addr = subvec(target, 0, target.len());
    assert(addr@ =~= target@);
    let data = subvec(payload, 0, payload.len());
    assert(data@ =~= payload@);
    let pkt = EspNowPacket { addr, data: EspNowPacketData::Data(data) };
    pkt.encode()
}

/// Decoding inverts encoding: a well-formed frame's wire bytes parse
/// back to exactly that frame.
pub proof fn lemma_envelope_roundtrip(p: PacketModel)
    requires
        packet_wf(p),
    ensures
        parse_envelope(envelope_bytes(p)) == Some(p),
{
    let s = envelope_bytes(p);
    assert(s.subrange(0, 6) =~= p.addr);
    match p.data {
        PayloadModel::Hello => {
            assert(s.len() == 7);
            assert(s[6] == 0);
            assert(parse_envelope(s) =~= Some(p));
        },
        PayloadModel::Data(d) => {
            assert(s[6] == 1);
            let n = d.len();
            if n < 128 {
                assert(varint_of(n) =~= seq![n as u8]);
                assert(s[7] == n as u8);
                assert(parse_varint(s, 7) == Some((n, 8int)));
                assert(s.subrange(8, s.len() as int) =~= d);
                assert(parse_envelope(s) =~= Some(p));
            } else {
                assert(varint_of((n / 128) as nat) =~= seq![(n / 128) as u8]);
                assert(varint_of(n) =~= seq![(128 + (n % 128)) as u8, (n / 128) as u8]);
                assert(s[7] == (128 + (n % 128)) as u8);
                assert(s[8] == (n / 128) as u8);
                assert(s[8] < 128);
                assert((s[7] - 128) + 128 * s[8] == n);
                assert(parse_varint(s, 7) == Some((n, 9int)));
                assert(s.subrange(9, s.len() as int) =~= d);
                assert(parse_envelope(s) =~= Some(p));
            }
        },
    }
}

} // verus!
