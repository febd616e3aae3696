//! The broadcast demultiplexer: pairing hellos, per-peer isolation,
//! pruning, and the envelope codec against its reference encoding.

use liot::demux::Demux;
use liot::envelope::{
    advertise_frame,
    classify_frame,
    data_frame,
    hello_frame,
    EspNowPacket,
    EspNowPacketData,
    FrameDisposition,
};

const A: [u8; 6] = [0x10, 0x20, 0x30, 0x40, 0x50, 0x60];
const B: [u8; 6] = [0x0a, 0x0b, 0x0c, 0x0d, 0x0e, 0x0f];
const C: [u8; 6] = [0x99, 0x98, 0x97, 0x96, 0x95, 0x94];

#[test]
fn hello_handshake_surfaces_channels_on_both_sides() {
    let mut demux_a = Demux::new(A.to_vec());
    let mut demux_b = Demux::new(B.to_vec());

    // node A broadcasts Hello; B's demux hears it from A's address
    let adv = advertise_frame();
    demux_b.on_frame(&A, &adv);
    let incoming = demux_b.next_channel().unwrap();
    assert_eq!(incoming, A.to_vec());

    // B's channel answers with a directed Hello; A's demux hears it
    let queued = demux_b.pop_frame(&A).unwrap();
    match classify_frame(&queued, &B) {
        FrameDisposition::RespondHello => {},
        _ => panic!("a broadcast hello should be answered"),
    }
    let reply = hello_frame(&A);
    demux_a.on_frame(&B, &reply);
    let incoming = demux_a.next_channel().unwrap();
    assert_eq!(incoming, B.to_vec());
}

#[test]
fn frames_stay_in_their_peers_queue() {
    let mut demux = Demux::new(A.to_vec());
    demux.on_frame(&B, &data_frame(&A, b"from b"));
    demux.on_frame(&C, &data_frame(&A, b"from c"));

    let from_b = demux.pop_frame(&B).unwrap();
    match classify_frame(&from_b, &A) {
        FrameDisposition::Deliver(d) => assert_eq!(d, b"from b"),
        _ => panic!("data for this node should be delivered"),
    }
    let from_c = demux.pop_frame(&C).unwrap();
    match classify_frame(&from_c, &A) {
        FrameDisposition::Deliver(d) => assert_eq!(d, b"from c"),
        _ => panic!("data for this node should be delivered"),
    }
    // each queue held exactly its own peer's frame
    assert!(demux.pop_frame(&B).is_none());
    assert!(demux.pop_frame(&C).is_none());
}

#[test]
fn each_new_peer_surfaces_once() {
    let mut demux = Demux::new(A.to_vec());
    demux.on_frame(&B, &data_frame(&A, b"one"));
    demux.on_frame(&B, &data_frame(&A, b"two"));
    assert_eq!(demux.next_channel().unwrap(), B.to_vec());
    assert!(demux.next_channel().is_none());
    // both frames queued in order
    assert!(demux.pop_frame(&B).is_some());
    assert!(demux.pop_frame(&B).is_some());
    assert!(demux.pop_frame(&B).is_none());
}

#[test]
fn closed_channels_are_pruned() {
    let mut demux = Demux::new(A.to_vec());
    demux.on_frame(&B, &data_frame(&A, b"hello"));
    demux.close(&B);
    // the next event prunes B's slot and then recreates it fresh
    demux.on_frame(&B, &data_frame(&A, b"fresh"));
    let frame = demux.pop_frame(&B).unwrap();
    match classify_frame(&frame, &A) {
        FrameDisposition::Deliver(d) => assert_eq!(d, b"fresh"),
        _ => panic!("data for this node should be delivered"),
    }
    assert!(demux.pop_frame(&B).is_none());
}

#[test]
fn malformed_frames_change_nothing() {
    let mut demux = Demux::new(A.to_vec());
    demux.on_frame(&B, &[0x01, 0x02]);
    assert!(demux.next_channel().is_none());
    assert!(demux.pop_frame(&B).is_none());
}

#[test]
fn frames_for_other_nodes_are_discarded() {
    let mut demux = Demux::new(A.to_vec());
    demux.on_frame(&B, &data_frame(&C, b"not for us"));
    let frame = demux.pop_frame(&B).unwrap();
    assert!(matches!(classify_frame(&frame, &A), FrameDisposition::Ignore));
    // a directed hello is not answered, only a broadcast one
    let directed = hello_frame(&A);
    assert!(matches!(classify_frame(&directed, &A), FrameDisposition::Ignore));
}

#[test]
fn envelope_encoding_matches_reference_layout() {
    // the wire form coincides with the compact binary encoding of
    // (address, optional payload): 6 raw bytes, a one-byte tag, and for
    // data a varint length
    let hello = EspNowPacket { addr: A.to_vec(), data: EspNowPacketData::Hello };
    let reference = postcard::to_allocvec(&(A, None::<Vec<u8>>)).unwrap();
    assert_eq!(hello.encode(), reference);

    let payload = vec![7u8; 200];
    let data = EspNowPacket { addr: B.to_vec(), data: EspNowPacketData::Data(payload.clone()) };
    let reference = postcard::to_allocvec(&(B, Some(payload))).unwrap();
    assert_eq!(data.encode(), reference);
}

#[test]
fn envelope_round_trip() {
    let payload = (0u8..=255).collect::<Vec<u8>>();
    let pkt = EspNowPacket { addr: C.to_vec(), data: EspNowPacketData::Data(payload.clone()) };
    let wire = pkt.encode();
    let back = EspNowPacket::decode(&wire).unwrap();
    assert_eq!(back.addr, C.to_vec());
    match back.data {
        EspNowPacketData::Data(d) => assert_eq!(d, payload),
        EspNowPacketData::Hello => panic!("wrong payload variant"),
    }
    // decode rejects trailing garbage
    let mut long = pkt.encode();
    long.push(0);
    assert!(EspNowPacket::decode(&long).is_none());
}
