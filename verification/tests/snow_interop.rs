//! Interoperability against an independent Noise implementation: each
//! side of the XX exchange talks to the other library's peer, and the
//! split transports carry data both ways.

use liot::crypto::pub_key;
use liot::handshake::HandshakeXX;

const PATTERN: &str = "Noise_XX_25519_ChaChaPoly_BLAKE2s";

#[test]
fn our_initiator_against_their_responder() {
    let e_i = vec![0xa1u8; 32];
    let s_i = vec![0xa2u8; 32];
    let s_r = vec![0xa3u8; 32];
    let prologue = b"interop";

    let mut init = HandshakeXX::init(e_i, s_i.clone(), prologue);
    let mut resp = snow::Builder::new(PATTERN.parse().unwrap())
        .local_private_key(&s_r)
        .unwrap()
        .prologue(prologue)
        .unwrap()
        .build_responder()
        .unwrap();
    let mut buf = [0u8; 1024];

    let m1 = init.write_message(b"").unwrap();
    resp.read_message(&m1, &mut buf).unwrap();

    let n = resp.write_message(b"", &mut buf).unwrap();
    let p = init.read_message(&buf[..n]).unwrap();
    assert!(p.is_empty());

    let m3 = init.write_message(b"").unwrap();
    resp.read_message(&m3, &mut buf).unwrap();

    let mut ours = init.upgrade().unwrap();
    let mut theirs = resp.into_transport_mode().unwrap();

    // each side learned the other's static public key
    assert_eq!(ours.remote_static(), pub_key(&s_r));
    assert_eq!(theirs.get_remote_static().unwrap(), pub_key(&s_i).as_slice());

    // ours -> theirs: the frame is the raw Noise message behind an
    // 8-byte little-endian nonce
    let frame = ours.write_message(b"hello out there").unwrap();
    let n = theirs.read_message(&frame[8..], &mut buf).unwrap();
    assert_eq!(&buf[..n], b"hello out there");

    // theirs -> ours: wrap their raw message in our framing
    let n = theirs.write_message(b"hello back", &mut buf).unwrap();
    let mut framed = 0u64.to_le_bytes().to_vec();
    framed.extend_from_slice(&buf[..n]);
    let p = ours.read_message(&framed).unwrap().unwrap();
    assert_eq!(p, b"hello back");
}

#[test]
fn their_initiator_against_our_responder() {
    let s_i = vec![0xb1u8; 32];
    let e_r = vec![0xb2u8; 32];
    let s_r = vec![0xb3u8; 32];
    let prologue = b"interop-mirrored";

    let mut init = snow::Builder::new(PATTERN.parse().unwrap())
        .local_private_key(&s_i)
        .unwrap()
        .prologue(prologue)
        .unwrap()
        .build_initiator()
        .unwrap();
    let mut resp = HandshakeXX::resp(e_r, s_r.clone(), prologue);
    let mut buf = [0u8; 1024];

    let n = init.write_message(b"", &mut buf).unwrap();
    let p = resp.read_message(&buf[..n]).unwrap();
    assert!(p.is_empty());

    let m2 = resp.write_message(b"").unwrap();
    init.read_message(&m2, &mut buf).unwrap();

    let n = init.write_message(b"", &mut buf).unwrap();
    let p = resp.read_message(&buf[..n]).unwrap();
    assert!(p.is_empty());

    let mut theirs = init.into_transport_mode().unwrap();
    let mut ours = resp.upgrade().unwrap();

    assert_eq!(ours.remote_static(), pub_key(&s_i));
    assert_eq!(theirs.get_remote_static().unwrap(), pub_key(&s_r).as_slice());

    let n = theirs.write_message(b"ping", &mut buf).unwrap();
    let mut framed = 0u64.to_le_bytes().to_vec();
    framed.extend_from_slice(&buf[..n]);
    let p = ours.read_message(&framed).unwrap().unwrap();
    assert_eq!(p, b"ping");

    let frame = ours.write_message(b"pong").unwrap();
    let n = theirs.read_message(&frame[8..], &mut buf).unwrap();
    assert_eq!(&buf[..n], b"pong");
}
