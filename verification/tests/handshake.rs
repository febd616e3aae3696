//! Handshake error paths: wrong-direction operations, short messages,
//! tag failures, and the snapshot-on-failure guarantee.

use liot::handshake::HandshakeXX;
use liot::Error;

fn keys(tag: u8) -> (Vec<u8>, Vec<u8>) {
    (vec![tag; 32], vec![tag.wrapping_add(1); 32])
}

#[test]
fn wrong_direction_is_not_my_turn() {
    let (e, s) = keys(1);
    let mut init = HandshakeXX::init(e, s, b"");
    match init.read_message(&[0u8; 96]) {
        Err(Error::NotMyTurn) => {},
        other => panic!("initiator read before writing gave {:?}", other.map(|_| ())),
    }
    let (e, s) = keys(3);
    let mut resp = HandshakeXX::resp(e, s, b"");
    match resp.write_message(b"") {
        Err(Error::NotMyTurn) => {},
        other => panic!("responder write before reading gave {:?}", other.map(|_| ())),
    }
}

#[test]
fn finished_handshake_needs_upgrade() {
    let (e_i, s_i) = keys(5);
    let (e_r, s_r) = keys(7);
    let mut init = HandshakeXX::init(e_i, s_i, b"");
    let mut resp = HandshakeXX::resp(e_r, s_r, b"");
    let m1 = init.write_message(b"").unwrap();
    resp.read_message(&m1).unwrap();
    let m2 = resp.write_message(b"").unwrap();
    init.read_message(&m2).unwrap();
    let m3 = init.write_message(b"").unwrap();
    resp.read_message(&m3).unwrap();
    match init.write_message(b"") {
        Err(Error::NeedUpgrade) => {},
        other => panic!("write after completion gave {:?}", other.map(|_| ())),
    }
    match resp.read_message(&m3) {
        Err(Error::NeedUpgrade) => {},
        other => panic!("read after completion gave {:?}", other.map(|_| ())),
    }
    init.upgrade().unwrap();
    resp.upgrade().unwrap();
}

#[test]
fn short_message_is_rejected() {
    let (e, s) = keys(9);
    let mut resp = HandshakeXX::resp(e, s, b"");
    match resp.read_message(&[0u8; 31]) {
        Err(Error::Input) => {},
        other => panic!("short first message gave {:?}", other.map(|_| ())),
    }
}

#[test]
fn unfinished_handshake_cannot_upgrade() {
    let (e, s) = keys(11);
    let init = HandshakeXX::init(e, s, b"");
    match init.upgrade() {
        Err(Error::NotMyTurn) => {},
        other => panic!("early upgrade gave {:?}", other.map(|_| ())),
    }
}

#[test]
fn corrupt_message_fails_and_state_recovers() {
    let (e_i, s_i) = keys(13);
    let (e_r, s_r) = keys(15);
    let mut init = HandshakeXX::init(e_i, s_i, b"");
    let mut resp = HandshakeXX::resp(e_r, s_r, b"");
    let m1 = init.write_message(b"").unwrap();
    resp.read_message(&m1).unwrap();
    let m2 = resp.write_message(b"").unwrap();

    // a flipped ciphertext byte fails the tag check ...
    let mut bad = m2.clone();
    bad[40] ^= 0x80;
    match init.read_message(&bad) {
        Err(Error::Decrypt) => {},
        other => panic!("corrupt second message gave {:?}", other.map(|_| ())),
    }
    // ... and the snapshot-restored state still accepts the real one
    init.read_message(&m2).unwrap();
    let m3 = init.write_message(b"").unwrap();
    resp.read_message(&m3).unwrap();
    let ti = init.upgrade().unwrap();
    let tr = resp.upgrade().unwrap();
    assert_eq!(ti.remote_static(), liot::crypto::pub_key(&vec![16u8; 32]));
    let _ = tr;
}

#[test]
fn mismatched_prologues_do_not_pair() {
    let (e_i, s_i) = keys(17);
    let (e_r, s_r) = keys(19);
    let mut init = HandshakeXX::init(e_i, s_i, b"context one");
    let mut resp = HandshakeXX::resp(e_r, s_r, b"context two");
    let m1 = init.write_message(b"").unwrap();
    resp.read_message(&m1).unwrap();
    let m2 = resp.write_message(b"").unwrap();
    match init.read_message(&m2) {
        Err(Error::Decrypt) => {},
        other => panic!("mismatched prologues gave {:?}", other.map(|_| ())),
    }
}
