//! Transport-layer behaviour over an established session: replay
//! rejection, corrupt-frame recovery, and the nonce sequence.

use liot::session::establish_xx_pair;
use liot::transport::Transport;
use liot::Error;

fn pair() -> (Transport, Transport) {
    let e_i = vec![0x11u8; 32];
    let s_i = vec![0x22u8; 32];
    let e_r = vec![0x33u8; 32];
    let s_r = vec![0x44u8; 32];
    establish_xx_pair(e_i, s_i, e_r, s_r, b"pairing context").unwrap()
}

#[test]
fn replay_is_dropped_silently() {
    let (mut a, mut b) = pair();
    let f1 = a.write_message(b"first").unwrap();
    let f2 = a.write_message(b"second").unwrap();
    assert_eq!(b.read_message(&f1).unwrap().unwrap(), b"first");
    assert_eq!(b.read_message(&f2).unwrap().unwrap(), b"second");
    let n_recv = b.receiving_nonce();
    // redelivering the captured frame yields no value and leaves the
    // receive counter exactly where it was
    assert!(b.read_message(&f1).unwrap().is_none());
    assert_eq!(b.receiving_nonce(), n_recv);
    assert!(b.read_message(&f2).unwrap().is_none());
    assert_eq!(b.receiving_nonce(), n_recv);
}

#[test]
fn corrupt_frame_fails_and_state_recovers() {
    let (mut a, mut b) = pair();
    let mut f1 = a.write_message(b"healthy payload").unwrap();
    let n_recv = b.receiving_nonce();
    // flip one ciphertext byte
    f1[10] ^= 0x01;
    match b.read_message(&f1) {
        Err(Error::Decrypt) => {},
        other => panic!("corrupt frame gave {:?}", other.map(|_| ())),
    }
    assert_eq!(b.receiving_nonce(), n_recv);
    // a subsequent clean frame still decrypts
    let f2 = a.write_message(b"clean again").unwrap();
    assert_eq!(b.read_message(&f2).unwrap().unwrap(), b"clean again");
}

#[test]
fn nonces_count_up_from_zero() {
    let (mut a, mut b) = pair();
    for expected in 0u64..5 {
        assert_eq!(a.sending_nonce(), expected);
        let frame = a.write_message(b"tick").unwrap();
        let nonce = u64::from_le_bytes(frame[..8].try_into().unwrap());
        assert_eq!(nonce, expected);
        assert_eq!(b.read_message(&frame).unwrap().unwrap(), b"tick");
    }
    assert_eq!(a.sending_nonce(), 5);
}

#[test]
fn reordered_frames_are_recovered_and_old_ones_dropped() {
    let (mut a, mut b) = pair();
    let f0 = a.write_message(b"zero").unwrap();
    let f1 = a.write_message(b"one").unwrap();
    // deliver out of order: the newer frame first
    assert_eq!(b.read_message(&f1).unwrap().unwrap(), b"one");
    // the older frame now lies behind the counter and is dropped
    assert!(b.read_message(&f0).unwrap().is_none());
}

#[test]
fn oversized_payload_is_rejected() {
    let (mut a, _b) = pair();
    let big = vec![0u8; 225];
    match a.write_message(&big) {
        Err(Error::Input) => {},
        other => panic!("oversized send gave {:?}", other.map(|_| ())),
    }
    // the transport is still usable at the ceiling
    let limit = vec![0u8; 224];
    a.write_message(&limit).unwrap();
}

#[test]
fn truncated_frame_is_rejected() {
    let (_a, mut b) = pair();
    match b.read_message(&[1, 2, 3]) {
        Err(Error::Input) => {},
        other => panic!("short frame gave {:?}", other.map(|_| ())),
    }
}
