//! An in-process pair of nodes: handshake over mirrored queues, then an
//! application message end to end.

use liot::channel::InternalConnection;
use liot::handshake::HandshakeXX;
use liot::message::{DeviceData, Message};
use liot::session::{establish_xx_pair, exchange_message};

#[test]
fn pair_authenticates_each_other() {
    let e_i = vec![1u8; 32];
    let s_i = vec![2u8; 32];
    let e_r = vec![3u8; 32];
    let s_r = vec![4u8; 32];
    let s_pub_i = liot::crypto::pub_key(&s_i);
    let s_pub_r = liot::crypto::pub_key(&s_r);
    let (ti, tr) = establish_xx_pair(e_i, s_i, e_r, s_r, b"").unwrap();
    assert_eq!(ti.remote_static(), s_pub_r);
    assert_eq!(tr.remote_static(), s_pub_i);
}

#[test]
fn update_message_round_trip() {
    let e_i = vec![5u8; 32];
    let s_i = vec![6u8; 32];
    let e_r = vec![7u8; 32];
    let s_r = vec![8u8; 32];
    let (mut ti, mut tr) = establish_xx_pair(e_i, s_i, e_r, s_r, b"room-7").unwrap();

    // Update(Environment { 23.4 C, 55.0 %, not dark }) in tenths
    let state = DeviceData::Environment { temperature: 234, humidity: 550, dark: false };
    let wire = Message::Update(state).to_json();
    let received = exchange_message(&mut ti, &mut tr, &wire).unwrap();
    let decoded = Message::from_json(&received).unwrap();
    match decoded {
        Message::Update(DeviceData::Environment { temperature, humidity, dark }) => {
            assert_eq!(temperature, 234);
            assert_eq!(humidity, 550);
            assert!(!dark);
        },
        _ => panic!("wrong variant came back"),
    }

    // and the other direction
    let reply = Message::Control(DeviceData::Light { state: Some(true), auto_control: None });
    let wire = reply.to_json();
    let received = exchange_message(&mut tr, &mut ti, &wire).unwrap();
    let decoded = Message::from_json(&received).unwrap();
    assert!(matches!(
        decoded,
        Message::Control(DeviceData::Light { state: Some(true), auto_control: None })
    ));
}

#[test]
fn handshake_over_internal_pair() {
    let (mut a, mut b) = InternalConnection::pair();
    // one side of the pair is the initiator, both see the sentinel peer
    assert!(a.is_init());
    assert!(!b.is_init());
    assert_eq!(a.remote_id(), b"internal");
    assert_eq!(b.remote_id(), b"internal");

    let mut init = HandshakeXX::init(vec![9u8; 32], vec![10u8; 32], b"internal");
    let mut resp = HandshakeXX::resp(vec![11u8; 32], vec![12u8; 32], b"internal");

    assert!(a.send(&mut b, init.write_message(b"").unwrap()));
    resp.read_message(&b.recv().unwrap()).unwrap();
    assert!(b.send(&mut a, resp.write_message(b"").unwrap()));
    init.read_message(&a.recv().unwrap()).unwrap();
    assert!(a.send(&mut b, init.write_message(b"").unwrap()));
    resp.read_message(&b.recv().unwrap()).unwrap();

    let mut ti = init.upgrade().unwrap();
    let mut tr = resp.upgrade().unwrap();

    // Update(Environment { 23.4 C, 55.0 %, not dark }) across the pair
    let state = DeviceData::Environment { temperature: 234, humidity: 550, dark: false };
    let wire = Message::Update(state).to_json();
    assert!(a.send(&mut b, ti.write_message(&wire).unwrap()));
    let payload = tr.read_message(&b.recv().unwrap()).unwrap().unwrap();
    let decoded = Message::from_json(&payload).unwrap();
    assert!(matches!(
        decoded,
        Message::Update(DeviceData::Environment { temperature: 234, humidity: 550, dark: false })
    ));
    // an empty pair end has nothing to receive
    assert!(a.recv().is_none());
}
