//! Channel decisions: initiator selection, the bounded queue, and the
//! short identity.

use liot::channel::{is_initializer, pub_topic, short_id, sub_topic, BoundedQueue};
use liot::crypto::{pub_key, to_base58};

#[test]
fn exactly_one_side_initiates() {
    let pairs: [([u8; 6], [u8; 6]); 3] = [
        ([1, 2, 3, 4, 5, 6], [1, 2, 3, 4, 5, 7]),
        ([0xff, 0, 0, 0, 0, 0], [0x01, 0xff, 0xff, 0xff, 0xff, 0xff]),
        ([9, 9, 9, 9, 9, 8], [9, 9, 9, 9, 9, 9]),
    ];
    for (x, y) in pairs {
        let a = is_initializer(&x, &y);
        let b = is_initializer(&y, &x);
        assert_ne!(a, b);
    }
    // the larger address starts the handshake
    assert!(is_initializer(&[2, 0, 0, 0, 0, 0], &[1, 0xff, 0xff, 0xff, 0xff, 0xff]));
}

#[test]
fn queue_is_fifo_and_bounded() {
    let mut q = BoundedQueue::new();
    for i in 0u8..12 {
        q.push(vec![i]);
    }
    // the eleventh and twelfth frames were dropped at capacity 10
    assert_eq!(q.len(), 10);
    for i in 0u8..10 {
        assert_eq!(q.pop().unwrap(), vec![i]);
    }
    assert!(q.pop().is_none());
}

#[test]
fn short_identity_is_a_base58_prefix() {
    let key = vec![0x5au8; 32];
    let public = pub_key(&key);
    let full = to_base58(&public);
    let short = short_id(&public);
    assert_eq!(short.len(), 6);
    assert_eq!(&full[..6], short.as_slice());
}

#[test]
fn cloud_bus_topics_derive_from_the_short_identity() {
    assert_eq!(pub_topic(b"Ab3xYz"), b"Ab3xYz/pub");
    assert_eq!(sub_topic(b"Ab3xYz"), b"Ab3xYz/sub");
}
