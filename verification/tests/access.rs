//! The access-control store and the gated dispatch: role membership,
//! sentinel bypasses, and silent denial of unauthorized commands.

use liot::access::AccessStore;
use liot::handler::{handle_inbound, HandlerAction};
use liot::message::{DeviceData, Message};

#[test]
fn roles_are_independent_sets() {
    let mut store = AccessStore::new();
    store.add_controller(b"peer-1");
    store.add_subscriber(b"peer-2");
    store.add_manager(b"peer-3");
    store.add_rfid(&[0xde, 0xad, 0xbe, 0xef]);

    assert!(store.is_controller(b"peer-1"));
    assert!(!store.is_controller(b"peer-2"));
    assert!(store.is_subscriber(b"peer-2"));
    assert!(!store.is_subscriber(b"peer-1"));
    assert!(store.is_manager(b"peer-3"));
    assert!(!store.is_manager(b"peer-1"));
    assert!(store.is_rfid(&[0xde, 0xad, 0xbe, 0xef]));
    assert!(!store.is_rfid(&[0xde, 0xad, 0xbe, 0xee]));

    store.rm_controller(b"peer-1");
    assert!(!store.is_controller(b"peer-1"));
    store.rm_rfid(&[0xde, 0xad, 0xbe, 0xef]);
    assert!(!store.is_rfid(&[0xde, 0xad, 0xbe, 0xef]));
}

#[test]
fn sentinels_bypass_the_right_sets() {
    let store = AccessStore::new();
    // the cloud bus behaves as a member of every set
    assert!(store.is_controller(b"mqtt"));
    assert!(store.is_subscriber(b"mqtt"));
    assert!(store.is_rfid(b"mqtt"));
    assert!(store.is_manager(b"mqtt"));
    // the in-process pair is trusted for everything but management
    assert!(store.is_controller(b"internal"));
    assert!(store.is_subscriber(b"internal"));
    assert!(store.is_rfid(b"internal"));
    assert!(!store.is_manager(b"internal"));
    // a stranger gets nothing
    assert!(!store.is_controller(b"stranger"));
    assert!(!store.is_subscriber(b"stranger"));
    assert!(!store.is_rfid(b"stranger"));
    assert!(!store.is_manager(b"stranger"));
}

#[test]
fn control_from_unauthorized_peer_is_dropped() {
    let mut store = AccessStore::new();
    let cmd = Message::Control(DeviceData::Switch { state: true }).to_json();
    let action = handle_inbound(&mut store, b"stranger", &cmd);
    assert_eq!(action, HandlerAction::NoAction);
}

#[test]
fn control_from_controller_reaches_the_device() {
    let mut store = AccessStore::new();
    store.add_controller(b"trusted");
    let cmd = Message::Control(DeviceData::Switch { state: true }).to_json();
    let action = handle_inbound(&mut store, b"trusted", &cmd);
    assert_eq!(action, HandlerAction::DeviceControl(DeviceData::Switch { state: true }));
    // updates are gated by the same role
    let upd = Message::Update(DeviceData::Motion { state: false }).to_json();
    let action = handle_inbound(&mut store, b"trusted", &upd);
    assert_eq!(action, HandlerAction::DeviceUpdate(DeviceData::Motion { state: false }));
}

#[test]
fn role_mutation_denied_for_non_manager() {
    let mut store = AccessStore::new();
    // peer X holds no role at all; its AddController must not change the set
    let msg = Message::AddController(b"Y".to_vec()).to_json();
    let action = handle_inbound(&mut store, b"X", &msg);
    assert_eq!(action, HandlerAction::NoAction);
    assert!(!store.is_controller(b"Y"));
}

#[test]
fn role_mutation_applied_for_manager() {
    let mut store = AccessStore::new();
    store.add_manager(b"boss");
    let msg = Message::AddController(b" new-peer ".to_vec()).to_json();
    handle_inbound(&mut store, b"boss", &msg);
    // the identity is trimmed before it is stored
    assert!(store.is_controller(b"new-peer"));

    let msg = Message::RemoveController(b"new-peer".to_vec()).to_json();
    handle_inbound(&mut store, b"boss", &msg);
    assert!(!store.is_controller(b"new-peer"));

    // the cloud-bus sentinel may manage as well
    let msg = Message::AddSubscriber(b"listener".to_vec()).to_json();
    handle_inbound(&mut store, b"mqtt", &msg);
    assert!(store.is_subscriber(b"listener"));

    // the in-process sentinel may not
    let msg = Message::AddSubscriber(b"sneaky".to_vec()).to_json();
    handle_inbound(&mut store, b"internal", &msg);
    assert!(!store.is_subscriber(b"sneaky"));
}

#[test]
fn malformed_frames_are_silently_discarded() {
    let mut store = AccessStore::new();
    store.add_manager(b"boss");
    let action = handle_inbound(&mut store, b"boss", b"{\"gibberish\":true}");
    assert_eq!(action, HandlerAction::NoAction);
    let action = handle_inbound(&mut store, b"boss", b"not json at all");
    assert_eq!(action, HandlerAction::NoAction);
}

#[test]
fn rfid_list_can_be_replaced_wholesale() {
    let mut store = AccessStore::new();
    store.add_rfid(&[1, 2, 3, 4]);
    store.add_rfid(&[5, 6, 7, 8]);
    assert!(store.is_rfid(&[1, 2, 3, 4]));
    // clear all cards at once
    store.set_rfid_list(&vec![]);
    assert!(!store.is_rfid(&[1, 2, 3, 4]));
    assert!(!store.is_rfid(&[5, 6, 7, 8]));
    // and install a fresh set
    store.set_rfid_list(&vec![vec![9, 9, 9, 9]]);
    assert!(store.is_rfid(&[9, 9, 9, 9]));
    assert!(!store.is_rfid(&[1, 2, 3, 4]));
}

#[test]
fn store_round_trips_through_member_lists() {
    let mut store = AccessStore::new();
    store.add_manager(b"m1");
    store.add_controller(b"c1");
    store.add_controller(b"c2");
    let rebuilt = AccessStore::from_lists(
        &vec![b"m1".to_vec()],
        &vec![b"c1".to_vec(), b"c2".to_vec()],
        &vec![],
        &vec![],
    );
    assert!(rebuilt.is_manager(b"m1"));
    assert!(rebuilt.is_controller(b"c1"));
    assert!(rebuilt.is_controller(b"c2"));
    assert!(!rebuilt.is_subscriber(b"c1"));
}
