//! The capability-gated inbound dispatch: every frame received on an
//! open channel is decoded and checked against the access-control store
//! before anything happens.
//!
//! Control and update commands require the controller role, role-set
//! mutations the manager role, and anything else — a malformed frame or
//! an unauthorized peer — has no effect at all: the store is untouched
//! and no device action is handed back.

use vstd::prelude::*;
use crate::access::{is_sentinel, mqtt_id, AccessStore};
use crate::bytes::subvec;
use crate::message::{parse_message, DeviceData, Message, MessageModel};

verus! {

/// An ASCII whitespace byte, as trimmed from identities.
pub open spec fn is_space(b: u8) -> bool {
    b == 0x20 || (0x09 <= b && b <= 0x0d)
}

/// The identity with leading whitespace removed.
pub open spec fn trim_start_of(s: Seq<u8>) -> Seq<u8>
    decreases s.len(),
{
    if s.len() > 0 && is_space(s[0]) {
        trim_start_of(s.drop_first())
    } else {
        s
    }
}

/// The identity with trailing whitespace removed.
pub open spec fn trim_end_of(s: Seq<u8>) -> Seq<u8>
    decreases s.len(),
{
    if s.len() > 0 && is_space(s.last()) {
        trim_end_of(s.drop_last())
    } else {
        s
    }
}

/// The identity with surrounding whitespace removed.
pub open spec fn trim_of(s: Seq<u8>) -> Seq<u8> {
    trim_end_of(trim_start_of(s))
}

/// Remove surrounding ASCII whitespace from an identity.
pub fn trim_bytes(s: &[u8]) -> (r: Vec<u8>)
    ensures
        r@ == trim_of(s@),
{
    proof {
        assert(s@.skip(0) =~= s@);
    }
    let mut a: usize = 0;
    while a < s.len() && (s[a] == 0x20 || (0x09 <= s[a] && s[a] <= 0x0d))
        invariant
            a <= s@.len(),
            trim_start_of(s@) == trim_start_of(s@.skip(a as int)),
        decreases s@.len() - a,
    {
        proof {
            assert(s@.skip(a as int)[0] == s@[a as int]);
            assert(s@.skip(a as int).drop_first() =~= s@.skip(a as int + 1));
        }
        a = a + 1;
    }
    proof {
        if a < s@.len() {
            assert(trim_start_of(s@.skip(a as int)) == s@.skip(a as int));
        } else {
            assert(s@.skip(a as int).len() == 0);
        }
    }
    let mut b: usize = s.len();
    while b > a && (s[b - 1] == 0x20 || (0x09 <= s[b - 1] && s[b - 1] <= 0x0d))
        invariant
            a <= b <= s@.len(),
            trim_start_of(s@) == s@.skip(a as int),
            trim_end_of(s@.skip(a as int)) == trim_end_of(s@.subrange(a as int, b as int)),
        decreases b,
    {
        proof {
            assert(s@.subrange(a as int, b as int).last() == s@[b - 1]);
            assert(s@.subrange(a as int, b as int).drop_last() =~= s@.subrange(
                a as int,
                b as int - 1,
            ));
        }
        b = b - 1;
    }
    proof {
        let piece = s@.subrange(a as int, b as int);
        if b > a {
            assert(piece.last() == s@[b - 1]);
            assert(trim_end_of(piece) == piece);
        } else {
            assert(piece.len() == 0);
        }
        assert(s@.skip(s@.len() as int).len() == 0);
    }
    subvec(s, a, b)
}

/// What the dispatcher asks the device layer to do.
#[derive(Debug, Clone, Copy, PartialEq, Eq, Structural)]
pub enum HandlerAction {
    /// Apply a control command to the device.
    DeviceControl(DeviceData),
    /// Feed an inter-device state update to the device.
    DeviceUpdate(DeviceData),
    /// Nothing: the frame was malformed or the peer not authorized.
    NoAction,
}

/// Whether `peer` passes the controller gate of `store`.
pub open spec fn controller_ok(store: &AccessStore, peer: Seq<u8>) -> bool {
    is_sentinel(peer) || store.controllers().contains(peer)
}

/// Whether `peer` passes the manager gate of `store`.
pub open spec fn manager_ok(store: &AccessStore, peer: Seq<u8>) -> bool {
    peer == mqtt_id() || store.managers().contains(peer)
}

/// Dispatch one inbound frame from `peer_id`.
///
/// The frame is decoded by the message grammar; a `Control` or `Update`
/// from a peer holding the controller role becomes the matching device
/// action, a role mutation from a peer holding the manager role mutates
/// exactly the named set (with the identity trimmed of surrounding
/// whitespace), and everything else — malformed bytes, or a peer absent
/// from the gating role set — leaves the store untouched and yields no
/// action.
pub fn handle_inbound(store: &mut AccessStore, peer_id: &[u8], frame: &[u8]) -> (r: HandlerAction)
    requires
        old(store).wf(),
    ensures
        final(store).wf(),
        (match parse_message(frame@) {
            None => *final(store) == *old(store) && r == HandlerAction::NoAction,
            Some(m) => (match m {
                MessageModel::Control(d) => *final(store) == *old(store) && r == (if controller_ok(
                    old(store),
                    peer_id@,
                ) {
                    HandlerAction::DeviceControl(d)
                } else {
                    HandlerAction::NoAction
                }),
                MessageModel::Update(d) => *final(store) == *old(store) && r == (if controller_ok(
                    old(store),
                    peer_id@,
                ) {
                    HandlerAction::DeviceUpdate(d)
                } else {
                    HandlerAction::NoAction
                }),
                MessageModel::AddController(id) => r == HandlerAction::NoAction && role_sets_after(
                    *old(store),
                    *final(store),
                    peer_id@,
                    m,
                ),
                MessageModel::RemoveController(id) => r == HandlerAction::NoAction
                    && role_sets_after(*old(store), *final(store), peer_id@, m),
                MessageModel::AddSubscriber(id) => r == HandlerAction::NoAction && role_sets_after(
                    *old(store),
                    *final(store),
                    peer_id@,
                    m,
                ),
                MessageModel::RemoveSubscriber(id) => r == HandlerAction::NoAction
                    && role_sets_after(*old(store), *final(store), peer_id@, m),
                MessageModel::AddManager(id) => r == HandlerAction::NoAction && role_sets_after(
                    *old(store),
                    *final(store),
                    peer_id@,
                    m,
                ),
                MessageModel::RemoveManager(id) => r == HandlerAction::NoAction && role_sets_after(
                    *old(store),
                    *final(store),
                    peer_id@,
                    m,
                ),
            }),
        }),
{
    let msg = match Message::from_json(frame) {
        Some(m) => m,
        None => {
            return HandlerAction::NoAction;
        },
    };
    match msg {
        Message::Control(d) => {
            if store.is_controller(peer_id) {
                HandlerAction::DeviceControl(d)
            } else {
                HandlerAction::NoAction
            }
        },
        Message::Update(d) => {
            if store.is_controller(peer_id) {
                HandlerAction::DeviceUpdate(d)
            } else {
                HandlerAction::NoAction
            }
        },
        Message::AddController(id) => {
            if store.is_manager(peer_id) {
                let trimmed = trim_bytes(id.as_slice());
                store.add_controller(trimmed.as_slice());
            }
            HandlerAction::NoAction
        },
        Message::RemoveController(id) => {
            if store.is_manager(peer_id) {
                let trimmed = trim_bytes(id.as_slice());
                store.rm_controller(trimmed.as_slice());
            }
            HandlerAction::NoAction
        },
        Message::AddSubscriber(id) => {
            if store.is_manager(peer_id) {
                let trimmed = trim_bytes(id.as_slice());
                store.add_subscriber(trimmed.as_slice());
            }
            HandlerAction::NoAction
        },
        Message::RemoveSubscriber(id) => {
            if store.is_manager(peer_id) {
                let trimmed = trim_bytes(id.as_slice());
                store.rm_subscriber(trimmed.as_slice());
            }
            HandlerAction::NoAction
        },
        Message::AddManager(id) => {
            if store.is_manager(peer_id) {
                let trimmed = trim_bytes(id.as_slice());
                store.add_manager(trimmed.as_slice());
            }
            HandlerAction::NoAction
        },
        Message::RemoveManager(id) => {
            if store.is_manager(peer_id) {
                let trimmed = trim_bytes(id.as_slice());
                store.rm_manager(trimmed.as_slice());
            }
            HandlerAction::NoAction
        },
    }
}

/// How the four role sets stand after a role-mutation message: exactly
/// the named set changes, and only when the peer holds the manager
/// role.
pub open spec fn role_sets_after(
    before: AccessStore,
    after: AccessStore,
    peer: Seq<u8>,
    m: MessageModel,
) -> bool {
    if !manager_ok(&before, peer) {
        after == before
    } else {
        match m {
            MessageModel::AddController(id) => after.controllers() == before.controllers().insert(
                trim_of(id),
            ) && after.managers() == before.managers() && after.subscribers()
                == before.subscribers() && after.rfids() == before.rfids(),
            MessageModel::RemoveController(id) => after.controllers()
                == before.controllers().remove(trim_of(id)) && after.managers()
                == before.managers() && after.subscribers() == before.subscribers()
                && after.rfids() == before.rfids(),
            MessageModel::AddSubscriber(id) => after.subscribers() == before.subscribers().insert(
                trim_of(id),
            ) && after.managers() == before.managers() && after.controllers()
                == before.controllers() && after.rfids() == before.rfids(),
            MessageModel::RemoveSubscriber(id) => after.subscribers()
                == before.subscribers().remove(trim_of(id)) && after.managers()
                == before.managers() && after.controllers() == before.controllers()
                && after.rfids() == before.rfids(),
            MessageModel::AddManager(id) => after.managers() == before.managers().insert(
                trim_of(id),
            ) && after.controllers() == before.controllers() && after.subscribers()
                == before.subscribers() && after.rfids() == before.rfids(),
            MessageModel::RemoveManager(id) => after.managers() == before.managers().remove(
                trim_of(id),
            ) && after.controllers() == before.controllers() && after.subscribers()
                == before.subscribers() && after.rfids() == before.rfids(),
            _ => false,
        }
    }
}

} // verus!
