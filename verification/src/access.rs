//! The role-based access-control store: four independent sets of peer
//! identities — managers, controllers, subscribers and authorized RFID
//! cards — with the fixed sentinel bypasses.
//!
//! The sentinel identity `mqtt` (the cloud bus) behaves as if present in
//! every set; `internal` (the in-process pair) behaves as if present in
//! all but the managers. Persistence of the sets is the embedding
//! program's concern; the store itself is pure state.

use vstd::prelude::*;
use crate::bytes::bytes_eq;

verus! {

/// The identity bytes of the cloud-bus sentinel, `mqtt`.
pub open spec fn mqtt_id() -> Seq<u8> {
    seq![109u8, 113, 116, 116]
}

/// The identity bytes of the in-process sentinel, `internal`.
pub open spec fn internal_id() -> Seq<u8> {
    seq![105u8, 110, 116, 101, 114, 110, 97, 108]
}

/// Whether `p` bypasses the controller, subscriber and rfid checks.
pub open spec fn is_sentinel(p: Seq<u8>) -> bool {
    p == mqtt_id() || p == internal_id()
}

/// The `mqtt` sentinel as a vector.
pub fn mqtt_bytes() -> (r: Vec<u8>)
    ensures
        r@ == mqtt_id(),
{
    let mut v: Vec<u8> = Vec::new();
    v.push(109u8);
    v.push(113u8);
    v.push(116u8);
    v.push(116u8);
    assert(v@ =~= mqtt_id());
    v
}

/// The `internal` sentinel as a vector.
pub fn internal_bytes() -> (r: Vec<u8>)
    ensures
        r@ == internal_id(),
{
    let mut v: Vec<u8> = Vec::new();
    v.push(105u8);
    v.push(110u8);
    v.push(116u8);
    v.push(101u8);
    v.push(114u8);
    v.push(110u8);
    v.push(97u8);
    v.push(108u8);
    assert(v@ =~= internal_id());
    v
}

/// The set of identities denoted by a list of byte strings.
pub open spec fn idset(items: Seq<Vec<u8>>) -> Set<Seq<u8>> {
    Set::new(|s: Seq<u8>| exists|i: int| 0 <= i < items.len() && items[i]@ == s)
}

/// One role's set of peer identities, stored without duplicates.
pub struct RoleSet {
    items: Vec<Vec<u8>>,
}

impl View for RoleSet {
    type V = Set<Seq<u8>>;

    closed spec fn view(&self) -> Set<Seq<u8>> {
        idset(self.items@)
    }
}

/// Whether a list of identities holds each one at most once.
pub open spec fn unique_ids(items: Seq<Vec<u8>>) -> bool {
    forall|i: int, j: int|
        #![trigger items[i], items[j]]
        0 <= i < j < items.len() ==> items[i]@ != items[j]@
}

impl RoleSet {
    /// Whether the stored list holds each identity once.
    pub closed spec fn wf(&self) -> bool {
        unique_ids(self.items@)
    }

    /// The empty role set.
    pub fn new() -> (r: RoleSet)
        ensures
            r@ == Set::<Seq<u8>>::empty(),
            r.wf(),
    {
        let r = RoleSet { items: Vec::new() };
        proof {
            assert(r@ =~= Set::<Seq<u8>>::empty());
        }
        r
    }

    /// The stored identities, one vector per member.
    pub fn members(&self) -> (r: &Vec<Vec<u8>>)
        ensures
            idset(r@) == self@,
    {
        &self.items
    }

    /// Whether `peer` is in the set.
    pub fn contains(&self, peer: &[u8]) -> (r: bool)
        ensures
            r == self@.contains(peer@),
    {
        let mut i: usize = 0;
        while i < self.items.len()
            invariant
                i <= self.items@.len(),
                forall|j: int| 0 <= j < i ==> self.items@[j]@ != peer@,
            decreases self.items@.len() - i,
        {
            if bytes_eq(self.items[i].as_slice(), peer) {
                return true;
            }
            i = i + 1;
        }
        assert(!self@.contains(peer@));
        false
    }

    /// Add `peer` to the set.
    pub fn insert(&mut self, peer: &[u8])
        requires
            old(self).wf(),
        ensures
            final(self)@ == old(self)@.insert(peer@),
            final(self).wf(),
    {
        if self.contains(peer) {
            proof {
                assert(old(self)@.insert(peer@) =~= old(self)@);
            }
            return ;
        }
        let item = crate::bytes::subvec(peer, 0, peer.len());
        assert(item@ =~= peer@);
        self.items.push(item);
        proof {
            let items = self.items@;
            let olds = old(self).items@;
            assert forall|s: Seq<u8>| idset(items).contains(s) implies old(self)@.insert(
                peer@,
            ).contains(s) by {
                let i = choose|i: int| 0 <= i < items.len() && items[i]@ == s;
                if i < olds.len() {
                    assert(olds[i]@ == s);
                }
            }
            assert forall|s: Seq<u8>| old(self)@.insert(peer@).contains(s) implies idset(
                items,
            ).contains(s) by {
                if s == peer@ {
                    assert(items[items.len() - 1]@ == s);
                } else {
                    let i = choose|i: int| 0 <= i < olds.len() && olds[i]@ == s;
                    assert(items[i]@ == s);
                }
            }
            assert(final(self)@ =~= old(self)@.insert(peer@));
        }
    }

    /// Remove `peer` from the set.
    pub fn remove(&mut self, peer: &[u8])
        requires
            old(self).wf(),
        ensures
            final(self)@ == old(self)@.remove(peer@),
            final(self).wf(),
    {
        let mut i: usize = 0;
        while i < self.items.len()
            invariant
                i <= self.items@.len(),
                forall|j: int| 0 <= j < i ==> self.items@[j]@ != peer@,
                self.items@ == old(self).items@,
                old(self).wf(),
            decreases self.items@.len() - i,
        {
            if bytes_eq(self.items[i].as_slice(), peer) {
                self.items.remove(i);
                proof {
                    let items = self.items@;
                    let olds = old(self).items@;
                    assert(olds[i as int]@ == peer@);
                    assert(forall|j: int| 0 <= j < i ==> items[j] == olds[j]);
                    assert(forall|j: int|
                        i <= j < items.len() ==> items[j] == olds[j + 1]);
                    assert forall|s: Seq<u8>| idset(items).contains(s) implies old(self)@.remove(
                        peer@,
                    ).contains(s) by {
                        let j = choose|j: int| 0 <= j < items.len() && items[j]@ == s;
                        if j < i {
                            assert(olds[j]@ == s);
                            assert(s != peer@);
                        } else {
                            assert(olds[j + 1]@ == s);
                            assert(olds[j + 1]@ != olds[i as int]@);
                            assert(s != peer@);
                        }
                    }
                    assert forall|s: Seq<u8>| old(self)@.remove(peer@).contains(s) implies idset(
                        items,
                    ).contains(s) by {
                        let j = choose|j: int| 0 <= j < olds.len() && olds[j]@ == s;
                        if j < i {
                            assert(items[j]@ == s);
                        } else {
                            assert(j != i);
                            assert(items[j - 1]@ == s);
                        }
                    }
                    assert(final(self)@ =~= old(self)@.remove(peer@));
                    assert forall|a: int, b: int|
                        0 <= a < b < items.len() implies items[a]@ != items[b]@ by {
                        if b < i {
                            assert(olds[a]@ != olds[b]@);
                        } else if a < i {
                            assert(olds[a]@ != olds[b + 1]@);
                        } else {
                            assert(olds[a + 1]@ != olds[b + 1]@);
                        }
                    }
                }
                return ;
            }
            i = i + 1;
        }
        proof {
            assert(!old(self)@.contains(peer@));
            assert(old(self)@.remove(peer@) =~= old(self)@);
        }
    }
}

/// The persisted access-control state: the four role sets.
pub struct AccessStore {
    managers: RoleSet,
    controllers: RoleSet,
    subscribers: RoleSet,
    rfids: RoleSet,
}

impl AccessStore {
    /// All four sets hold each identity at most once.
    pub closed spec fn wf(&self) -> bool {
        self.managers.wf() && self.controllers.wf() && self.subscribers.wf() && self.rfids.wf()
    }

    /// The managers' identity set.
    pub closed spec fn managers(&self) -> Set<Seq<u8>> {
        self.managers@
    }

    /// The controllers' identity set.
    pub closed spec fn controllers(&self) -> Set<Seq<u8>> {
        self.controllers@
    }

    /// The subscribers' identity set.
    pub closed spec fn subscribers(&self) -> Set<Seq<u8>> {
        self.subscribers@
    }

    /// The authorized card set.
    pub closed spec fn rfids(&self) -> Set<Seq<u8>> {
        self.rfids@
    }

    /// An empty store.
    pub fn new() -> (r: AccessStore)
        ensures
            r.managers() == Set::<Seq<u8>>::empty(),
            r.controllers() == Set::<Seq<u8>>::empty(),
            r.subscribers() == Set::<Seq<u8>>::empty(),
            r.rfids() == Set::<Seq<u8>>::empty(),
            r.wf(),
    {
        AccessStore {
            managers: RoleSet::new(),
            controllers: RoleSet::new(),
            subscribers: RoleSet::new(),
            rfids: RoleSet::new(),
        }
    }

    /// A store rebuilt from four member lists, as read back from
    /// persistent storage.
    pub fn from_lists(
        managers: &Vec<Vec<u8>>,
        controllers: &Vec<Vec<u8>>,
        subscribers: &Vec<Vec<u8>>,
        rfids: &Vec<Vec<u8>>,
    ) -> (r: AccessStore)
        ensures
            r.managers() == idset(managers@),
            r.controllers() == idset(controllers@),
            r.subscribers() == idset(subscribers@),
            r.rfids() == idset(rfids@),
            r.wf(),
    {
        let mut store = AccessStore::new();
        store.load_into(managers, controllers, subscribers, rfids);
        store
    }

    /// Insert every identity of the four lists into the matching sets.
    fn load_into(
        &mut self,
        managers: &Vec<Vec<u8>>,
        controllers: &Vec<Vec<u8>>,
        subscribers: &Vec<Vec<u8>>,
        rfids: &Vec<Vec<u8>>,
    )
        requires
            old(self).wf(),
        ensures
            final(self).wf(),
            final(self).managers() == old(self).managers().union(idset(managers@)),
            final(self).controllers() == old(self).controllers().union(idset(controllers@)),
            final(self).subscribers() == old(self).subscribers().union(idset(subscribers@)),
            final(self).rfids() == old(self).rfids().union(idset(rfids@)),
    {
        insert_all(&mut self.managers, managers);
        insert_all(&mut self.controllers, controllers);
        insert_all(&mut self.subscribers, subscribers);
        insert_all(&mut self.rfids, rfids);
    }

    /// Whether `peer` may present a card: a sentinel or a stored card id.
    pub fn is_rfid(&self, peer: &[u8]) -> (r: bool)
        ensures
            r == (is_sentinel(peer@) || self.rfids().contains(peer@)),
    {
        if is_sentinel_peer(peer) {
            return true;
        }
        self.rfids.contains(peer)
    }

    /// Authorize a card id.
    pub fn add_rfid(&mut self, peer: &[u8])
        requires
            old(self).wf(),
        ensures
            final(self).wf(),
            final(self).rfids() == old(self).rfids().insert(peer@),
            final(self).managers() == old(self).managers(),
            final(self).controllers() == old(self).controllers(),
            final(self).subscribers() == old(self).subscribers(),
    {
        self.rfids.insert(peer);
    }

    /// Withdraw a card id.
    pub fn rm_rfid(&mut self, peer: &[u8])
        requires
            old(self).wf(),
        ensures
            final(self).wf(),
            final(self).rfids() == old(self).rfids().remove(peer@),
            final(self).managers() == old(self).managers(),
            final(self).controllers() == old(self).controllers(),
            final(self).subscribers() == old(self).subscribers(),
    {
        self.rfids.remove(peer);
    }

    /// Replace the card set wholesale; an empty list clears every card.
    pub fn set_rfid_list(&mut self, list: &Vec<Vec<u8>>)
        requires
            old(self).wf(),
        ensures
            final(self).wf(),
            final(self).rfids() == idset(list@),
            final(self).managers() == old(self).managers(),
            final(self).controllers() == old(self).controllers(),
            final(self).subscribers() == old(self).subscribers(),
    {
        self.rfids = RoleSet::new();
        insert_all(&mut self.rfids, list);
        proof {
            assert(Set::<Seq<u8>>::empty().union(idset(list@)) =~= idset(list@));
        }
    }

    /// Whether `peer` may send control or update commands.
    pub fn is_controller(&self, peer: &[u8]) -> (r: bool)
        ensures
            r == (is_sentinel(peer@) || self.controllers().contains(peer@)),
    {
        if is_sentinel_peer(peer) {
            return true;
        }
        self.controllers.contains(peer)
    }

    /// Grant the controller role.
    pub fn add_controller(&mut self, peer: &[u8])
        requires
            old(self).wf(),
        ensures
            final(self).wf(),
            final(self).controllers() == old(self).controllers().insert(peer@),
            final(self).managers() == old(self).managers(),
            final(self).subscribers() == old(self).subscribers(),
            final(self).rfids() == old(self).rfids(),
    {
        self.controllers.insert(peer);
    }

    /// Revoke the controller role.
    pub fn rm_controller(&mut self, peer: &[u8])
        requires
            old(self).wf(),
        ensures
            final(self).wf(),
            final(self).controllers() == old(self).controllers().remove(peer@),
            final(self).managers() == old(self).managers(),
            final(self).subscribers() == old(self).subscribers(),
            final(self).rfids() == old(self).rfids(),
    {
        self.controllers.remove(peer);
    }

    /// Whether `peer` receives broadcast state updates.
    pub fn is_subscriber(&self, peer: &[u8]) -> (r: bool)
        ensures
            r == (is_sentinel(peer@) || self.subscribers().contains(peer@)),
    {
        if is_sentinel_peer(peer) {
            return true;
        }
        self.subscribers.contains(peer)
    }

    /// Grant the subscriber role.
    pub fn add_subscriber(&mut self, peer: &[u8])
        requires
            old(self).wf(),
        ensures
            final(self).wf(),
            final(self).subscribers() == old(self).subscribers().insert(peer@),
            final(self).managers() == old(self).managers(),
            final(self).controllers() == old(self).controllers(),
            final(self).rfids() == old(self).rfids(),
    {
        self.subscribers.insert(peer);
    }

    /// Revoke the subscriber role.
    pub fn rm_subscriber(&mut self, peer: &[u8])
        requires
            old(self).wf(),
        ensures
            final(self).wf(),
            final(self).subscribers() == old(self).subscribers().remove(peer@),
            final(self).managers() == old(self).managers(),
            final(self).controllers() == old(self).controllers(),
            final(self).rfids() == old(self).rfids(),
    {
        self.subscribers.remove(peer);
    }

    /// Whether `peer` may mutate the role sets: only the cloud-bus
    /// sentinel bypasses this check.
    pub fn is_manager(&self, peer: &[u8]) -> (r: bool)
        ensures
            r == (peer@ == mqtt_id() || self.managers().contains(peer@)),
    {
        let mqtt = mqtt_bytes();
        if bytes_eq(peer, mqtt.as_slice()) {
            return true;
        }
        self.managers.contains(peer)
    }

    /// Grant the manager role.
    pub fn add_manager(&mut self, peer: &[u8])
        requires
            old(self).wf(),
        ensures
            final(self).wf(),
            final(self).managers() == old(self).managers().insert(peer@),
            final(self).controllers() == old(self).controllers(),
            final(self).subscribers() == old(self).subscribers(),
            final(self).rfids() == old(self).rfids(),
    {
        self.managers.insert(peer);
    }

    /// Revoke the manager role.
    pub fn rm_manager(&mut self, peer: &[u8])
        requires
            old(self).wf(),
        ensures
            final(self).wf(),
            final(self).managers() == old(self).managers().remove(peer@),
            final(self).controllers() == old(self).controllers(),
            final(self).subscribers() == old(self).subscribers(),
            final(self).rfids() == old(self).rfids(),
    {
        self.managers.remove(peer);
    }
}

/// Whether `peer` is one of the two sentinels.
fn is_sentinel_peer(peer: &[u8]) -> (r: bool)
    ensures
        r == is_sentinel(peer@),
{
    let mqtt = mqtt_bytes();
    let internal = internal_bytes();
    bytes_eq(peer, mqtt.as_slice()) || bytes_eq(peer, internal.as_slice())
}

/// Insert every element of `list` into `set`.
fn insert_all(set: &mut RoleSet, list: &Vec<Vec<u8>>)
    requires
        old(set).wf(),
    ensures
        final(set).wf(),
        final(set)@ == old(set)@.union(idset(list@)),
{
    let mut i: usize = 0;
    while i < list.len()
        invariant
            i <= list@.len(),
            set.wf(),
            set@ == old(set)@.union(idset(list@.subrange(0, i as int))),
        decreases list@.len() - i,
    {
        set.insert(list[i].as_slice());
        proof {
            let x = list@[i as int]@;
            let pre = list@.subrange(0, i as int);
            let pre1 = list@.subrange(0, i as int + 1);
            assert forall|s: Seq<u8>| idset(pre1).contains(s) implies idset(pre).insert(
                x,
            ).contains(s) by {
                let j = choose|j: int| 0 <= j < pre1.len() && pre1[j]@ == s;
                if j < i {
                    assert(pre[j]@ == s);
                }
            }
            assert forall|s: Seq<u8>| idset(pre).insert(x).contains(s) implies idset(
                pre1,
            ).contains(s) by {
                if s == x {
                    assert(pre1[i as int]@ == s);
                } else {
                    let j = choose|j: int| 0 <= j < pre.len() && pre[j]@ == s;
                    assert(pre1[j]@ == s);
                }
            }
            assert(idset(pre1) =~= idset(pre).insert(x));
            assert(set@ =~= old(set)@.union(idset(pre1)));
        }
        i = i + 1;
    }
    proof {
        assert(list@.subrange(0, list@.len() as int) =~= list@);
    }
}

} // verus!
