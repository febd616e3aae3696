//! Channel-level decisions: deterministic initiator selection by address
//! comparison, the short human-facing identity, and the bounded inbound
//! queue that every channel implementation shares.

use vstd::prelude::*;
use crate::bytes::subvec;
use crate::crypto::{base58_of, to_base58};

verus! {

/// Capacity of every per-channel inbound queue.
pub const QUEUE_CAPACITY: usize = 10;

/// Lexicographic (big-endian) "greater than" over byte strings of equal
/// length.
pub open spec fn lex_gt(a: Seq<u8>, b: Seq<u8>) -> bool
    decreases a.len(),
{
    if a.len() == 0 || b.len() == 0 {
        false
    } else if a[0] > b[0] {
        true
    } else if a[0] < b[0] {
        false
    } else {
        lex_gt(a.drop_first(), b.drop_first())
    }
}

/// Compare two equal-length addresses, big-endian.
pub fn addr_gt(a: &[u8], b: &[u8]) -> (r: bool)
    requires
        a@.len() == b@.len(),
    ensures
        r == lex_gt(a@, b@),
{
    proof {
        assert(a@.skip(0) =~= a@);
        assert(b@.skip(0) =~= b@);
    }
    let mut i: usize = 0;
    while i < a.len()
        invariant
            i <= a@.len(),
            a@.len() == b@.len(),
            lex_gt(a@, b@) == lex_gt(a@.skip(i as int), b@.skip(i as int)),
        decreases a@.len() - i,
    {
        let x = a[i];
        let y = b[i];
        proof {
            assert(a@.skip(i as int)[0] == a@[i as int]);
            assert(b@.skip(i as int)[0] == b@[i as int]);
            assert(a@.skip(i as int).drop_first() =~= a@.skip(i as int + 1));
            assert(b@.skip(i as int).drop_first() =~= b@.skip(i as int + 1));
        }
        if x > y {
            return true;
        }
        if x < y {
            return false;
        }
        i = i + 1;
    }
    proof {
        assert(a@.skip(a@.len() as int).len() == 0);
    }
    false
}

/// Initiator selection: the side whose own address is the numerically
/// larger one starts the handshake.
pub fn is_initializer(local_addr: &[u8], peer_addr: &[u8]) -> (r: bool)
    requires
        local_addr@.len() == peer_addr@.len(),
    ensures
        r == lex_gt(local_addr@, peer_addr@),
{
    addr_gt(local_addr, peer_addr)
}

/// Exactly one side of any pair of distinct equal-length addresses is
/// the initiator, whichever way the two compare.
pub proof fn lemma_initiator_selection(x: Seq<u8>, y: Seq<u8>)
    requires
        x.len() == y.len(),
        x != y,
    ensures
        lex_gt(x, y) != lex_gt(y, x),
    decreases x.len(),
{
    if x.len() == 0 {
        assert(x =~= y);
    } else if x[0] == y[0] {
        if x.drop_first() == y.drop_first() {
            assert forall|i: int| 0 <= i < x.len() implies x[i] == y[i] by {
                if i > 0 {
                    assert(x.drop_first()[i - 1] == y.drop_first()[i - 1]);
                }
            }
            assert(x =~= y);
        }
        lemma_initiator_selection(x.drop_first(), y.drop_first());
    }
}

/// The short identity of a public key: the first six bytes of its
/// base58 rendering (or all of it, if shorter).
pub fn short_id(key: &[u8]) -> (r: Vec<u8>)
    ensures
        base58_of(key@).len() >= 6 ==> r@ == base58_of(key@).subrange(0, 6),
        base58_of(key@).len() < 6 ==> r@ == base58_of(key@),
{
    let full = to_base58(key);
    if full.len() >= 6 {
        subvec(full.as_slice(), 0, 6)
    } else {
        let whole = subvec(full.as_slice(), 0, full.len());
        proof {
            assert(full@.subrange(0, full@.len() as int) =~= full@);
        }
        whole
    }
}

/// The suffix of the cloud-bus publish topic, `/pub`.
pub open spec fn pub_suffix() -> Seq<u8> {
    seq![47u8, 112, 117, 98]
}

/// The suffix of the cloud-bus subscribe topic, `/sub`.
pub open spec fn sub_suffix() -> Seq<u8> {
    seq![47u8, 115, 117, 98]
}

/// The topic this node publishes on: its short identity plus `/pub`.
pub fn pub_topic(short: &[u8]) -> (r: Vec<u8>)
    ensures
        r@ == short@ + pub_suffix(),
{
    let mut out = subvec(short, 0, short.len());
    assert(out@ =~= short@);
    out.push(47u8);
    out.push(112u8);
    out.push(117u8);
    out.push(98u8);
    assert(out@ =~= short@ + pub_suffix());
    out
}

/// The topic this node listens on: its short identity plus `/sub`.
pub fn sub_topic(short: &[u8]) -> (r: Vec<u8>)
    ensures
        r@ == short@ + sub_suffix(),
{
    let mut out = subvec(short, 0, short.len());
    assert(out@ =~= short@);
    out.push(47u8);
    out.push(115u8);
    out.push(117u8);
    out.push(98u8);
    assert(out@ =~= short@ + sub_suffix());
    out
}

/// One end of the in-process channel pair: two mirrored bounded queues,
/// one side the initiator, both answering the `internal` identity.
///
/// The connecting medium — a pair of crossed task queues in an async
/// embedding — is made explicit here: a send is delivery into the peer
/// end's inbox, so the embedding hands `send` the peer it drives. A
/// send into a full inbox reports that nothing was accepted; the
/// embedding waits and retries where the original medium would block.
pub struct InternalConnection {
    init: bool,
    inbox: BoundedQueue,
}

impl InternalConnection {
    /// Whether this end starts the handshake.
    pub closed spec fn initiator(&self) -> bool {
        self.init
    }

    /// The frames queued for this end, oldest first.
    pub closed spec fn inbox(&self) -> Seq<Seq<u8>> {
        self.inbox@
    }

    /// The inbox stays within its capacity.
    pub open spec fn wf(&self) -> bool {
        self.inbox().len() <= QUEUE_CAPACITY
    }

    /// A fresh pair of connected ends: the first is the initiator, both
    /// start with empty inboxes.
    pub fn pair() -> (r: (InternalConnection, InternalConnection))
        ensures
            r.0.initiator(),
            !r.1.initiator(),
            r.0.inbox() == Seq::<Seq<u8>>::empty(),
            r.1.inbox() == Seq::<Seq<u8>>::empty(),
            r.0.wf(),
            r.1.wf(),
    {
        (
            InternalConnection { init: true, inbox: BoundedQueue::new() },
            InternalConnection { init: false, inbox: BoundedQueue::new() },
        )
    }

    /// Whether this end starts the handshake.
    pub fn is_init(&self) -> (r: bool)
        ensures
            r == self.initiator(),
    {
        self.init
    }

    /// The peer identity of either end: the `internal` sentinel.
    pub fn remote_id(&self) -> (r: Vec<u8>)
        ensures
            r@ == crate::access::internal_id(),
    {
        crate::access::internal_bytes()
    }

    /// Deliver `data` into the peer end's inbox. Accepted exactly when
    /// the inbox has room; a full inbox leaves the peer unchanged.
    pub fn send(&self, peer: &mut InternalConnection, data: Vec<u8>) -> (r: bool)
        requires
            old(peer).wf(),
        ensures
            final(peer).wf(),
            final(peer).initiator() == old(peer).initiator(),
            r == (old(peer).inbox().len() < QUEUE_CAPACITY),
            r ==> final(peer).inbox() == old(peer).inbox().push(data@),
            !r ==> final(peer).inbox() == old(peer).inbox(),
    {
        let accepted = peer.inbox.len() < QUEUE_CAPACITY;
        peer.inbox.push(data);
        accepted
    }

    /// Take the oldest delivered frame; `None` exactly when the inbox
    /// is empty.
    pub fn recv(&mut self) -> (r: Option<Vec<u8>>)
        requires
            old(self).wf(),
        ensures
            final(self).wf(),
            final(self).initiator() == old(self).initiator(),
            (match r {
                Some(frame) => old(self).inbox().len() > 0 && frame@ == old(self).inbox()[0]
                    && final(self).inbox() == old(self).inbox().drop_first(),
                None => old(self).inbox().len() == 0 && final(self).inbox() == old(self).inbox(),
            }),
    {
        self.inbox.pop()
    }
}

/// A bounded first-in-first-out queue of inbound frames. New frames are
/// dropped once the queue is full; reading always yields the oldest
/// frame first.
pub struct BoundedQueue {
    items: Vec<Vec<u8>>,
}

impl View for BoundedQueue {
    type V = Seq<Seq<u8>>;

    closed spec fn view(&self) -> Seq<Seq<u8>> {
        Seq::new(self.items@.len(), |i: int| self.items@[i]@)
    }
}

impl BoundedQueue {
    /// The queue never exceeds its capacity.
    pub open spec fn wf(&self) -> bool {
        self@.len() <= QUEUE_CAPACITY
    }

    /// An empty queue.
    pub fn new() -> (r: BoundedQueue)
        ensures
            r@ == Seq::<Seq<u8>>::empty(),
            r.wf(),
    {
        let r = BoundedQueue { items: Vec::new() };
        proof {
            assert(r@ =~= Seq::<Seq<u8>>::empty());
        }
        r
    }

    /// How many frames are queued.
    pub fn len(&self) -> (r: usize)
        ensures
            r == self@.len(),
    {
        self.items.len()
    }

    /// Append a frame, dropping it if the queue is full.
    pub fn push(&mut self, frame: Vec<u8>)
        requires
            old(self).wf(),
        ensures
            final(self).wf(),
            old(self)@.len() < QUEUE_CAPACITY ==> final(self)@ == old(self)@.push(frame@),
            old(self)@.len() >= QUEUE_CAPACITY ==> final(self)@ == old(self)@,
    {
        if self.items.len() < QUEUE_CAPACITY {
            self.items.push(frame);
            proof {
                assert(final(self)@ =~= old(self)@.push(frame@));
            }
        }
    }

    /// Take the oldest frame, if any.
    pub fn pop(&mut self) -> (r: Option<Vec<u8>>)
        requires
            old(self).wf(),
        ensures
            final(self).wf(),
            (match r {
                Some(frame) => old(self)@.len() > 0 && frame@ == old(self)@[0] && final(self)@
                    == old(self)@.drop_first(),
                None => old(self)@.len() == 0 && final(self)@ == old(self)@,
            }),
    {
        if self.items.len() == 0 {
            return None;
        }
        let frame = self.items.remove(0);
        proof {
            assert(final(self)@ =~= old(self)@.drop_first());
        }
        Some(frame)
    }
}

} // verus!
