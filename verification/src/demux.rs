//! The broadcast demultiplexer: raw `(source address, frame)` events
//! from the radio are sorted into one bounded inbound queue per peer,
//! and a bounded `incoming` queue surfaces each newly seen peer once.
//!
//! Frames from one address are only ever appended to that address's
//! queue; entries whose channel has been dropped are pruned on the next
//! event; malformed frames change nothing.

use vstd::prelude::*;
use crate::bytes::{bytes_eq, subvec};
use crate::channel::{BoundedQueue, QUEUE_CAPACITY};
use crate::envelope::{parse_envelope, EspNowPacket, ADDR_LEN};

verus! {

/// One peer's slot in the demultiplexer.
pub struct DemuxEntry {
    addr: Vec<u8>,
    queue: BoundedQueue,
    closed: bool,
}

/// Model of a slot.
#[verifier::ext_equal]
pub struct EntryModel {
    pub addr: Seq<u8>,
    pub queue: Seq<Seq<u8>>,
    pub closed: bool,
}

impl View for DemuxEntry {
    type V = EntryModel;

    closed spec fn view(&self) -> EntryModel {
        EntryModel { addr: self.addr@, queue: self.queue@, closed: self.closed }
    }
}

/// The models of a list of slots.
pub open spec fn models(entries: Seq<DemuxEntry>) -> Seq<EntryModel> {
    Seq::new(entries.len(), |i: int| entries[i]@)
}

/// Whether some slot serves `addr`.
pub open spec fn has_entry(entries: Seq<EntryModel>, addr: Seq<u8>) -> bool {
    exists|i: int| 0 <= i < entries.len() && entries[i].addr == addr
}

/// The queue of the slot serving `addr`.
pub open spec fn entry_queue(entries: Seq<EntryModel>, addr: Seq<u8>) -> Seq<Seq<u8>> {
    entries[choose|i: int| 0 <= i < entries.len() && entries[i].addr == addr].queue
}

/// A queue after an append that drops on overflow.
pub open spec fn queue_push(q: Seq<Seq<u8>>, frame: Seq<u8>) -> Seq<Seq<u8>> {
    if q.len() < QUEUE_CAPACITY {
        q.push(frame)
    } else {
        q
    }
}

/// Model of the demultiplexer.
#[verifier::ext_equal]
pub struct DemuxModel {
    pub local: Seq<u8>,
    pub entries: Seq<EntryModel>,
    pub incoming: Seq<Seq<u8>>,
}

/// Whether a slot is still in use.
pub open spec fn entry_open(e: EntryModel) -> bool {
    !e.closed
}

/// The pruning predicate, as one shared term: keep the open slots.
pub open spec fn open_pred() -> spec_fn(EntryModel) -> bool {
    |e: EntryModel| entry_open(e)
}

/// Well-formedness of a demultiplexer model: a 6-byte local address,
/// the incoming queue bounded and holding 6-byte addresses, every slot
/// a 6-byte address with a bounded queue, and no two slots for one
/// address.
pub open spec fn demux_wf(d: DemuxModel) -> bool {
    d.local.len() == ADDR_LEN && d.incoming.len() <= QUEUE_CAPACITY && (forall|i: int|
        0 <= i < d.incoming.len() ==> (#[trigger] d.incoming[i]).len() == ADDR_LEN) && (forall|
        i: int|
        0 <= i < d.entries.len() ==> (#[trigger] d.entries[i]).addr.len() == ADDR_LEN
            && d.entries[i].queue.len() <= QUEUE_CAPACITY) && (forall|i: int, j: int|
        0 <= i < j < d.entries.len() ==> (#[trigger] d.entries[i]).addr != (
        #[trigger] d.entries[j]).addr)
}

/// How one routed frame relates the state before to the state after:
/// closed slots are pruned, then the frame joins the source's queue —
/// dropped at capacity — creating the slot and publishing the source
/// once on `incoming` when the source is new.
pub open spec fn frame_routed(
    pre: DemuxModel,
    post: DemuxModel,
    src: Seq<u8>,
    wire: Seq<u8>,
) -> bool {
    let pruned = pre.entries.filter(open_pred());
    post.local == pre.local && (if has_entry(pruned, src) {
        post.incoming == pre.incoming && post.entries.len() == pruned.len() && (forall|j: int|
            0 <= j < pruned.len() ==> (#[trigger] post.entries[j]).addr == pruned[j].addr
                && post.entries[j].closed == pruned[j].closed && (pruned[j].addr == src
                ==> post.entries[j].queue == queue_push(pruned[j].queue, wire)) && (pruned[j].addr
                != src ==> post.entries[j].queue == pruned[j].queue))
    } else {
        post.entries == pruned.push(EntryModel { addr: src, queue: seq![wire], closed: false })
            && post.incoming == (if pre.incoming.len() < QUEUE_CAPACITY {
            pre.incoming.push(src)
        } else {
            pre.incoming
        })
    })
}

/// The broadcast demultiplexer.
pub struct Demux {
    local_addr: Vec<u8>,
    entries: Vec<DemuxEntry>,
    incoming: Vec<Vec<u8>>,
}

impl View for Demux {
    type V = DemuxModel;

    closed spec fn view(&self) -> DemuxModel {
        DemuxModel {
            local: self.local_addr@,
            entries: models(self.entries@),
            incoming: Seq::new(self.incoming@.len(), |i: int| self.incoming@[i]@),
        }
    }
}

impl Demux {
    /// Addresses are 6 bytes, no two slots serve the same address, and
    /// every queue is within capacity.
    pub open spec fn wf(&self) -> bool {
        demux_wf(self@)
    }

    /// A demultiplexer for the node with the given link-layer address.
    pub fn new(local_addr: Vec<u8>) -> (r: Demux)
        requires
            local_addr@.len() == ADDR_LEN,
        ensures
            r@.local == local_addr@,
            r@.entries == Seq::<EntryModel>::empty(),
            r@.incoming == Seq::<Seq<u8>>::empty(),
            r.wf(),
    {
        let r = Demux { local_addr, entries: Vec::new(), incoming: Vec::new() };
        proof {
            assert(r@.entries =~= Seq::<EntryModel>::empty());
            assert(r@.incoming =~= Seq::<Seq<u8>>::empty());
        }
        r
    }

    /// The node's own address.
    pub fn local_addr(&self) -> (r: &Vec<u8>)
        ensures
            r@ == self@.local,
    {
        &self.local_addr
    }

    /// Drop every slot whose channel has been closed.
    fn prune(&mut self)
        requires
            old(self).wf(),
        ensures
            final(self).wf(),
            final(self)@.entries == old(self)@.entries.filter(open_pred()),
            final(self)@.local == old(self)@.local,
            final(self)@.incoming == old(self)@.incoming,
    {
        let ghost orig = models(old(self).entries@);
        let mut src_entries: Vec<DemuxEntry> = Vec::new();
        std::mem::swap(&mut src_entries, &mut self.entries);
        proof {
            assert(orig.take(0).filter(open_pred()) =~= Seq::<
                EntryModel,
            >::empty());
            assert(models(self.entries@) =~= Seq::<EntryModel>::empty());
            assert(models(src_entries@) =~= orig);
        }
        let ghost k: int = 0;
        while src_entries.len() > 0
            invariant
                old(self).wf(),
                orig == models(old(self).entries@),
                self.local_addr@ == old(self).local_addr@,
                self.incoming@ == old(self).incoming@,
                0 <= k <= orig.len(),
                src_entries@.len() == orig.len() - k,
                models(src_entries@) =~= orig.skip(k),
                models(self.entries@) =~= orig.take(k).filter(open_pred()),
            decreases src_entries@.len(),
        {
            let ghost prev_src = src_entries@;
            let ghost prev_kept = self.entries@;
            let e = src_entries.remove(0);
            proof {
                assert(e@ == models(prev_src)[0]);
                assert(e@ == orig[k]);
                assert forall|t: int| 0 <= t < src_entries@.len() implies models(src_entries@)[t]
                    == orig.skip(k + 1)[t] by {
                    assert(src_entries@[t] == prev_src[t + 1]);
                    assert(models(prev_src)[t + 1] == orig.skip(k)[t + 1]);
                    assert(orig.skip(k)[t + 1] == orig[k + 1 + t]);
                    assert(orig.skip(k + 1)[t] == orig[k + 1 + t]);
                }
                assert(models(src_entries@) =~= orig.skip(k + 1));
                assert(orig.take(k + 1).drop_last() =~= orig.take(k));
                assert(orig.take(k + 1).last() == orig[k]);
                reveal(Seq::filter);
            }
            if !e.closed {
                self.entries.push(e);
                proof {
                    assert forall|t: int| 0 <= t < self.entries@.len() implies models(
                        self.entries@,
                    )[t] == models(prev_kept).push(orig[k])[t] by {
                        if t < prev_kept.len() {
                            assert(self.entries@[t] == prev_kept[t]);
                        } else {
                            assert(self.entries@[t] == e);
                        }
                    }
                    assert(models(self.entries@) =~= orig.take(k).filter(
                        open_pred(),
                    ).push(orig[k]));
                    assert(models(self.entries@) =~= orig.take(k + 1).filter(
                        open_pred(),
                    ));
                }
            } else {
                proof {
                    assert(models(self.entries@) =~= orig.take(k + 1).filter(
                        open_pred(),
                    ));
                }
            }
            proof {
                k = k + 1;
            }
        }
        proof {
            assert(orig.take(orig.len() as int) =~= orig);
            let pred = open_pred();
            let filtered = orig.filter(pred);
            assert(models(self.entries@) =~= filtered);
            assert forall|a: int, b: int|
                0 <= a < b < orig.len() implies (#[trigger] orig[a]).addr != (
            #[trigger] orig[b]).addr by {
                assert(old(self)@.entries[a].addr != old(self)@.entries[b].addr);
            }
            assert forall|i: int, j: int|
                0 <= i < j < filtered.len() implies (#[trigger] filtered[i]).addr != (
            #[trigger] filtered[j]).addr by {
                filtered_distinct(orig, pred, i, j);
            }
            assert forall|i: int| 0 <= i < filtered.len() implies (
            #[trigger] filtered[i]).addr.len() == ADDR_LEN && filtered[i].queue.len()
                <= QUEUE_CAPACITY by {
                lemma_filter_element_index(orig, pred, i);
                let k2 = choose|k2: int| 0 <= k2 < orig.len() && orig[k2] == filtered[i];
                assert(old(self)@.entries[k2].addr.len() == ADDR_LEN);
            }
        }
    }

    /// Mark the slot for `addr` closed, so the next event prunes it.
    pub fn close(&mut self, addr: &[u8])
        requires
            old(self).wf(),
        ensures
            final(self).wf(),
            final(self)@.local == old(self)@.local,
            final(self)@.incoming == old(self)@.incoming,
            final(self)@.entries.len() == old(self)@.entries.len(),
            forall|i: int|
                0 <= i < final(self)@.entries.len() ==> (#[trigger] final(self)@.entries[i]).addr
                    == old(self)@.entries[i].addr && final(self)@.entries[i].queue == old(self)@.entries[i].queue && (old(self)@.entries[i].addr != addr@ ==> final(self)@.entries[i].closed == old(self)@.entries[i].closed) && (old(self)@.entries[i].addr == addr@ ==> final(self)@.entries[i].closed),
    {
        let mut i: usize = 0;
        while i < self.entries.len()
            invariant
                old(self).wf(),
                i <= self.entries@.len(),
                self.entries@.len() == old(self).entries@.len(),
                self.local_addr@ == old(self).local_addr@,
                self.incoming@ == old(self).incoming@,
                forall|j: int|
                    0 <= j < self.entries@.len() ==> (#[trigger] models(self.entries@)[j]).addr
                        == models(old(self).entries@)[j].addr && models(self.entries@)[j].queue
                        == models(old(self).entries@)[j].queue,
                forall|j: int|
                    0 <= j < self.entries@.len() && models(old(self).entries@)[j].addr != addr@
                        ==> (#[trigger] models(self.entries@)[j]).closed == models(
                        old(self).entries@,
                    )[j].closed,
                forall|j: int|
                    0 <= j < i && models(old(self).entries@)[j].addr == addr@ ==> (
                    #[trigger] models(self.entries@)[j]).closed,
            decreases self.entries@.len() - i,
        {
            let ghost prev = self.entries@;
            if bytes_eq(self.entries[i].addr.as_slice(), addr) {
                assert(models(prev)[i as int].addr == addr@);
                let mut entry = self.entries.remove(i);
                let ghost mid = self.entries@;
                entry.closed = true;
                self.entries.insert(i, entry);
                proof {
                    assert forall|j: int|
                        0 <= j < self.entries@.len() && j != i implies self.entries@[j] == prev[j]
                        by {
                        if j < i {
                            assert(self.entries@[j] == mid[j]);
                            assert(mid[j] == prev[j]);
                        } else {
                            assert(self.entries@[j] == mid[j - 1]);
                            assert(mid[j - 1] == prev[j]);
                        }
                    }
                    assert(self.entries@[i as int] == entry);
                    assert(models(self.entries@)[i as int].closed);
                    assert(models(self.entries@)[i as int].addr == models(prev)[i as int].addr);
                    assert(models(self.entries@)[i as int].queue == models(prev)[i as int].queue);
                    assert forall|j: int|
                        0 <= j < self.entries@.len() && j != i implies models(self.entries@)[j]
                            == models(prev)[j] by {
                        assert(self.entries@[j] == prev[j]);
                    }
                    assert forall|j: int|
                        0 <= j < self.entries@.len() implies (
                    #[trigger] models(self.entries@)[j]).addr == models(old(self).entries@)[j].addr
                        && models(self.entries@)[j].queue == models(old(self).entries@)[j].queue
                        by {
                        assert(models(prev)[j].addr == models(old(self).entries@)[j].addr);
                        assert(models(prev)[j].queue == models(old(self).entries@)[j].queue);
                        if j != i {
                            assert(models(self.entries@)[j] == models(prev)[j]);
                        }
                    }
                    assert(models(old(self).entries@)[i as int].addr == addr@);
                    assert forall|j: int|
                        0 <= j < self.entries@.len() && models(old(self).entries@)[j].addr
                            != addr@ implies (#[trigger] models(self.entries@)[j]).closed
                            == models(old(self).entries@)[j].closed by {
                        assert(j != i);
                        assert(models(self.entries@)[j] == models(prev)[j]);
                    }
                    assert forall|j: int|
                        0 <= j <= i && models(old(self).entries@)[j].addr == addr@ implies (
                    #[trigger] models(self.entries@)[j]).closed by {
                        if j != i {
                            assert(models(prev)[j].closed);
                            assert(models(self.entries@)[j] == models(prev)[j]);
                        }
                    }
                }
            } else {
                proof {
                    assert(models(self.entries@)[i as int].addr == models(
                        old(self).entries@,
                    )[i as int].addr);
                    assert(models(old(self).entries@)[i as int].addr != addr@);
                    assert forall|j: int|
                        0 <= j <= i && models(old(self).entries@)[j].addr == addr@ implies (
                    #[trigger] models(self.entries@)[j]).closed by {
                        assert(j != i);
                        assert(models(self.entries@)[j].closed);
                    }
                }
            }
            i = i + 1;
        }
        proof {
            assert forall|j: int| 0 <= j < final(self)@.entries.len() implies (
            #[trigger] final(self)@.entries[j]).addr == old(self)@.entries[j].addr && final(self)@.entries[j].queue == old(self)@.entries[j].queue by {}
            assert forall|a: int, b: int|
                0 <= a < b < final(self)@.entries.len() implies (
            #[trigger] final(self)@.entries[a]).addr != (#[trigger] final(self)@.entries[b]).addr
                by {
                assert(old(self)@.entries[a].addr != old(self)@.entries[b].addr);
            }
        }
    }

    /// Take the address of the next newly surfaced peer, oldest first.
    pub fn next_channel(&mut self) -> (r: Option<Vec<u8>>)
        requires
            old(self).wf(),
        ensures
            final(self).wf(),
            final(self)@.local == old(self)@.local,
            final(self)@.entries == old(self)@.entries,
            (match r {
                Some(addr) => old(self)@.incoming.len() > 0 && addr@ == old(self)@.incoming[0]
                    && final(self)@.incoming == old(self)@.incoming.drop_first() && addr@.len()
                    == ADDR_LEN,
                None => old(self)@.incoming.len() == 0 && final(self)@.incoming == old(self)@.incoming,
            }),
    {
        if self.incoming.len() == 0 {
            proof {
                assert(final(self)@.incoming =~= old(self)@.incoming);
            }
            return None;
        }
        let addr = self.incoming.remove(0);
        proof {
            assert(final(self)@.incoming =~= old(self)@.incoming.drop_first());
            assert forall|t: int| 0 <= t < final(self)@.entries.len() implies (
            #[trigger] final(self)@.entries[t]).addr.len() == ADDR_LEN && final(self)@.entries[t].queue.len() <= QUEUE_CAPACITY by {
                assert(old(self)@.entries[t].addr.len() == ADDR_LEN);
            }
            assert forall|a: int, b: int|
                0 <= a < b < final(self)@.entries.len() implies (
            #[trigger] final(self)@.entries[a]).addr != (#[trigger] final(self)@.entries[b]).addr
                by {
                assert(old(self)@.entries[a].addr != old(self)@.entries[b].addr);
            }
            assert forall|t: int| 0 <= t < final(self)@.incoming.len() implies (
            #[trigger] final(self)@.incoming[t]).len() == ADDR_LEN by {
                assert(final(self)@.incoming[t] == old(self)@.incoming[t + 1]);
                assert(old(self)@.incoming[t + 1].len() == ADDR_LEN);
            }
        }
        Some(addr)
    }
}

impl Demux {
    /// Route one raw radio event `(source address, frame)`.
    ///
    /// A frame that does not parse as an envelope changes nothing.
    /// Otherwise closed slots are pruned first; then the frame is
    /// appended to the source's queue — dropped if that queue is full —
    /// creating the slot and surfacing the source on the `incoming`
    /// queue if it is new. Demux isolation holds: a slot for any other
    /// address keeps exactly the queue it had.
    pub fn on_frame(&mut self, src_addr: &[u8], wire: &[u8])
        requires
            old(self).wf(),
            src_addr@.len() == ADDR_LEN,
        ensures
            final(self).wf(),
            final(self)@.local == old(self)@.local,
            parse_envelope(wire@) is None ==> final(self)@ == old(self)@,
            parse_envelope(wire@) is Some ==> frame_routed(old(self)@, final(self)@, src_addr@, wire@),
            forall|j: int|
                0 <= j < final(self)@.entries.len() && (#[trigger] final(self)@.entries[j]).addr
                    != src_addr@ ==> exists|k: int|
                    0 <= k < old(self)@.entries.len() && (#[trigger] old(self)@.entries[k]).addr
                        == final(self)@.entries[j].addr && old(self)@.entries[k].queue == final(self)@.entries[j].queue,
    {
        if EspNowPacket::decode(wire).is_none() {
            return ;
        }
        self.prune();
        let ghost pruned = models(self.entries@);
        let ghost orig = models(old(self).entries@);
        let frame = subvec(wire, 0, wire.len());
        assert(frame@ =~= wire@);
        let slot = find_slot(&self.entries, src_addr);
        if let Some(i) = slot {
            assert(models(self.entries@)[i as int].addr == src_addr@);
            let ghost prev = self.entries@;
            let mut entry = self.entries.remove(i);
            let ghost mid = self.entries@;
            assert(entry@.queue.len() <= QUEUE_CAPACITY);
            entry.queue.push(frame);
            self.entries.insert(i, entry);
            proof {
                assert forall|j: int|
                    0 <= j < self.entries@.len() && j != i implies self.entries@[j] == prev[j] by {
                    if j < i {
                        assert(self.entries@[j] == mid[j]);
                        assert(mid[j] == prev[j]);
                    } else {
                        assert(self.entries@[j] == mid[j - 1]);
                        assert(mid[j - 1] == prev[j]);
                    }
                }
                assert(self.entries@[i as int] == entry);
                assert(models(self.entries@)[i as int].addr == pruned[i as int].addr);
                assert(models(self.entries@)[i as int].closed == pruned[i as int].closed);
                assert(models(self.entries@)[i as int].queue == queue_push(
                    pruned[i as int].queue,
                    wire@,
                ));
                assert forall|j: int|
                    0 <= j < self.entries@.len() && j != i implies models(self.entries@)[j]
                        == pruned[j] by {
                    assert(self.entries@[j] == prev[j]);
                }
                assert(has_entry(pruned, src_addr@));
                assert forall|a: int, b: int|
                    0 <= a < b < models(self.entries@).len() implies (#[trigger] models(
                        self.entries@,
                    )[a]).addr != (#[trigger] models(self.entries@)[b]).addr by {
                    assert(pruned[a].addr != pruned[b].addr);
                    assert(models(self.entries@)[a].addr == pruned[a].addr);
                    assert(models(self.entries@)[b].addr == pruned[b].addr);
                }
                assert forall|j: int|
                    0 <= j < models(self.entries@).len() implies (#[trigger] models(
                        self.entries@,
                    )[j]).addr.len() == ADDR_LEN && models(self.entries@)[j].queue.len()
                        <= QUEUE_CAPACITY by {
                    assert(pruned[j].addr.len() == ADDR_LEN && pruned[j].queue.len()
                        <= QUEUE_CAPACITY);
                }
                assert forall|j: int|
                    0 <= j < final(self)@.entries.len() && (#[trigger] final(self)@.entries[j]).addr != src_addr@ implies exists|k: int|
                    0 <= k < old(self)@.entries.len() && (#[trigger] old(self)@.entries[k]).addr
                        == final(self)@.entries[j].addr && old(self)@.entries[k].queue == final(self)@.entries[j].queue by {
                    assert(models(self.entries@)[j] == pruned[j]);
                    lemma_filter_element_index(orig, open_pred(), j);
                    let k = choose|k: int|
                        0 <= k < orig.len() && orig[k] == pruned[j];
                    assert(old(self)@.entries[k].addr == final(self)@.entries[j].addr);
                }
            }
        } else {
            assert(forall|j: int|
                0 <= j < pruned.len() ==> (#[trigger] pruned[j]).addr != src_addr@);
            let addr_copy = subvec(src_addr, 0, src_addr.len());
            assert(addr_copy@ =~= src_addr@);
            let mut queue = BoundedQueue::new();
            queue.push(frame);
            assert(queue@ =~= seq![wire@]);
            let new_entry = DemuxEntry { addr: addr_copy, queue, closed: false };
            let ghost prev = self.entries@;
            self.entries.push(new_entry);
            if self.incoming.len() < QUEUE_CAPACITY {
                let addr_copy2 = subvec(src_addr, 0, src_addr.len());
                assert(addr_copy2@ =~= src_addr@);
                let ghost prev_inc = self.incoming@;
                self.incoming.push(addr_copy2);
                proof {
                    assert forall|t: int|
                        0 <= t < final(self)@.incoming.len() implies final(self)@.incoming[t]
                            == (if t < prev_inc.len() {
                            Seq::new(prev_inc.len(), |u: int| prev_inc[u]@)[t]
                        } else {
                            src_addr@
                        }) by {
                        if t < prev_inc.len() {
                            assert(self.incoming@[t] == prev_inc[t]);
                        } else {
                            assert(self.incoming@[t] == addr_copy2);
                        }
                    }
                    assert(final(self)@.incoming =~= old(self)@.incoming.push(src_addr@));
                }
            }
            proof {
                assert(!has_entry(pruned, src_addr@));
                assert forall|t: int|
                    0 <= t < models(self.entries@).len() implies models(self.entries@)[t] == pruned.push(
                        EntryModel { addr: src_addr@, queue: seq![wire@], closed: false },
                    )[t] by {
                    if t < prev.len() {
                        assert(self.entries@[t] == prev[t]);
                    } else {
                        assert(self.entries@[t] == new_entry);
                    }
                }
                assert(models(self.entries@) =~= pruned.push(
                    EntryModel { addr: src_addr@, queue: seq![wire@], closed: false },
                ));
                assert forall|a: int, b: int|
                    0 <= a < b < models(self.entries@).len() implies (#[trigger] models(
                        self.entries@,
                    )[a]).addr != (#[trigger] models(self.entries@)[b]).addr by {
                    if b < pruned.len() {
                        assert(pruned[a].addr != pruned[b].addr);
                    } else {
                        assert(models(self.entries@)[b].addr == src_addr@);
                        assert(models(self.entries@)[a] == pruned[a]);
                        if pruned[a].addr == src_addr@ {
                            assert(has_entry(pruned, src_addr@));
                        }
                    }
                }
                assert forall|j: int|
                    0 <= j < models(self.entries@).len() implies (#[trigger] models(
                        self.entries@,
                    )[j]).addr.len() == ADDR_LEN && models(self.entries@)[j].queue.len()
                        <= QUEUE_CAPACITY by {
                    if j < pruned.len() {
                        assert(pruned[j].addr.len() == ADDR_LEN && pruned[j].queue.len()
                            <= QUEUE_CAPACITY);
                    }
                }
                assert forall|j: int|
                    0 <= j < final(self)@.entries.len() && (#[trigger] final(self)@.entries[j]).addr != src_addr@ implies exists|k: int|
                    0 <= k < old(self)@.entries.len() && (#[trigger] old(self)@.entries[k]).addr
                        == final(self)@.entries[j].addr && old(self)@.entries[k].queue == final(self)@.entries[j].queue by {
                    assert(j < pruned.len());
                    assert(models(self.entries@)[j] == pruned[j]);
                    lemma_filter_element_index(orig, open_pred(), j);
                    let k = choose|k: int|
                        0 <= k < orig.len() && orig[k] == pruned[j];
                    assert(old(self)@.entries[k].addr == final(self)@.entries[j].addr);
                }
            }
        }
    }
}

impl Demux {
    /// Take the oldest queued frame for `addr`, if its slot exists and
    /// holds one. Every other slot is left exactly as it is, and `None`
    /// comes back only when no slot for `addr` holds a frame.
    pub fn pop_frame(&mut self, addr: &[u8]) -> (r: Option<Vec<u8>>)
        requires
            old(self).wf(),
        ensures
            final(self).wf(),
            final(self)@.local == old(self)@.local,
            final(self)@.incoming == old(self)@.incoming,
            final(self)@.entries.len() == old(self)@.entries.len(),
            forall|j: int|
                0 <= j < final(self)@.entries.len() && (#[trigger] old(self)@.entries[j]).addr
                    != addr@ ==> final(self)@.entries[j] == old(self)@.entries[j],
            (match r {
                Some(frame) => has_entry(old(self)@.entries, addr@) && exists|j: int|
                    0 <= j < old(self)@.entries.len() && (#[trigger] old(self)@.entries[j]).addr
                        == addr@ && old(self)@.entries[j].queue.len() > 0 && frame@ == old(
                        self,
                    )@.entries[j].queue[0] && final(self)@.entries[j].queue == old(
                        self,
                    )@.entries[j].queue.drop_first(),
                None => final(self)@ == old(self)@ && forall|j: int|
                    0 <= j < old(self)@.entries.len() && (#[trigger] old(self)@.entries[j]).addr
                        == addr@ ==> old(self)@.entries[j].queue.len() == 0,
            }),
    {
        let slot = find_slot(&self.entries, addr);
        let i = match slot {
            Some(i) => i,
            None => {
                return None;
            },
        };
        let ghost prev = self.entries@;
        proof {
            assert(models(prev) == old(self)@.entries);
            assert(old(self)@.entries[i as int].queue.len() <= QUEUE_CAPACITY);
        }
        let mut entry = self.entries.remove(i);
        let ghost mid = self.entries@;
        assert(entry@.queue.len() <= QUEUE_CAPACITY);
        let popped = entry.queue.pop();
        self.entries.insert(i, entry);
        proof {
            assert forall|j: int|
                0 <= j < self.entries@.len() && j != i implies self.entries@[j] == prev[j] by {
                if j < i {
                    assert(self.entries@[j] == mid[j]);
                    assert(mid[j] == prev[j]);
                } else {
                    assert(self.entries@[j] == mid[j - 1]);
                    assert(mid[j - 1] == prev[j]);
                }
            }
            assert(self.entries@[i as int] == entry);
            assert forall|j: int|
                0 <= j < models(self.entries@).len() && j != i implies models(self.entries@)[j]
                    == models(prev)[j] by {
                assert(self.entries@[j] == prev[j]);
            }
            assert(models(self.entries@)[i as int].addr == models(prev)[i as int].addr);
            assert(models(self.entries@)[i as int].closed == models(prev)[i as int].closed);
            assert forall|a: int, b: int|
                0 <= a < b < models(self.entries@).len() implies (#[trigger] models(
                    self.entries@,
                )[a]).addr != (#[trigger] models(self.entries@)[b]).addr by {
                assert(old(self)@.entries[a].addr != old(self)@.entries[b].addr);
                assert(models(prev)[a].addr != models(prev)[b].addr);
                assert(models(self.entries@)[a].addr == models(prev)[a].addr);
                assert(models(self.entries@)[b].addr == models(prev)[b].addr);
            }
            assert forall|j: int|
                0 <= j < models(self.entries@).len() implies (#[trigger] models(
                    self.entries@,
                )[j]).addr.len() == ADDR_LEN && models(self.entries@)[j].queue.len()
                    <= QUEUE_CAPACITY by {
                assert(old(self)@.entries[j].addr.len() == ADDR_LEN && old(
                    self,
                )@.entries[j].queue.len() <= QUEUE_CAPACITY);
                assert(models(prev)[j].addr.len() == ADDR_LEN && models(prev)[j].queue.len()
                    <= QUEUE_CAPACITY);
            }
        }
        match popped {
            Some(frame) => {
                proof {
                    assert(models(prev)[i as int].addr == addr@);
                    assert(models(prev)[i as int].queue.len() > 0);
                    assert(frame@ == models(prev)[i as int].queue[0]);
                    assert(models(self.entries@)[i as int].queue == models(
                        prev,
                    )[i as int].queue.drop_first());
                }
                Some(frame)
            },
            None => {
                proof {
                    assert(models(self.entries@)[i as int] =~= models(prev)[i as int]);
                    assert(models(self.entries@) =~= models(prev));
                    assert(models(prev)[i as int].queue.len() == 0);
                    assert forall|j: int|
                        0 <= j < models(prev).len() && (#[trigger] models(prev)[j]).addr == addr@
                            implies models(prev)[j].queue.len() == 0 by {
                        if j != i {
                            assert(models(prev)[j].addr != models(prev)[i as int].addr);
                        }
                    }
                }
                None
            },
        }
    }
}

/// The index of the slot serving `addr`, if one exists.
fn find_slot(entries: &Vec<DemuxEntry>, addr: &[u8]) -> (r: Option<usize>)
    ensures
        (match r {
            Some(i) => i < entries@.len() && models(entries@)[i as int].addr == addr@,
            None => forall|j: int|
                0 <= j < entries@.len() ==> (#[trigger] models(entries@)[j]).addr != addr@,
        }),
{
    let mut i: usize = 0;
    while i < entries.len()
        invariant
            i <= entries@.len(),
            forall|j: int| 0 <= j < i ==> (#[trigger] models(entries@)[j]).addr != addr@,
        decreases entries@.len() - i,
    {
        if bytes_eq(entries[i].addr.as_slice(), addr) {
            return Some(i);
        }
        i = i + 1;
    }
    None
}

/// Every element of a filtered sequence stands somewhere in the
/// original.
proof fn lemma_filter_element_index(s: Seq<EntryModel>, pred: spec_fn(EntryModel) -> bool, i: int)
    requires
        0 <= i < s.filter(pred).len(),
    ensures
        exists|k: int| 0 <= k < s.len() && s[k] == s.filter(pred)[i],
    decreases s.len(),
{
    reveal(Seq::filter);
    if s.len() > 0 {
        let s1 = s.drop_last();
        if pred(s.last()) {
            if i < s1.filter(pred).len() {
                lemma_filter_element_index(s1, pred, i);
                let k = choose|k: int| 0 <= k < s1.len() && s1[k] == s1.filter(pred)[i];
                assert(s[k] == s.filter(pred)[i]);
            } else {
                assert(s[s.len() - 1] == s.filter(pred)[i]);
            }
        } else {
            lemma_filter_element_index(s1, pred, i);
            let k = choose|k: int| 0 <= k < s1.len() && s1[k] == s1.filter(pred)[i];
            assert(s[k] == s.filter(pred)[i]);
        }
    }
}

/// Distinct open slots come from distinct original slots, so their
/// addresses stay distinct.
proof fn filtered_distinct(s: Seq<EntryModel>, pred: spec_fn(EntryModel) -> bool, i: int, j: int)
    requires
        0 <= i < j < s.filter(pred).len(),
        forall|a: int, b: int|
            0 <= a < b < s.len() ==> (#[trigger] s[a]).addr != (#[trigger] s[b]).addr,
    ensures
        s.filter(pred)[i].addr != s.filter(pred)[j].addr,
    decreases s.len(),
{
    reveal(Seq::filter);
    if s.len() > 0 {
        let s1 = s.drop_last();
        assert(forall|a: int, b: int|
            0 <= a < b < s1.len() ==> (#[trigger] s1[a]).addr != (#[trigger] s1[b]).addr);
        if pred(s.last()) {
            if j < s1.filter(pred).len() {
                filtered_distinct(s1, pred, i, j);
            } else {
                assert(s.filter(pred)[j] == s.last());
                lemma_filter_element_index(s1, pred, i);
                let k = choose|k: int| 0 <= k < s1.len() && s1[k] == s1.filter(pred)[i];
                assert(s[k].addr != s[s.len() - 1].addr);
            }
        } else {
            filtered_distinct(s1, pred, i, j);
        }
    }
}


/// A filter keeps everything when every element satisfies the
/// predicate.
proof fn lemma_filter_all_open(s: Seq<EntryModel>)
    requires
        forall|j: int| 0 <= j < s.len() ==> entry_open(#[trigger] s[j]),
    ensures
        s.filter(open_pred()) == s,
    decreases s.len(),
{
    reveal(Seq::filter);
    if s.len() > 0 {
        lemma_filter_all_open(s.drop_last());
        assert(entry_open(s.last()));
        assert(s.filter(open_pred()) =~= s.drop_last().push(s.last()));
        assert(s.drop_last().push(s.last()) =~= s);
    } else {
        assert(s.filter(open_pred()) =~= s);
    }
}

/// With one slot per address, the queue looked up for an address is the
/// queue of the slot that holds it.
proof fn lemma_entry_queue_at(entries: Seq<EntryModel>, a: Seq<u8>, w: int)
    requires
        0 <= w < entries.len(),
        entries[w].addr == a,
        forall|i: int, j: int|
            0 <= i < j < entries.len() ==> (#[trigger] entries[i]).addr != (
            #[trigger] entries[j]).addr,
    ensures
        entry_queue(entries, a) == entries[w].queue,
{
    let c = choose|i: int| 0 <= i < entries.len() && entries[i].addr == a;
    if c < w {
        assert(entries[c].addr != entries[w].addr);
    } else if c > w {
        assert(entries[w].addr != entries[c].addr);
    }
}

/// Each newly seen peer surfaces exactly once: whatever other peers the
/// demultiplexer already serves, the first frame routed from an unseen
/// source creates that source's slot holding just that frame and
/// publishes the source once on `incoming`, and a second routed frame
/// from the same source joins the same slot's queue while `incoming`
/// stays as it is.
pub proof fn lemma_new_peer_surfaces_once(
    d0: DemuxModel,
    d1: DemuxModel,
    d2: DemuxModel,
    src: Seq<u8>,
    wire1: Seq<u8>,
    wire2: Seq<u8>,
)
    requires
        demux_wf(d0),
        demux_wf(d1),
        demux_wf(d2),
        !has_entry(d0.entries, src),
        d0.incoming.len() < QUEUE_CAPACITY,
        frame_routed(d0, d1, src, wire1),
        frame_routed(d1, d2, src, wire2),
    ensures
        d1.incoming == d0.incoming.push(src),
        has_entry(d1.entries, src),
        entry_queue(d1.entries, src) == seq![wire1],
        d2.incoming == d1.incoming,
        entry_queue(d2.entries, src) == seq![wire1, wire2],
{
    let pruned0 = d0.entries.filter(open_pred());
    assert(!has_entry(pruned0, src)) by {
        if has_entry(pruned0, src) {
            let j = choose|j: int| 0 <= j < pruned0.len() && pruned0[j].addr == src;
            lemma_filter_element_index(d0.entries, open_pred(), j);
            let k = choose|k: int| 0 <= k < d0.entries.len() && d0.entries[k] == pruned0[j];
            assert(has_entry(d0.entries, src));
        }
    }
    let fresh = EntryModel { addr: src, queue: seq![wire1], closed: false };
    let w = pruned0.len() as int;
    assert(d1.entries == pruned0.push(fresh));
    assert(d1.entries[w] == fresh);
    assert(has_entry(d1.entries, src));
    lemma_entry_queue_at(d1.entries, src, w);

    // every slot the first step left behind is open, so the second
    // step's pruning keeps them all
    assert forall|j: int| 0 <= j < d1.entries.len() implies entry_open(
        #[trigger] d1.entries[j],
    ) by {
        if j < w {
            d0.entries.lemma_filter_pred(open_pred(), j);
            assert(open_pred()(pruned0[j]));
        }
    }
    lemma_filter_all_open(d1.entries);
    let pruned1 = d1.entries.filter(open_pred());
    assert(pruned1 == d1.entries);
    assert(has_entry(pruned1, src));
    assert(d2.incoming == d1.incoming);
    assert(pruned1[w].addr == src);
    assert(d2.entries[w].queue == queue_push(pruned1[w].queue, wire2));
    assert(pruned1[w].queue == seq![wire1]);
    assert(queue_push(seq![wire1], wire2) =~= seq![wire1, wire2]);
    assert(d2.entries[w].addr == pruned1[w].addr);
    lemma_entry_queue_at(d2.entries, src, w);
}

} // verus!
