//! Server-side batching of decoded player actions into turns.
//!
//! Actions are kept per connection slot. A turn lists them by slot, in the
//! fixed slot order, and within a slot in the order they arrived.
use vstd::prelude::*;

use crate::codec::{parse_action, PlayerAction, ServerTurn};
use crate::frame::{
    ends_connection, read_frames, read_rest, FrameReader, ReadOutcome,
};
use crate::receive::receive_actions;

verus! {

/// The actions of all slots, joined in slot order.
pub open spec fn flatten(buckets: Seq<Seq<PlayerAction>>) -> Seq<PlayerAction>
    decreases buckets.len(),
{
    if buckets.len() == 0 {
        Seq::empty()
    } else {
        flatten(buckets.drop_last()) + buckets.last()
    }
}

/// The turn in progress of a server.
pub struct ActionAggregator {
    buckets: Vec<Vec<PlayerAction>>,
    min_batch_size: usize,
}

impl ActionAggregator {
    /// The actions waiting for the next turn, per slot.
    pub closed spec fn pending(self) -> Seq<Seq<PlayerAction>> {
        self.buckets@.map_values(|b: Vec<PlayerAction>| b@)
    }

    /// The fewest actions a turn is flushed with.
    pub closed spec fn min_batch(self) -> nat {
        self.min_batch_size as nat
    }

    /// An aggregator for `slots` connections that flushes a turn once it holds
    /// at least `min_batch_size` actions. A size of 0 flushes every tick, empty
    /// turns included; a size of 1 flushes every tick that saw an action.
    pub fn new(slots: usize, min_batch_size: usize) -> (r: Self)
        ensures
            r.pending() == Seq::new(slots as nat, |i: int| Seq::<PlayerAction>::empty()),
            r.min_batch() == min_batch_size,
    {
        let r = ActionAggregator { buckets: empty_buckets(slots), min_batch_size };
        assert(r.pending() =~= Seq::new(slots as nat, |i: int| Seq::<PlayerAction>::empty()));
        r
    }

    /// The number of connection slots.
    pub fn slots(&self) -> (r: usize)
        ensures
            r == self.pending().len(),
    {
        self.buckets.len()
    }

    /// Adds an action that arrived on connection slot `slot` behind those
    /// that arrived there before it.
    pub fn push(&mut self, slot: usize, action: PlayerAction)
        requires
            slot < old(self).pending().len(),
        ensures
            final(self).pending() == old(self).pending().update(
                slot as int,
                old(self).pending()[slot as int].push(action),
            ),
            final(self).min_batch() == old(self).min_batch(),
    {
        let ghost before = self.pending();
        self.buckets[slot].push(action);
        assert(self.pending() =~= before.update(slot as int, before[slot as int].push(action)));
    }

    /// Ends the tick: when at least the minimum batch of actions is waiting,
    /// returns them all as one turn, in slot order, and starts an empty one;
    /// otherwise keeps them for a later tick and returns nothing.
    pub fn flush(&mut self) -> (r: Option<ServerTurn>)
        ensures
            final(self).min_batch() == old(self).min_batch(),
            flatten(old(self).pending()).len() >= old(self).min_batch() ==> (r matches Some(t) && t@
                == flatten(old(self).pending())),
            flatten(old(self).pending()).len() >= old(self).min_batch() ==> final(self).pending()
                == Seq::new(old(self).pending().len(), |i: int| Seq::<PlayerAction>::empty()),
            flatten(old(self).pending()).len() < old(self).min_batch() ==> r is None,
            flatten(old(self).pending()).len() < old(self).min_batch() ==> final(self).pending()
                == old(self).pending(),
    {
        let ghost before = self.pending();
        let n = self.buckets.len();
        let mut total: usize = 0;
        let mut k: usize = 0;
        while k < n
            invariant
                k <= n,
                n == before.len(),
                self.pending() == before,
                total == capped(flatten(before.take(k as int)).len()),
            decreases n - k,
        {
            proof {
                assert(before.take(k + 1).drop_last() =~= before.take(k as int));
            }
            total = total.saturating_add(self.buckets[k].len());
            k = k + 1;
        }
        assert(before.take(n as int) =~= before);
        if total < self.min_batch_size {
            return None;
        }
        let mut actions: Vec<PlayerAction> = Vec::new();
        let mut k: usize = 0;
        while k < n
            invariant
                k <= n,
                n == before.len(),
                self.buckets@.len() == n,
                actions@ == flatten(before.take(k as int)),
                self.pending() == before,
            decreases n - k,
        {
            let bucket = &self.buckets[k];
            proof {
                assert(before.take(k + 1).drop_last() =~= before.take(k as int));
            }
            let mut j: usize = 0;
            let m = bucket.len();
            while j < m
                invariant
                    j <= m,
                    m == bucket@.len(),
                    bucket@ == before[k as int],
                    actions@ == flatten(before.take(k as int)) + bucket@.take(j as int),
                decreases m - j,
            {
                actions.push(bucket[j]);
                j = j + 1;
                assert(actions@ =~= flatten(before.take(k as int)) + bucket@.take(j as int));
            }
            assert(bucket@.take(m as int) =~= bucket@);
            k = k + 1;
        }
        assert(before.take(n as int) =~= before);
        self.buckets = empty_buckets(n);
        assert(self.pending() =~= Seq::new(n as nat, |i: int| Seq::<PlayerAction>::empty()));
        Some(ServerTurn::new(actions))
    }

    /// Decodes what a read on the connection in slot `slot` completed and adds
    /// the actions behind those of that slot. Returns whether the connection
    /// is still usable. A disconnect ends it, and so does a frame that is not an
    /// action's encoding: the connection is then closed and none of the
    /// actions of that read are kept.
    pub fn ingest(
        &mut self,
        slot: usize,
        conn: u64,
        reader: &mut FrameReader,
        outcome: ReadOutcome,
    ) -> (r: bool)
        requires
            old(reader).wf(),
            slot < old(self).pending().len(),
            ensures
            final(reader).wf(),
            final(self).min_batch() == old(self).min_batch(),
            r == !final(reader).is_closed(),
            r <==> {
                &&& !old(reader).is_closed()
                &&& !ends_connection(outcome)
                &&& forall|i: int|
                    0 <= i < read_frames(old(reader).pending(), outcome).len()
                        ==> #[trigger] parse_action(read_frames(old(reader).pending(), outcome)[i]) is Some
            },
            r ==> final(reader).pending() == read_rest(old(reader).pending(), outcome),
            r ==> final(self).pending() == old(self).pending().update(
                slot as int,
                old(self).pending()[slot as int] + read_frames(
                    old(reader).pending(),
                    outcome,
                ).map_values(|p: Seq<u8>| parse_action(p).unwrap()),
            ),
            !r ==> final(self).pending() == old(self).pending(),
    {
        let ghost frames = read_frames(reader.pending(), outcome);
        let decoded = match receive_actions(reader, conn, outcome) {
            Some(decoded) => decoded,
            None => {
                return false;
            },
        };
        let n = decoded.len();
        let ghost start = self.pending();
        let ghost added = frames.map_values(|p: Seq<u8>| parse_action(p).unwrap());
        assert(decoded@ =~= added);
        assert forall|j: int| 0 <= j < frames.len() implies #[trigger] parse_action(frames[j]) is Some by {
            assert(parse_action(frames[j]) == Some(decoded@[j]));
        }
        let mut k: usize = 0;
        while k < n
            invariant
                k <= n,
                n == decoded@.len(),
                slot < start.len(),
                self.min_batch() == old(self).min_batch(),
                self.pending() == start.update(slot as int, start[slot as int] + decoded@.take(k as int)),
            decreases n - k,
        {
            self.push(slot, decoded[k]);
            proof {
                assert(start[slot as int] + decoded@.take(k + 1) =~= (start[slot as int] + decoded@.take(k as int)).push(decoded@[k as int]));
                assert(self.pending() =~= start.update(slot as int, start[slot as int] + decoded@.take(k + 1)));
            }
            k = k + 1;
        }
        assert(decoded@.take(n as int) =~= decoded@);
        true
    }
}

fn empty_buckets(slots: usize) -> (r: Vec<Vec<PlayerAction>>)
    ensures
        r@.len() == slots,
        forall|i: int| 0 <= i < slots ==> (#[trigger] r@[i])@ == Seq::<PlayerAction>::empty(),
{
    let mut buckets: Vec<Vec<PlayerAction>> = Vec::new();
    let mut k: usize = 0;
    while k < slots
        invariant
            k <= slots,
            buckets@.len() == k,
            forall|i: int| 0 <= i < k ==> (#[trigger] buckets@[i])@ == Seq::<PlayerAction>::empty(),
        decreases slots - k,
    {
        buckets.push(Vec::new());
        k = k + 1;
    }
    buckets
}

/// `n`, or the largest `usize` where `n` is larger.
pub open spec fn capped(n: nat) -> usize {
    if n > usize::MAX {
        usize::MAX
    } else {
        n as usize
    }
}

} // verus!
