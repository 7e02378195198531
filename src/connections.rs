//! Server-side bookkeeping of the players' connections: waiting for the
//! expected number of players, the fixed order in which connections are
//! served, and dropping the ones that fail.
use vstd::prelude::*;

use crate::codec::{encode_turn, turn_bytes, CodecError, ServerTurn, MAX_PAYLOAD_LEN};
use crate::frame::{frame_bytes, write_frame};

verus! {

/// What accepting one more connection leads to.
#[derive(Clone, Copy, Debug, PartialEq, Eq, Structural)]
pub enum AcceptOutcome {
    /// Kept; more players are still expected.
    Waiting,
    /// Kept, and it was the last one expected: the game can start.
    Start,
    /// Not kept: the game has started already, or the identifier is taken.
    Refused,
}

/// The connections of a server, identified by numbers that the caller hands
/// out, in the order they were accepted.
pub struct ConnectionManager {
    expected: usize,
    active: Vec<u64>,
    started: bool,
}

impl ConnectionManager {
    /// The connections held, in the order they are served.
    pub closed spec fn active_ids(self) -> Seq<u64> {
        self.active@
    }

    /// How many players must connect before the game starts.
    pub closed spec fn expected_count(self) -> nat {
        self.expected as nat
    }

    /// Whether all expected players have connected.
    pub closed spec fn has_started(self) -> bool {
        self.started
    }

    pub open spec fn wf(self) -> bool {
        &&& self.active_ids().no_duplicates()
        &&& self.active_ids().len() <= self.expected_count()
        &&& !self.has_started() ==> self.active_ids().len() < self.expected_count()
    }

    /// A manager that waits for `expected` players; with none expected, the
    /// game can start at once.
    pub fn new(expected: usize) -> (r: Self)
        ensures
            r.wf(),
            r.active_ids() == Seq::<u64>::empty(),
            r.expected_count() == expected,
            r.has_started() == (expected == 0),
    {
        ConnectionManager { expected, active: Vec::new(), started: expected == 0 }
    }

    /// Takes in an accepted connection. Until the expected number is held,
    /// each new connection is kept; the one that completes the number starts
    /// the game, which happens once. After that, or for an identifier already
    /// held, the connection is refused and nothing changes.
    pub fn on_accept(&mut self, id: u64) -> (r: AcceptOutcome)
        requires
            old(self).wf(),
        ensures
            final(self).wf(),
            final(self).expected_count() == old(self).expected_count(),
            old(self).has_started() || old(self).active_ids().contains(id) ==> {
                &&& r == AcceptOutcome::Refused
                &&& *final(self) == *old(self)
            },
            !old(self).has_started() && !old(self).active_ids().contains(id) ==> {
                &&& final(self).active_ids() == old(self).active_ids().push(id)
                &&& final(self).has_started() == (old(self).active_ids().len() + 1
                    == old(self).expected_count())
                &&& r == if final(self).has_started() {
                    AcceptOutcome::Start
                } else {
                    AcceptOutcome::Waiting
                }
            },
    {
        if self.started || self.holds(id) {
            return AcceptOutcome::Refused;
        }
        self.active.push(id);
        if self.active.len() == self.expected {
            self.started = true;
            AcceptOutcome::Start
        } else {
            AcceptOutcome::Waiting
        }
    }

    /// Whether all expected players have connected.
    pub fn is_ready(&self) -> (r: bool)
        ensures
            r == self.has_started(),
    {
        self.started
    }

    /// Whether the connection is held.
    pub fn holds(&self, id: u64) -> (r: bool)
        ensures
            r == self.active_ids().contains(id),
    {
        let n = self.active.len();
        let mut k: usize = 0;
        while k < n
            invariant
                k <= n,
                n == self.active@.len(),
                forall|i: int| 0 <= i < k ==> self.active@[i] != id,
            decreases n - k,
        {
            if self.active[k] == id {
                return true;
            }
            k = k + 1;
        }
        false
    }

    /// The connections held, in the order they are served.
    pub fn active(&self) -> (r: &Vec<u64>)
        ensures
            r@ == self.active_ids(),
    {
        &self.active
    }

    /// Drops a connection that failed; the others keep their order.
    pub fn remove(&mut self, id: u64)
        requires
            old(self).wf(),
        ensures
            final(self).wf(),
            final(self).active_ids() == old(self).active_ids().filter(|y: u64| y != id),
            final(self).expected_count() == old(self).expected_count(),
            final(self).has_started() == old(self).has_started(),
    {
        let ghost before = self.active@;
        let n = self.active.len();
        let mut kept: Vec<u64> = Vec::new();
        let mut k: usize = 0;
        while k < n
            invariant
                k <= n,
                n == before.len(),
                self.active@ == before,
                kept@ == before.take(k as int).filter(|y: u64| y != id),
                kept@.len() <= k,
                forall|i: int| 0 <= i < kept@.len() ==> before.take(k as int).contains(#[trigger] kept@[i]),
                kept@.no_duplicates(),
                before.no_duplicates(),
            decreases n - k,
        {
            let x = self.active[k];
            proof {
                reveal(Seq::filter);
                assert(before.take(k + 1).drop_last() =~= before.take(k as int));
                assert(before.take(k + 1).last() == x);
                if x != id {
                    assert(before.take(k + 1).filter(|y: u64| y != id) == before.take(k as int).filter(|y: u64| y != id).push(x));
                } else {
                    assert(before.take(k + 1).filter(|y: u64| y != id) == before.take(k as int).filter(|y: u64| y != id));
                }
            }
            if x != id {
                proof {
                    assert forall|i: int| 0 <= i < kept@.len() implies #[trigger] kept@[i] != x by {
                        let j = choose|j: int| 0 <= j < k && before.take(k as int)[j] == kept@[i];
                        assert(before[j] == kept@[i]);
                    }
                }
                kept.push(x);
            }
            proof {
                assert forall|i: int| 0 <= i < kept@.len() implies before.take(k + 1).contains(
                    #[trigger] kept@[i],
                ) by {
                    if i < kept@.len() - 1 || x == id {
                        let j = choose|j: int| 0 <= j < k && before.take(k as int)[j] == kept@[i];
                        assert(before.take(k + 1)[j] == kept@[i]);
                    } else {
                        assert(before.take(k + 1)[k as int] == kept@[i]);
                    }
                }
            }
            k = k + 1;
        }
        assert(before.take(n as int) =~= before);
        self.active = kept;
    }
}

/// The frame that carries the turn to every connection: the turn is encoded
/// once, and fails to go out when its encoding does not fit in a frame.
pub fn broadcast_frame(turn: &ServerTurn) -> (r: Result<Vec<u8>, CodecError>)
    ensures
        match r {
            Ok(f) => turn_bytes(turn@).len() <= MAX_PAYLOAD_LEN && f@ == frame_bytes(turn_bytes(turn@)),
            Err(e) => e == CodecError::SerializationTooLarge && turn_bytes(turn@).len() > MAX_PAYLOAD_LEN,
        },
{
    match encode_turn(turn) {
        Ok(bytes) => Ok(write_frame(bytes.as_slice())),
        Err(e) => Err(e),
    }
}

} // verus!
