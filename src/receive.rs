//! Decoding what a read on a connection completed: the actions that a client
//! sent to the server, or the turns that the server sent to a client.
use vstd::prelude::*;

use crate::codec::{
    action_bytes, decode_action, decode_turn, lemma_action_round_trip, lemma_turn_round_trip,
    parse_action, parse_turn, turn_bytes, PlayerAction, ServerTurn, MAX_PAYLOAD_LEN,
};
use crate::frame::{
    ends_connection, frame_bytes, frame_rest, is_message, lemma_frame_round_trip, read_frames,
    read_rest, split_frames, FrameReader, NetworkSimulationEvent, ReadOutcome,
};

verus! {

/// Decodes the actions that a read on a client's connection completed, in the
/// order they were sent. Returns `None` once the connection is of no more use:
/// it was closed or failed, or it sent a frame that is not an action's
/// encoding, after which the reader is closed.
pub fn receive_actions(reader: &mut FrameReader, conn: u64, outcome: ReadOutcome) -> (r: Option<
    Vec<PlayerAction>,
>)
    requires
        old(reader).wf(),
    ensures
        final(reader).wf(),
        r is Some == !final(reader).is_closed(),
        r is Some <==> {
            &&& !old(reader).is_closed()
            &&& !ends_connection(outcome)
            &&& forall|i: int|
                0 <= i < read_frames(old(reader).pending(), outcome).len()
                    ==> #[trigger] parse_action(read_frames(old(reader).pending(), outcome)[i]) is Some
        },
        r matches Some(actions) ==> {
            &&& final(reader).pending() == read_rest(old(reader).pending(), outcome)
            &&& actions@.len() == read_frames(old(reader).pending(), outcome).len()
            &&& forall|i: int|
                0 <= i < actions@.len() ==> parse_action(read_frames(old(reader).pending(), outcome)[i])
                    == Some(#[trigger] actions@[i])
        },
{
    let ghost frames = read_frames(reader.pending(), outcome);
    let ghost rest = read_rest(reader.pending(), outcome);
    if reader.closed() {
        return None;
    }
    let events = reader.handle_read(conn, outcome);
    if reader.closed() {
        return None;
    }
    let n = events.len();
    let mut actions: Vec<PlayerAction> = Vec::new();
    let mut i: usize = 0;
    while i < n
        invariant
            i <= n,
            n == events@.len(),
            n == frames.len(),
            frames == read_frames(old(reader).pending(), outcome),
            !ends_connection(outcome),
            !old(reader).is_closed(),
            reader.wf(),
            !reader.is_closed(),
            reader.pending() == rest,
            rest == read_rest(old(reader).pending(), outcome),
            forall|j: int| 0 <= j < n ==> is_message(#[trigger] events@[j], conn, frames[j]),
            actions@.len() == i,
            forall|j: int| 0 <= j < i ==> parse_action(frames[j]) == Some(#[trigger] actions@[j]),
        decreases n - i,
    {
        assert(is_message(events@[i as int], conn, frames[i as int]));
        match &events[i] {
            NetworkSimulationEvent::Message(_, p) => {
                match decode_action(p.as_slice()) {
                    Ok(a) => {
                        actions.push(a);
                    },
                    Err(_) => {
                        assert(parse_action(frames[i as int]) is None);
                        reader.close();
                        return None;
                    },
                }
            },
            _ => {
                reader.close();
                return None;
            },
        }
        i = i + 1;
    }
    assert forall|j: int| 0 <= j < frames.len() implies #[trigger] parse_action(frames[j]) is Some by {
        assert(parse_action(frames[j]) == Some(actions@[j]));
    }
    Some(actions)
}


/// Decodes the turns that a read on the connection to the server completed,
/// in the order they were sent. Returns `None` once the connection is of no
/// more use: it was closed or failed, or it sent a frame that is not a turn's
/// encoding, after which the reader is closed.
pub fn receive_turns(reader: &mut FrameReader, conn: u64, outcome: ReadOutcome) -> (r: Option<
    Vec<ServerTurn>,
>)
    requires
        old(reader).wf(),
    ensures
        final(reader).wf(),
        r is Some == !final(reader).is_closed(),
        r is Some <==> {
            &&& !old(reader).is_closed()
            &&& !ends_connection(outcome)
            &&& forall|i: int|
                0 <= i < read_frames(old(reader).pending(), outcome).len()
                    ==> #[trigger] parse_turn(read_frames(old(reader).pending(), outcome)[i]) is Some
        },
        r matches Some(turns) ==> {
            &&& final(reader).pending() == read_rest(old(reader).pending(), outcome)
            &&& turns@.len() == read_frames(old(reader).pending(), outcome).len()
            &&& forall|i: int|
                0 <= i < turns@.len() ==> parse_turn(read_frames(old(reader).pending(), outcome)[i])
                    == Some(#[trigger] turns@[i]@)
        },
{
    let ghost frames = read_frames(reader.pending(), outcome);
    let ghost rest = read_rest(reader.pending(), outcome);
    if reader.closed() {
        return None;
    }
    let events = reader.handle_read(conn, outcome);
    if reader.closed() {
        return None;
    }
    let n = events.len();
    let mut turns: Vec<ServerTurn> = Vec::new();
    let mut i: usize = 0;
    while i < n
        invariant
            i <= n,
            n == events@.len(),
            n == frames.len(),
            frames == read_frames(old(reader).pending(), outcome),
            !ends_connection(outcome),
            !old(reader).is_closed(),
            reader.wf(),
            !reader.is_closed(),
            reader.pending() == rest,
            rest == read_rest(old(reader).pending(), outcome),
            forall|j: int| 0 <= j < n ==> is_message(#[trigger] events@[j], conn, frames[j]),
            turns@.len() == i,
            forall|j: int| 0 <= j < i ==> parse_turn(frames[j]) == Some(#[trigger] turns@[j]@),
        decreases n - i,
    {
        assert(is_message(events@[i as int], conn, frames[i as int]));
        match &events[i] {
            NetworkSimulationEvent::Message(_, p) => {
                match decode_turn(p.as_slice()) {
                    Ok(t) => {
                        turns.push(t);
                    },
                    Err(_) => {
                        assert(parse_turn(frames[i as int]) is None);
                        reader.close();
                        return None;
                    },
                }
            },
            _ => {
                reader.close();
                return None;
            },
        }
        i = i + 1;
    }
    assert forall|j: int| 0 <= j < frames.len() implies #[trigger] parse_turn(frames[j]) is Some by {
        assert(parse_turn(frames[j]) == Some(turns@[j]@));
    }
    Some(turns)
}

/// An action that a client frames and sends reaches the server's reader as
/// exactly one payload, which decodes to the same action, and leaves nothing
/// pending.
pub proof fn lemma_action_delivered(a: PlayerAction)
    ensures
        split_frames(frame_bytes(action_bytes(a))) == seq![action_bytes(a)],
        frame_rest(frame_bytes(action_bytes(a))) == Seq::<u8>::empty(),
        parse_action(split_frames(frame_bytes(action_bytes(a)))[0]) == Some(a),
{
    let p = action_bytes(a);
    assert(p.len() <= 20);
    lemma_frame_round_trip(p, Seq::empty());
    assert(frame_bytes(p) + Seq::<u8>::empty() =~= frame_bytes(p));
    assert(split_frames(Seq::<u8>::empty()) == Seq::<Seq<u8>>::empty());
    assert(seq![p] + Seq::<Seq<u8>>::empty() =~= seq![p]);
    lemma_action_round_trip(a);
}

/// A turn that the server frames and broadcasts reaches a client's reader as
/// exactly one payload, which decodes to the same actions in the same order,
/// and leaves nothing pending.
pub proof fn lemma_turn_delivered(v: Seq<PlayerAction>)
    requires
        v.len() <= u64::MAX,
        turn_bytes(v).len() <= MAX_PAYLOAD_LEN,
    ensures
        split_frames(frame_bytes(turn_bytes(v))) == seq![turn_bytes(v)],
        frame_rest(frame_bytes(turn_bytes(v))) == Seq::<u8>::empty(),
        parse_turn(split_frames(frame_bytes(turn_bytes(v)))[0]) == Some(v),
{
    let p = turn_bytes(v);
    lemma_frame_round_trip(p, Seq::empty());
    assert(frame_bytes(p) + Seq::<u8>::empty() =~= frame_bytes(p));
    assert(split_frames(Seq::<u8>::empty()) == Seq::<Seq<u8>>::empty());
    assert(seq![p] + Seq::<Seq<u8>>::empty() =~= seq![p]);
    lemma_turn_round_trip(v);
}

} // verus!
