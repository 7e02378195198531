//! The outbound queue: payloads waiting to be written to the socket, in the
//! order they were handed over.
use std::collections::VecDeque;
use vstd::prelude::*;

use crate::codec::MAX_PAYLOAD_LEN;
use crate::frame::{frame_bytes, write_frame};

verus! {

/// A payload waiting to be sent, with its length as the frame header will
/// carry it.
pub struct Message {
    length: u16,
    payload: Vec<u8>,
}

/// Why a payload was not queued.
#[derive(Clone, Copy, Debug, PartialEq, Eq, Structural)]
pub enum TransportError {
    /// The payload does not fit in one frame.
    PayloadTooLarge,
}

impl View for Message {
    type V = Seq<u8>;

    closed spec fn view(&self) -> Seq<u8> {
        self.payload@
    }
}

impl Message {
    #[verifier::type_invariant]
    spec fn inv(self) -> bool {
        &&& self.payload@.len() <= MAX_PAYLOAD_LEN
        &&& self.length as int == self.payload@.len()
    }

    /// The payload's length in bytes.
    pub fn length(&self) -> (r: u16)
        ensures
            r as int == self@.len(),
    {
        proof {
            use_type_invariant(self);
        }
        self.length
    }

    pub fn payload(&self) -> (r: &Vec<u8>)
        ensures
            r@ == self@,
    {
        &self.payload
    }

    /// The frame that carries the payload on the wire.
    pub fn to_frame(&self) -> (r: Vec<u8>)
        ensures
            r@ == frame_bytes(self@),
    {
        proof {
            use_type_invariant(self);
        }
        write_frame(self.payload.as_slice())
    }
}

/// The outbound queue of one endpoint.
pub struct Transport {
    messages: VecDeque<Message>,
}

/// The payloads of the messages, in order.
pub open spec fn payloads(m: Seq<Message>) -> Seq<Seq<u8>> {
    m.map_values(|x: Message| x@)
}

impl Transport {
    /// The payloads waiting to be sent, oldest first.
    pub closed spec fn queued(self) -> Seq<Seq<u8>> {
        payloads(self.messages@)
    }

    pub fn new() -> (r: Self)
        ensures
            r.queued() == Seq::<Seq<u8>>::empty(),
    {
        let r = Transport { messages: VecDeque::new() };
        assert(r.queued() =~= Seq::<Seq<u8>>::empty());
        r
    }

    /// Queues a payload behind those already waiting. A payload that does not
    /// fit in one frame is refused and the queue stays as it was.
    pub fn send(&mut self, payload: Vec<u8>) -> (r: Result<(), TransportError>)
        ensures
            payload@.len() <= MAX_PAYLOAD_LEN ==> r is Ok && final(self).queued() == old(
                self,
            ).queued().push(payload@),
            payload@.len() > MAX_PAYLOAD_LEN ==> r == Err::<(), TransportError>(
                TransportError::PayloadTooLarge,
            ) && final(self).queued() == old(self).queued(),
    {
        if payload.len() > MAX_PAYLOAD_LEN {
            return Err(TransportError::PayloadTooLarge);
        }
        let ghost p = payload@;
        let message = Message { length: payload.len() as u16, payload };
        self.messages.push_back(message);
        assert(self.queued() =~= old(self).queued().push(p));
        Ok(())
    }

    /// Takes every queued message off the queue, oldest first.
    pub fn drain_messages(&mut self) -> (r: Vec<Message>)
        ensures
            payloads(r@) == old(self).queued(),
            final(self).queued() == Seq::<Seq<u8>>::empty(),
    {
        let mut out: Vec<Message> = Vec::new();
        loop
            invariant
                payloads(out@) + payloads(self.messages@) == old(self).queued(),
            ensures
                payloads(out@) == old(self).queued(),
                self.messages@.len() == 0,
            decreases self.messages@.len(),
        {
            let ghost before = self.messages@;
            match self.messages.pop_front() {
                Some(m) => {
                    proof {
                        assert(payloads(out@.push(m)) =~= payloads(out@).push(m@));
                        assert(payloads(before) =~= seq![m@] + payloads(self.messages@));
                        assert(payloads(out@).push(m@) + payloads(self.messages@) =~= payloads(out@)
                            + payloads(before));
                    }
                    out.push(m);
                },
                None => {
                    assert(payloads(self.messages@) =~= Seq::<Seq<u8>>::empty());
                    assert(payloads(out@) + Seq::<Seq<u8>>::empty() =~= payloads(out@));
                    break ;
                },
            }
        }
        assert(self.queued() =~= Seq::<Seq<u8>>::empty());
        out
    }
}

impl Default for Transport {
    fn default() -> (r: Self)
        ensures
            r.queued() == Seq::<Seq<u8>>::empty(),
    {
        Transport::new()
    }
}

} // verus!
