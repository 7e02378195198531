//! Length-prefixed framing: a frame is a two-byte big-endian payload length
//! followed by the payload. The reader buffers what arrives on a connection
//! and hands out each complete frame's payload, however the bytes were split
//! into reads.
use vstd::prelude::*;
use vstd::slice::slice_subrange;

use crate::codec::MAX_PAYLOAD_LEN;

verus! {

// ---------------------------------------------------------------------------
// The receive buffer
// ---------------------------------------------------------------------------

/// The growable byte buffer of the `bytes` crate, opaque here: what it holds
/// is named by `buffer_contents`.
#[verifier::external_type_specification]
#[verifier::external_body]
pub struct ExBytesMut(bytes::BytesMut);

/// The bytes that a `BytesMut` holds, in order.
pub uninterp spec fn buffer_contents(b: bytes::BytesMut) -> Seq<u8>;

/// Relies on `BytesMut::with_capacity`: the new buffer holds no bytes. It
/// allocates through `Vec::with_capacity`, which panics past `isize::MAX`
/// bytes; the precondition rules that out.
pub assume_specification[ bytes::BytesMut::with_capacity ](capacity: usize) -> (r:
    bytes::BytesMut)
    requires
        capacity <= isize::MAX,
    ensures
        buffer_contents(r) == Seq::<u8>::empty(),
;

/// Relies on `BytesMut::len`: the number of bytes held.
pub assume_specification[ bytes::BytesMut::len ](b: &bytes::BytesMut) -> (r: usize)
    ensures
        r == buffer_contents(*b).len(),
;

/// Relies on `BytesMut::extend_from_slice`: appends the slice. Growing the
/// buffer panics when the length overflows `usize` or the allocation passes
/// `isize::MAX` bytes; the precondition keeps the contents below that.
pub assume_specification[ bytes::BytesMut::extend_from_slice ](
    b: &mut bytes::BytesMut,
    extend: &[u8],
)
    requires
        buffer_contents(*old(b)).len() + extend@.len() <= isize::MAX,
    ensures
        buffer_contents(*final(b)) == buffer_contents(*old(b)) + extend@,
;

/// Relies on `BytesMut::split_to`: returns the first `at` bytes and keeps the
/// rest; it panics when `at` exceeds the length, which the precondition rules
/// out.
pub assume_specification[ bytes::BytesMut::split_to ](b: &mut bytes::BytesMut, at: usize) -> (r:
    bytes::BytesMut)
    requires
        at <= buffer_contents(*old(b)).len(),
    ensures
        buffer_contents(r) == buffer_contents(*old(b)).subrange(0, at as int),
        buffer_contents(*final(b)) == buffer_contents(*old(b)).subrange(
            at as int,
            buffer_contents(*old(b)).len() as int,
        ),
;

/// Relies on `BytesMut`'s `Deref` to `[u8]`: byte `i` of the buffer.
#[verifier::external_body]
fn buffer_byte(b: &bytes::BytesMut, i: usize) -> (r: u8)
    requires
        i < buffer_contents(*b).len(),
    ensures
        r == buffer_contents(*b)[i as int],
{
    b[i]
}

/// Relies on `From<BytesMut> for Vec<u8>`: the vector holds the same bytes.
#[verifier::external_body]
fn buffer_into_vec(b: bytes::BytesMut) -> (r: Vec<u8>)
    ensures
        r@ == buffer_contents(b),
{
    Vec::from(b)
}

// ---------------------------------------------------------------------------
// Frames
// ---------------------------------------------------------------------------

/// The longest run of bytes that can stay buffered without holding a complete
/// frame: a two-byte header and all but one byte of the largest payload.
pub const MAX_PENDING_LEN: usize = 65536;

/// The bytes of the frame that carries `p`.
pub open spec fn frame_bytes(p: Seq<u8>) -> Seq<u8> {
    seq![(p.len() / 256) as u8, (p.len() % 256) as u8] + p
}

/// The payload length that the header at the front of `s` declares.
pub open spec fn declared_len(s: Seq<u8>) -> int {
    s[0] as int * 256 + s[1] as int
}

/// Whether `s` starts with a complete frame.
pub open spec fn has_frame(s: Seq<u8>) -> bool {
    s.len() >= 2 && s.len() >= 2 + declared_len(s)
}

/// The payloads of the complete frames at the front of `s`, in order.
pub open spec fn split_frames(s: Seq<u8>) -> Seq<Seq<u8>>
    decreases s.len(),
{
    if has_frame(s) {
        let end = 2 + declared_len(s);
        seq![s.subrange(2, end)] + split_frames(s.subrange(end, s.len() as int))
    } else {
        Seq::empty()
    }
}

/// What is left of `s` once its complete frames are taken off: the start of a
/// frame whose bytes have not all arrived.
pub open spec fn frame_rest(s: Seq<u8>) -> Seq<u8>
    decreases s.len(),
{
    if has_frame(s) {
        frame_rest(s.subrange(2 + declared_len(s), s.len() as int))
    } else {
        s
    }
}

/// The payloads handed out when the chunks are fed one after another to a
/// reader that holds `pending`.
pub open spec fn frames_fed(pending: Seq<u8>, chunks: Seq<Seq<u8>>) -> Seq<Seq<u8>>
    decreases chunks.len(),
{
    if chunks.len() == 0 {
        Seq::empty()
    } else {
        let s = pending + chunks[0];
        split_frames(s) + frames_fed(frame_rest(s), chunks.drop_first())
    }
}

/// What such a reader holds after the last chunk.
pub open spec fn pending_after(pending: Seq<u8>, chunks: Seq<Seq<u8>>) -> Seq<u8>
    decreases chunks.len(),
{
    if chunks.len() == 0 {
        pending
    } else {
        pending_after(frame_rest(pending + chunks[0]), chunks.drop_first())
    }
}

/// The chunks joined into one byte stream.
pub open spec fn concat(chunks: Seq<Seq<u8>>) -> Seq<u8>
    decreases chunks.len(),
{
    if chunks.len() == 0 {
        Seq::empty()
    } else {
        chunks[0] + concat(chunks.drop_first())
    }
}

proof fn lemma_frame_rest_short(s: Seq<u8>)
    ensures
        !has_frame(frame_rest(s)),
        frame_rest(s).len() <= MAX_PENDING_LEN,
    decreases s.len(),
{
    if has_frame(s) {
        lemma_frame_rest_short(s.subrange(2 + declared_len(s), s.len() as int));
    } else {
        if s.len() >= 2 {
            assert(declared_len(s) <= 65535);
        }
    }
}

/// The payloads that a read completes, given what the reader held before it.
pub open spec fn read_frames(pending: Seq<u8>, outcome: ReadOutcome) -> Seq<Seq<u8>> {
    match outcome {
        ReadOutcome::Data(d) => split_frames(pending + d@),
        _ => Seq::empty(),
    }
}

/// What the reader holds after a read that left the connection open.
pub open spec fn read_rest(pending: Seq<u8>, outcome: ReadOutcome) -> Seq<u8> {
    match outcome {
        ReadOutcome::Data(d) => frame_rest(pending + d@),
        _ => pending,
    }
}

/// Whether a read ends the connection: it failed, or the peer closed it.
pub open spec fn ends_connection(outcome: ReadOutcome) -> bool {
    match outcome {
        ReadOutcome::Data(d) => d@.len() == 0,
        ReadOutcome::WouldBlock => false,
        ReadOutcome::Failed => true,
    }
}

/// Splitting the stream anywhere changes nothing: the frames of `a + b` are
/// the frames of `a` followed by those of what `a` left over joined with `b`.
pub proof fn lemma_split_frames_append(a: Seq<u8>, b: Seq<u8>)
    ensures
        split_frames(a + b) == split_frames(a) + split_frames(frame_rest(a) + b),
        frame_rest(a + b) == frame_rest(frame_rest(a) + b),
    decreases a.len(),
{
    if has_frame(a) {
        let end = 2 + declared_len(a);
        let t = a.subrange(end, a.len() as int);
        assert((a + b)[0] == a[0] && (a + b)[1] == a[1]);
        assert(has_frame(a + b));
        assert((a + b).subrange(2, end) =~= a.subrange(2, end));
        assert((a + b).subrange(end, (a + b).len() as int) =~= t + b);
        lemma_split_frames_append(t, b);
        assert(split_frames(a + b) =~= split_frames(a) + split_frames(frame_rest(a) + b));
    } else {
        assert(split_frames(a) + split_frames(frame_rest(a) + b) =~= split_frames(a + b));
    }
}

/// Feeding a byte stream to a reader in chunks, of whatever sizes, hands out
/// the same payloads, in the same order, as feeding it in one piece, and
/// leaves the same bytes pending. So the decoded values are the same too.
pub proof fn lemma_chunking_invariant(pending: Seq<u8>, chunks: Seq<Seq<u8>>)
    requires
        !has_frame(pending),
    ensures
        frames_fed(pending, chunks) == split_frames(pending + concat(chunks)),
        pending_after(pending, chunks) == frame_rest(pending + concat(chunks)),
        frames_fed(pending, chunks).map_values(|p: Seq<u8>| crate::codec::parse_action(p))
            == split_frames(pending + concat(chunks)).map_values(
            |p: Seq<u8>| crate::codec::parse_action(p),
        ),
    decreases chunks.len(),
{
    if chunks.len() == 0 {
        assert(pending + concat(chunks) =~= pending);
    } else {
        let s = pending + chunks[0];
        let tail = chunks.drop_first();
        lemma_frame_rest_short(s);
        lemma_chunking_invariant(frame_rest(s), tail);
        lemma_split_frames_append(s, concat(tail));
        assert(pending + concat(chunks) =~= s + concat(tail));
    }
}

// ---------------------------------------------------------------------------
// Writing and reading frames
// ---------------------------------------------------------------------------

/// The frame that carries `payload`.
pub fn write_frame(payload: &[u8]) -> (r: Vec<u8>)
    requires
        payload@.len() <= MAX_PAYLOAD_LEN,
    ensures
        r@ == frame_bytes(payload@),
{
    let n = payload.len();
    let mut out: Vec<u8> = Vec::new();
    out.push((n / 256) as u8);
    out.push((n % 256) as u8);
    let mut k: usize = 0;
    while k < n
        invariant
            k <= n,
            n == payload@.len(),
            n <= MAX_PAYLOAD_LEN,
            out@ == seq![(n / 256) as u8, (n % 256) as u8] + payload@.subrange(0, k as int),
        decreases n - k,
    {
        out.push(payload[k]);
        k = k + 1;
        assert(out@ =~= seq![(n / 256) as u8, (n % 256) as u8] + payload@.subrange(0, k as int));
    }
    assert(payload@.subrange(0, n as int) =~= payload@);
    out
}

/// A frame is read back as the payload it was written with.
pub proof fn lemma_frame_round_trip(p: Seq<u8>, rest: Seq<u8>)
    requires
        p.len() <= MAX_PAYLOAD_LEN,
    ensures
        split_frames(frame_bytes(p) + rest) == seq![p] + split_frames(rest),
        frame_rest(frame_bytes(p) + rest) == frame_rest(rest),
{
    let s = frame_bytes(p) + rest;
    assert(declared_len(s) == p.len());
    assert(s.subrange(2, 2 + p.len() as int) =~= p);
    assert(s.subrange(2 + p.len() as int, s.len() as int) =~= rest);
}

/// What a non-blocking read on a connection came back with.
pub enum ReadOutcome {
    /// The bytes that were read; none at all means that the peer closed the
    /// connection.
    Data(Vec<u8>),
    /// Nothing to read yet; try again later.
    WouldBlock,
    /// The read failed.
    Failed,
}

/// What the transport reports about a connection, named by its identifier.
#[derive(Debug)]
pub enum NetworkSimulationEvent {
    /// The payload of a complete frame.
    Message(u64, Vec<u8>),
    Connect(u64),
    Disconnect(u64),
}

/// The receive side of one connection: buffers bytes as they arrive and hands
/// out the payload of each complete frame.
pub struct FrameReader {
    buf: bytes::BytesMut,
    closed: bool,
}

impl FrameReader {
    /// The buffer never holds a complete frame between calls, so it stays
    /// shorter than a header and the largest payload.
    pub open spec fn wf(self) -> bool {
        &&& !has_frame(self.pending())
        &&& self.pending().len() <= MAX_PENDING_LEN
    }

    /// The bytes received that do not yet make up a complete frame.
    pub closed spec fn pending(self) -> Seq<u8> {
        buffer_contents(self.buf)
    }

    /// Whether the connection is known to be gone; a closed reader takes no
    /// more bytes.
    pub closed spec fn is_closed(self) -> bool {
        self.closed
    }

    pub fn new() -> (r: Self)
        ensures
            r.wf(),
            r.pending() == Seq::<u8>::empty(),
            !r.is_closed(),
    {
        FrameReader { buf: bytes::BytesMut::with_capacity(MAX_PENDING_LEN), closed: false }
    }

    pub fn closed(&self) -> (r: bool)
        ensures
            r == self.is_closed(),
    {
        self.closed
    }

    /// Stops servicing the connection, for instance after it sent a frame that
    /// could not be decoded.
    pub fn close(&mut self)
        requires
            old(self).wf(),
        ensures
            final(self).wf(),
            final(self).is_closed(),
            final(self).pending() == old(self).pending(),
    {
        self.closed = true;
    }

    /// Appends a piece of at most `MAX_PENDING_LEN` bytes to what is buffered
    /// and takes off every complete frame, returning their payloads in order.
    fn take_frames(&mut self, data: &[u8]) -> (r: Vec<Vec<u8>>)
        requires
            old(self).wf(),
            data@.len() <= MAX_PENDING_LEN,
        ensures
            final(self).wf(),
            r@.len() == split_frames(old(self).pending() + data@).len(),
            forall|i: int|
                0 <= i < r@.len() ==> #[trigger] r@[i]@ == split_frames(old(self).pending() + data@)[i],
            final(self).pending() == frame_rest(old(self).pending() + data@),
            final(self).is_closed() == old(self).is_closed(),
    {
        let ghost all = self.pending() + data@;
        let ghost was_closed = self.closed;
        self.buf.extend_from_slice(data);
        let mut frames: Vec<Vec<u8>> = Vec::new();
        assert(frames@.map_values(|v: Vec<u8>| v@) + split_frames(all) =~= split_frames(all));
        loop
            invariant_except_break
                self.closed == was_closed,
                split_frames(all) == frames@.map_values(|v: Vec<u8>| v@) + split_frames(buffer_contents(self.buf)),
                frame_rest(all) == frame_rest(buffer_contents(self.buf)),
            ensures
                self.closed == was_closed,
                split_frames(all) == frames@.map_values(|v: Vec<u8>| v@),
                frame_rest(all) == buffer_contents(self.buf),
            decreases buffer_contents(self.buf).len(),
        {
            let len = self.buf.len();
            if len < 2 {
                break;
            }
            let size = buffer_byte(&self.buf, 0) as usize * 256 + buffer_byte(&self.buf, 1) as usize;
            if len - 2 < size {
                break;
            }
            let ghost b0 = buffer_contents(self.buf);
            let ghost old_frames = frames@.map_values(|v: Vec<u8>| v@);
            assert(size == declared_len(b0));
            let _header = self.buf.split_to(2);
            let payload = self.buf.split_to(size);
            let bytes = buffer_into_vec(payload);
            proof {
                let end = 2 + size;
                assert(bytes@ =~= b0.subrange(2, end));
                assert(buffer_contents(self.buf) =~= b0.subrange(end, b0.len() as int));
                assert(split_frames(b0) == seq![bytes@] + split_frames(buffer_contents(self.buf)));
            }
            frames.push(bytes);
            proof {
                assert(frames@.map_values(|v: Vec<u8>| v@) =~= old_frames.push(bytes@));
                assert(old_frames.push(bytes@) + split_frames(buffer_contents(self.buf)) =~= old_frames
                    + (seq![bytes@] + split_frames(buffer_contents(self.buf))));
            }
        }
        proof {
            lemma_frame_rest_short(all);
        }
        frames
    }

    /// Appends `data` to what is buffered and takes off every complete frame,
    /// returning their payloads in order. The bytes are taken in pieces, which
    /// keeps the buffer short and, by the chunking law, changes nothing.
    pub fn feed(&mut self, data: &[u8]) -> (r: Vec<Vec<u8>>)
        requires
            old(self).wf(),
        ensures
            final(self).wf(),
            r@.len() == split_frames(old(self).pending() + data@).len(),
            forall|i: int|
                0 <= i < r@.len() ==> #[trigger] r@[i]@ == split_frames(old(self).pending() + data@)[i],
            final(self).pending() == frame_rest(old(self).pending() + data@),
            final(self).is_closed() == old(self).is_closed(),
    {
        let ghost p0 = self.pending();
        let ghost was_closed = self.is_closed();
        let n = data.len();
        let mut frames: Vec<Vec<u8>> = Vec::new();
        let mut start: usize = 0;
        assert(p0 + data@.subrange(0, 0) =~= p0);
        assert(frames@.map_values(|v: Vec<u8>| v@) =~= split_frames(p0));
        while start < n
            invariant
                start <= n,
                n == data@.len(),
                self.wf(),
                self.is_closed() == was_closed,
                frames@.map_values(|v: Vec<u8>| v@) == split_frames(p0 + data@.subrange(0, start as int)),
                self.pending() == frame_rest(p0 + data@.subrange(0, start as int)),
            decreases n - start,
        {
            let end = if n - start > MAX_PENDING_LEN {
                start + MAX_PENDING_LEN
            } else {
                n
            };
            let ghost a = p0 + data@.subrange(0, start as int);
            let ghost b = data@.subrange(start as int, end as int);
            let ghost before = frames@.map_values(|v: Vec<u8>| v@);
            let mut more = self.take_frames(slice_subrange(data, start, end));
            let ghost got = more@.map_values(|v: Vec<u8>| v@);
            assert(got =~= split_frames(frame_rest(a) + b));
            frames.append(&mut more);
            proof {
                lemma_split_frames_append(a, b);
                assert(a + b =~= p0 + data@.subrange(0, end as int));
                assert(frames@.map_values(|v: Vec<u8>| v@) =~= before + got);
            }
            start = end;
        }
        assert(data@.subrange(0, n as int) =~= data@);
        frames
    }

    /// Turns the outcome of a read on connection `conn` into events: a message
    /// for each frame that the read completed, or a disconnect when the peer
    /// closed the connection (a read of no bytes) or the read failed. A read
    /// that would block changes nothing, and a closed reader ignores reads.
    pub fn handle_read(&mut self, conn: u64, outcome: ReadOutcome) -> (r: Vec<
        NetworkSimulationEvent,
    >)
        requires
            old(self).wf(),
        ensures
            final(self).wf(),
            old(self).is_closed() ==> r@.len() == 0 && *final(self) == *old(self),
            !old(self).is_closed() ==> match outcome {
                ReadOutcome::WouldBlock => r@.len() == 0 && *final(self) == *old(self),
                ReadOutcome::Failed => is_disconnect(r@, conn) && final(self).is_closed()
                    && final(self).pending() == old(self).pending(),
                ReadOutcome::Data(d) => if d@.len() == 0 {
                    is_disconnect(r@, conn) && final(self).is_closed() && final(self).pending()
                        == old(self).pending()
                } else {
                    &&& r@.len() == split_frames(old(self).pending() + d@).len()
                    &&& forall|i: int|
                        0 <= i < r@.len() ==> is_message(
                            #[trigger] r@[i],
                            conn,
                            split_frames(old(self).pending() + d@)[i],
                        )
                    &&& final(self).pending() == frame_rest(old(self).pending() + d@)
                    &&& !final(self).is_closed()
                },
            },
    {
        let mut events: Vec<NetworkSimulationEvent> = Vec::new();
        if self.closed {
            return events;
        }
        match outcome {
            ReadOutcome::WouldBlock => {},
            ReadOutcome::Failed => {
                self.closed = true;
                events.push(NetworkSimulationEvent::Disconnect(conn));
            },
            ReadOutcome::Data(d) => {
                if d.len() == 0 {
                    self.closed = true;
                    events.push(NetworkSimulationEvent::Disconnect(conn));
                } else {
                    let mut frames = self.feed(d.as_slice());
                    let n = frames.len();
                    let ghost fs = frames@;
                    let mut k: usize = 0;
                    while k < n
                        invariant
                            k <= n,
                            n == fs.len(),
                            frames@.len() == n - k,
                            forall|j: int| 0 <= j < n - k ==> #[trigger] frames@[j] == fs[j + k],
                            events@.len() == k,
                            forall|j: int| 0 <= j < k ==> is_message(#[trigger] events@[j], conn, fs[j]@),
                        decreases n - k,
                    {
                        let p = frames.remove(0);
                        events.push(NetworkSimulationEvent::Message(conn, p));
                        k = k + 1;
                    }
                }
            },
        }
        events
    }
}

/// `e` is the message of connection `conn` that carries `p`.
pub open spec fn is_message(e: NetworkSimulationEvent, conn: u64, p: Seq<u8>) -> bool {
    e matches NetworkSimulationEvent::Message(c, q) && c == conn && q@ == p
}

/// `r` is exactly one disconnect of connection `conn`.
pub open spec fn is_disconnect(r: Seq<NetworkSimulationEvent>, conn: u64) -> bool {
    &&& r.len() == 1
    &&& r[0] matches NetworkSimulationEvent::Disconnect(c) && c == conn
}

} // verus!
