//! One end of a duplex link built from two single-producer single-consumer
//! byte queues (ringbuf's `HeapRb`). Each queue has one producer and one
//! consumer thread, which is what lets both sides work without locks.

use ringbuf::{HeapConsumer, HeapProducer, HeapRb};

use vstd::prelude::*;

verus! {

/// The producing end of a byte queue.
#[verifier::external_body]
pub struct QueueWriter {
    queue: HeapProducer<u8>,
}

/// The consuming end of a byte queue.
#[verifier::external_body]
pub struct QueueReader {
    queue: HeapConsumer<u8>,
}

/// A byte queue before it is split into its two ends.
#[verifier::external_body]
struct Ring {
    rb: HeapRb<u8>,
}

/// Relies on ringbuf's `HeapRb::new`: an empty queue of `capacity` bytes. It
/// panics on a capacity of zero.
#[verifier::external_body]
fn new_ring(capacity: usize) -> Ring
    requires
        capacity > 0,
{
    Ring { rb: HeapRb::<u8>::new(capacity) }
}

/// Relies on ringbuf's `SharedRb::split`: the producing and consuming ends of
/// one queue.
#[verifier::external_body]
fn split_ring(ring: Ring) -> (QueueWriter, QueueReader) {
    let (queue, consumer) = ring.rb.split();
    (QueueWriter { queue }, QueueReader { queue: consumer })
}

/// Relies on ringbuf's `Consumer::len`: how many bytes the queue holds at the
/// moment it looks. The producer may add more at any time, so nothing is
/// promised of the number.
#[verifier::external_body]
fn queued_len(reader: &QueueReader) -> usize {
    reader.queue.len()
}

/// Relies on ringbuf's `Consumer::pop_slice`: it moves at most `buf.len()`
/// bytes from the front of the queue into the front of `buf` and returns how
/// many it moved.
#[verifier::external_body]
fn pop_slice(reader: &mut QueueReader, buf: &mut Vec<u8>) -> (n: usize)
    ensures
        n <= old(buf)@.len(),
        final(buf)@.len() == old(buf)@.len(),
{
    reader.queue.pop_slice(buf.as_mut_slice())
}

/// Relies on ringbuf's `Producer::push_slice`: it copies the longest prefix of
/// `bytes` that fits into the queue and returns its length.
#[verifier::external_body]
fn push_slice(writer: &mut QueueWriter, bytes: &[u8]) -> (n: usize)
    ensures
        n <= bytes@.len(),
{
    writer.queue.push_slice(bytes)
}

/// One side of a link: it takes bytes out of the incoming queue and puts
/// bytes into the outgoing one. Bytes that do not fit into the outgoing queue
/// yet wait in a backlog in order, so none is dropped or reordered.
pub struct Endpoint {
    incoming: QueueReader,
    outgoing: QueueWriter,
    backlog: Vec<u8>,
    handed: Ghost<Seq<u8>>,
    received: Ghost<Seq<u8>>,
}

/// What an endpoint has done so far: the bytes it put into the outgoing
/// queue, the bytes still waiting, and the bytes it took out of the incoming
/// queue.
pub struct EndpointView {
    pub handed: Seq<u8>,
    pub backlog: Seq<u8>,
    pub received: Seq<u8>,
}

impl EndpointView {
    /// Every byte given to `send`, in order.
    pub open spec fn sent(self) -> Seq<u8> {
        self.handed + self.backlog
    }
}

impl View for Endpoint {
    type V = EndpointView;

    closed spec fn view(&self) -> EndpointView {
        EndpointView { handed: self.handed@, backlog: self.backlog@, received: self.received@ }
    }
}

impl Endpoint {
    /// An endpoint that reads from `incoming` and writes to `outgoing`.
    pub fn new(incoming: QueueReader, outgoing: QueueWriter) -> (r: Endpoint)
        ensures
            r@.handed.len() == 0,
            r@.backlog.len() == 0,
            r@.received.len() == 0,
    {
        Endpoint {
            incoming,
            outgoing,
            backlog: Vec::new(),
            handed: Ghost(Seq::empty()),
            received: Ghost(Seq::empty()),
        }
    }

    /// Moves as much of the backlog as fits into the outgoing queue.
    pub fn flush(&mut self)
        ensures
            final(self)@.sent() == old(self)@.sent(),
            final(self)@.received == old(self)@.received,
            old(self)@.handed.is_prefix_of(final(self)@.handed),
    {
        let n = push_slice(&mut self.outgoing, self.backlog.as_slice());
        let ghost moved = self.backlog@.take(n as int);
        let rest = self.backlog.split_off(n);
        self.backlog = rest;
        self.handed = Ghost(self.handed@ + moved);
        assert(self.handed@ + self.backlog@ =~= old(self)@.sent());
        assert(old(self)@.handed =~= self.handed@.take(old(self)@.handed.len() as int));
    }

    /// Queues `bytes` behind everything sent before and moves as much as fits
    /// into the outgoing queue.
    pub fn send(&mut self, bytes: &[u8])
        ensures
            final(self)@.sent() == old(self)@.sent() + bytes@,
            final(self)@.received == old(self)@.received,
            old(self)@.handed.is_prefix_of(final(self)@.handed),
    {
        self.backlog.extend_from_slice(bytes);
        assert(self@.sent() =~= old(self)@.sent() + bytes@);
        self.flush();
    }

    /// Takes out every byte the incoming queue holds at this moment.
    pub fn receive(&mut self) -> (r: Vec<u8>)
        ensures
            final(self)@.received == old(self)@.received + r@,
            final(self)@.handed == old(self)@.handed,
            final(self)@.backlog == old(self)@.backlog,
    {
        let len = queued_len(&self.incoming);
        let mut buf: Vec<u8> = vec![0u8; len];
        let n = pop_slice(&mut self.incoming, &mut buf);
        buf.truncate(n);
        self.received = Ghost(self.received@ + buf@);
        buf
    }

    /// The number of bytes that wait for room in the outgoing queue.
    pub fn backlog_len(&self) -> (r: usize)
        ensures
            r == self@.backlog.len(),
    {
        self.backlog.len()
    }
}

/// A link of two queues of `capacity` bytes each: whatever one endpoint sends,
/// the other receives.
pub fn link(capacity: usize) -> (r: (Endpoint, Endpoint))
    requires
        capacity > 0,
    ensures
        r.0@.sent().len() == 0 && r.0@.received.len() == 0,
        r.1@.sent().len() == 0 && r.1@.received.len() == 0,
{
    let (a_writer, b_reader) = split_ring(new_ring(capacity));
    let (b_writer, a_reader) = split_ring(new_ring(capacity));
    (Endpoint::new(a_reader, a_writer), Endpoint::new(b_reader, b_writer))
}

} // verus!
