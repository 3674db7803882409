//! Sending and receiving benchmark bytes.

use vstd::prelude::*;
use vstd::slice::slice_subrange;

verus! {

/// The largest number of bytes sent at once.
pub const BENCHMARK_CHUNK_LEN: usize = 4096;

/// How many of the bytes that are left go into the next chunk.
pub open spec fn chunk_len(remaining: nat) -> nat {
    if remaining < BENCHMARK_CHUNK_LEN {
        remaining
    } else {
        BENCHMARK_CHUNK_LEN as nat
    }
}

/// The chunks that a payload is sent in.
pub open spec fn chunks_of(payload: Seq<u8>) -> Seq<Seq<u8>>
    decreases payload.len(),
{
    if payload.len() == 0 {
        Seq::empty()
    } else {
        let n = chunk_len(payload.len()) as int;
        seq![payload.take(n)] + chunks_of(payload.skip(n))
    }
}

/// A payload of zeros.
pub open spec fn zeros(len: nat) -> Seq<u8> {
    Seq::new(len, |i: int| 0u8)
}

/// A payload of `len` zeros.
pub fn zero_payload(len: usize) -> (payload: Vec<u8>)
    ensures
        payload@ == zeros(len as nat),
{
    let payload = vec![0u8; len];
    assert(payload@ =~= zeros(len as nat));
    payload
}

/// How far the sending of a payload has come.
#[derive(Clone, Copy, Debug, PartialEq, Eq, Structural)]
pub struct ChunkCursor {
    /// Bytes in the payload.
    pub total: usize,
    /// Bytes not sent yet.
    pub remaining: usize,
}

impl ChunkCursor {
    /// No more is left than there was.
    pub open spec fn wf(self) -> bool {
        self.remaining <= self.total
    }

    /// Bytes sent.
    pub open spec fn sent(self) -> nat {
        (self.total - self.remaining) as nat
    }

    /// The cursor after the next chunk.
    pub open spec fn after_chunk(self) -> ChunkCursor {
        ChunkCursor {
            total: self.total,
            remaining: (self.remaining - chunk_len(self.remaining as nat)) as usize,
        }
    }

    /// Nothing sent yet.
    pub fn new(total: usize) -> (cursor: ChunkCursor)
        ensures
            cursor == (ChunkCursor { total, remaining: total }),
            cursor.wf(),
    {
        ChunkCursor { total, remaining: total }
    }

    /// Bytes in the next chunk: none once all is sent.
    pub fn next_len(&self) -> (n: usize)
        ensures
            n == chunk_len(self.remaining as nat),
    {
        if self.remaining < BENCHMARK_CHUNK_LEN {
            self.remaining
        } else {
            BENCHMARK_CHUNK_LEN
        }
    }

    /// Bytes sent so far.
    pub fn offset(&self) -> (offset: usize)
        requires
            self.wf(),
        ensures
            offset == self.sent(),
    {
        self.total - self.remaining
    }

    /// The next chunk of a payload of zeros.
    pub fn next_zeros(&self) -> (chunk: Option<Vec<u8>>)
        ensures
            match chunk {
                Some(bytes) => self.remaining > 0 && bytes@ == zeros(
                    chunk_len(self.remaining as nat),
                ),
                None => self.remaining == 0,
            },
    {
        if self.remaining == 0 {
            return None;
        }
        Some(zero_payload(self.next_len()))
    }

    /// The next chunk of the payload that is being sent.
    pub fn next_chunk<'a>(&self, payload: &'a [u8]) -> (chunk: Option<&'a [u8]>)
        requires
            self.wf(),
            payload@.len() == self.total,
        ensures
            match chunk {
                Some(bytes) => self.remaining > 0 && bytes@ == payload@.subrange(
                    self.sent() as int,
                    (self.sent() + chunk_len(self.remaining as nat)) as int,
                ),
                None => self.remaining == 0,
            },
    {
        if self.remaining == 0 {
            return None;
        }
        let offset: usize = self.offset();
        Some(slice_subrange(payload, offset, offset + self.next_len()))
    }

    /// The next chunk has been sent.
    pub fn advance(&mut self)
        requires
            old(self).wf(),
        ensures
            *final(self) == old(self).after_chunk(),
            final(self).wf(),
    {
        self.remaining = self.remaining - self.next_len();
    }
}

/// How the receiving of benchmark bytes ended.
#[derive(Clone, Copy, Debug, PartialEq, Eq, Structural)]
pub enum ReceiveEnd {
    /// The device could not be asked.
    SubscribeFailed,
    /// The stream broke off.
    StreamError,
    /// The device has sent all.
    Complete,
}

/// Where the receiving of benchmark bytes stands.
#[derive(Clone, Copy, Debug, PartialEq, Eq, Structural)]
pub enum ReceivePhase {
    /// Asking the device.
    Subscribing,
    /// Waiting for the next chunk.
    Receiving,
    Over(ReceiveEnd),
}

/// What happened.
#[derive(Clone, Copy, Debug, PartialEq, Eq, Structural)]
pub enum ReceiveEvent {
    Subscribed,
    SubscribeFailed,
    /// A chunk of this many bytes has come.
    Chunk { len: usize },
    /// The stream broke off.
    StreamError,
    /// The stream is at its end.
    StreamEnd,
}

/// The receiving of benchmark bytes.
#[derive(Clone, Copy, Debug, PartialEq, Eq, Structural)]
pub struct Receiving {
    pub phase: ReceivePhase,
    /// Bytes received.
    pub received: usize,
}

impl Receiving {
    /// Nothing asked yet.
    pub open spec fn start() -> Receiving {
        Receiving { phase: ReceivePhase::Subscribing, received: 0 }
    }

    /// The event is one that the phase waits for.
    pub open spec fn accepts(self, event: ReceiveEvent) -> bool {
        match self.phase {
            ReceivePhase::Subscribing => event is Subscribed || event is SubscribeFailed,
            ReceivePhase::Receiving => event is Chunk || event is StreamError || event is StreamEnd,
            ReceivePhase::Over(_) => false,
        }
    }

    /// The receiving after an event.
    pub open spec fn after(self, event: ReceiveEvent) -> Receiving {
        match event {
            ReceiveEvent::Subscribed => Receiving { phase: ReceivePhase::Receiving, ..self },
            ReceiveEvent::SubscribeFailed => Receiving {
                phase: ReceivePhase::Over(ReceiveEnd::SubscribeFailed),
                ..self
            },
            ReceiveEvent::Chunk { len } => Receiving {
                received: (self.received + len) as usize,
                ..self
            },
            ReceiveEvent::StreamError => Receiving {
                phase: ReceivePhase::Over(ReceiveEnd::StreamError),
                ..self
            },
            ReceiveEvent::StreamEnd => Receiving {
                phase: ReceivePhase::Over(ReceiveEnd::Complete),
                ..self
            },
        }
    }

    /// Nothing asked yet.
    pub fn new() -> (receiving: Receiving)
        ensures
            receiving == Receiving::start(),
    {
        Receiving { phase: ReceivePhase::Subscribing, received: 0 }
    }

    /// Takes in what happened.
    pub fn step(&mut self, event: ReceiveEvent)
        requires
            old(self).accepts(event),
            event matches ReceiveEvent::Chunk { len } ==> old(self).received + len <= usize::MAX,
        ensures
            *final(self) == old(self).after(event),
    {
        match event {
            ReceiveEvent::Subscribed => {
                self.phase = ReceivePhase::Receiving;
            },
            ReceiveEvent::SubscribeFailed => {
                self.phase = ReceivePhase::Over(ReceiveEnd::SubscribeFailed);
            },
            ReceiveEvent::Chunk { len } => {
                self.received = self.received + len;
            },
            ReceiveEvent::StreamError => {
                self.phase = ReceivePhase::Over(ReceiveEnd::StreamError);
            },
            ReceiveEvent::StreamEnd => {
                self.phase = ReceivePhase::Over(ReceiveEnd::Complete);
            },
        }
    }
}

/// The receiving after a list of events.
pub open spec fn after_events(receiving: Receiving, events: Seq<ReceiveEvent>) -> Receiving
    decreases events.len(),
{
    if events.len() == 0 {
        receiving
    } else {
        after_events(receiving, events.drop_last()).after(events.last())
    }
}

/// Every event is one that is waited for when it comes.
pub open spec fn accepts_all(receiving: Receiving, events: Seq<ReceiveEvent>) -> bool
    decreases events.len(),
{
    events.len() > 0 ==> {
        &&& accepts_all(receiving, events.drop_last())
        &&& after_events(receiving, events.drop_last()).accepts(events.last())
    }
}

/// The bytes in the chunks among the events.
pub open spec fn bytes_in(events: Seq<ReceiveEvent>) -> nat
    decreases events.len(),
{
    if events.len() == 0 {
        0
    } else {
        bytes_in(events.drop_last()) + match events.last() {
            ReceiveEvent::Chunk { len } => len as nat,
            _ => 0nat,
        }
    }
}

/// Every byte that comes is counted, up to the end, however it ends.
pub proof fn law_received_is_counted(events: Seq<ReceiveEvent>)
    requires
        accepts_all(Receiving::start(), events),
        bytes_in(events) <= usize::MAX,
    ensures
        after_events(Receiving::start(), events).received == bytes_in(events),
    decreases events.len(),
{
    if events.len() > 0 {
        law_received_is_counted(events.drop_last());
    }
}

/// A list of chunks, put end to end.
pub open spec fn joined(chunks: Seq<Seq<u8>>) -> Seq<u8>
    decreases chunks.len(),
{
    if chunks.len() == 0 {
        Seq::empty()
    } else {
        chunks.first() + joined(chunks.drop_first())
    }
}

/// All of a payload is sent, in order and no byte twice: its chunks, put end to end, are the
/// payload. None is empty, none is larger than a chunk may be, and all but the last have
/// that size.
pub proof fn law_chunks_make_payload(payload: Seq<u8>)
    ensures
        joined(chunks_of(payload)) == payload,
        forall|i: int|
            0 <= i < chunks_of(payload).len() ==> {
                &&& 0 < (#[trigger] chunks_of(payload)[i]).len() <= BENCHMARK_CHUNK_LEN
                &&& i < chunks_of(payload).len() - 1 ==> chunks_of(payload)[i].len()
                    == BENCHMARK_CHUNK_LEN
            },
    decreases payload.len(),
{
    if payload.len() > 0 {
        let n = chunk_len(payload.len()) as int;
        let rest = payload.skip(n);
        let chunks = chunks_of(payload);
        law_chunks_make_payload(rest);
        assert(chunks.drop_first() =~= chunks_of(rest));
        assert(payload.take(n) + rest =~= payload);
        assert forall|i: int| 0 <= i < chunks.len() implies {
            &&& 0 < (#[trigger] chunks[i]).len() <= BENCHMARK_CHUNK_LEN
            &&& i < chunks.len() - 1 ==> chunks[i].len() == BENCHMARK_CHUNK_LEN
        } by {
            if i > 0 {
                assert(chunks[i] == chunks_of(rest)[i - 1]);
            }
        }
    }
}

/// The cursor walks through these chunks: after `k` of them it hands out the next one, and
/// after the last of them none.
pub proof fn law_cursor_walks_chunks(payload: Seq<u8>, cursor: ChunkCursor)
    requires
        cursor.wf(),
        cursor.total == payload.len(),
    ensures
        ({
            let left = chunks_of(payload.skip(cursor.sent() as int));
            if cursor.remaining == 0 {
                left.len() == 0
            } else {
                &&& left.len() > 0
                &&& left.first() == payload.subrange(
                    cursor.sent() as int,
                    (cursor.sent() + chunk_len(cursor.remaining as nat)) as int,
                )
                &&& left.drop_first() == chunks_of(
                    payload.skip(cursor.after_chunk().sent() as int),
                )
            }
        }),
{
    let tail = payload.skip(cursor.sent() as int);
    assert(tail.len() == cursor.remaining);
    if cursor.remaining > 0 {
        let n = chunk_len(cursor.remaining as nat) as int;
        assert(tail.take(n) =~= payload.subrange(cursor.sent() as int, cursor.sent() + n));
        assert(tail.skip(n) =~= payload.skip(cursor.after_chunk().sent() as int));
        assert(chunks_of(tail).drop_first() =~= chunks_of(tail.skip(n)));
    }
}

/// A chunk takes all that is left, up to 4096 bytes.
pub proof fn law_chunk_len(remaining: nat)
    ensures
        remaining <= 4096 ==> chunk_len(remaining) == remaining,
        remaining >= 4096 ==> chunk_len(remaining) == 4096,
{
}

/// A chunk sent is what was next in the payload, and no longer left: the cursor keeps the total,
/// what is sent grows by the chunk, and the two always make up the total.
pub proof fn law_cursor_advances(cursor: ChunkCursor)
    requires
        cursor.wf(),
    ensures
        ({
            let next = cursor.after_chunk();
            let n: nat = if cursor.remaining <= 4096 {
                cursor.remaining as nat
            } else {
                4096
            };
            &&& cursor.sent() + cursor.remaining == cursor.total
            &&& next.total == cursor.total
            &&& next.remaining + n == cursor.remaining
            &&& next.sent() == cursor.sent() + n
            &&& next.wf()
        }),
{
}

/// The payload is zeros, as many as asked for.
pub proof fn law_zeros(len: nat, i: int)
    ensures
        zeros(len).len() == len,
        0 <= i < len ==> zeros(len)[i] == 0,
{
}

/// What is waited for while receiving, and what comes of it: once the device has been asked, each
/// chunk adds its bytes and leaves the receiving going; anything else ends it, with the bytes as
/// they are. A receiving that is over takes nothing in.
pub proof fn law_receiving(receiving: Receiving, event: ReceiveEvent, len: usize)
    ensures
        Receiving::start().phase == ReceivePhase::Subscribing && Receiving::start().received == 0,
        receiving.phase == ReceivePhase::Subscribing ==> (receiving.accepts(event) <==> event
            == ReceiveEvent::Subscribed || event == ReceiveEvent::SubscribeFailed),
        receiving.phase == ReceivePhase::Receiving ==> (receiving.accepts(event) <==> event is Chunk
            || event == ReceiveEvent::StreamError || event == ReceiveEvent::StreamEnd),
        receiving.phase is Over ==> !receiving.accepts(event),
        !(event is Chunk) ==> receiving.after(event).received == receiving.received,
        receiving.received + len <= usize::MAX ==> receiving.after(
            ReceiveEvent::Chunk { len },
        ).received == receiving.received + len,
        receiving.after(ReceiveEvent::Chunk { len }).phase == receiving.phase,
        receiving.after(ReceiveEvent::Subscribed).phase == ReceivePhase::Receiving,
        receiving.after(ReceiveEvent::SubscribeFailed).phase == ReceivePhase::Over(
            ReceiveEnd::SubscribeFailed,
        ),
        receiving.after(ReceiveEvent::StreamError).phase == ReceivePhase::Over(
            ReceiveEnd::StreamError,
        ),
        receiving.after(ReceiveEvent::StreamEnd).phase == ReceivePhase::Over(ReceiveEnd::Complete),
{
}

} // verus!
