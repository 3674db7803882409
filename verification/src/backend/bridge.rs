//! The two directions of the transport: records out as frames, frames in as records.
//!
//! Each direction is a machine that says what to do next; reading, writing, and the cutting
//! and joining of chunks are done around it.

use crate::backend::framing;
use vstd::prelude::*;

verus! {

/// Why a direction ended.
#[derive(Clone, Copy, Debug, PartialEq, Eq, Structural)]
pub enum End {
    /// The transport could not be written.
    WriteFailed,
    /// There are no more records to send.
    NoMoreRecords,
    /// The peer closed the transport between two frames.
    PeerClosed,
    /// The transport ended inside a frame.
    Truncated,
    /// Nobody takes the received records any more.
    ReceiverGone,
}

/// Where the outbound direction stands.
#[derive(Clone, Copy, Debug, PartialEq, Eq, Structural)]
pub enum OutboundPhase {
    /// Waiting for a record.
    Idle,
    /// Writing the frames of a record: `written` of `chunks`.
    Writing { written: usize, chunks: usize },
    Ended(End),
}

/// What happened to the outbound direction.
#[derive(Clone, Copy, Debug, PartialEq, Eq, Structural)]
pub enum OutboundEvent {
    /// A record is to be sent; it was cut into this many chunks.
    Record { chunks: usize },
    /// A frame was written.
    Written,
    /// A frame could not be written.
    WriteFailed,
    /// There are no more records.
    Closed,
}

/// What the outbound direction does next.
#[derive(Clone, Copy, Debug, PartialEq, Eq, Structural)]
pub enum OutboundAction {
    /// Wait for a record.
    TakeRecord,
    /// Write the frame of the chunk at this position of the record.
    WriteFrame { index: usize },
    End(End),
}

/// The outbound direction, with what it has counted.
#[derive(Clone, Copy, Debug, PartialEq, Eq, Structural)]
pub struct Outbound {
    pub phase: OutboundPhase,
    /// Records taken.
    pub records: u64,
    /// Frames written, over all records.
    pub frames: u64,
}

impl Outbound {
    /// Nothing sent yet.
    pub open spec fn start() -> Outbound {
        Outbound { phase: OutboundPhase::Idle, records: 0, frames: 0 }
    }

    /// A record's frames are written one by one, up to the last.
    pub open spec fn wf(self) -> bool {
        match self.phase {
            OutboundPhase::Writing { written, chunks } => written < chunks,
            _ => true,
        }
    }

    /// The event is one that the phase waits for.
    pub open spec fn accepts(self, event: OutboundEvent) -> bool {
        match self.phase {
            OutboundPhase::Idle => event is Record || event is Closed,
            OutboundPhase::Writing { .. } => event is Written || event is WriteFailed,
            OutboundPhase::Ended(_) => false,
        }
    }

    /// The direction after an event.
    pub open spec fn after(self, event: OutboundEvent) -> Outbound {
        match event {
            OutboundEvent::Record { chunks } => Outbound {
                phase: if chunks == 0 {
                    OutboundPhase::Idle
                } else {
                    OutboundPhase::Writing { written: 0, chunks }
                },
                records: (self.records + 1) as u64,
                frames: self.frames,
            },
            OutboundEvent::Written => {
                let written = (self.phase->written + 1) as usize;
                Outbound {
                    phase: if written == self.phase->chunks {
                        OutboundPhase::Idle
                    } else {
                        OutboundPhase::Writing { written, chunks: self.phase->chunks }
                    },
                    records: self.records,
                    frames: (self.frames + 1) as u64,
                }
            },
            OutboundEvent::WriteFailed => Outbound {
                phase: OutboundPhase::Ended(End::WriteFailed),
                ..self
            },
            OutboundEvent::Closed => Outbound {
                phase: OutboundPhase::Ended(End::NoMoreRecords),
                ..self
            },
        }
    }

    /// What the phase asks for.
    pub open spec fn wanted(self) -> OutboundAction {
        match self.phase {
            OutboundPhase::Idle => OutboundAction::TakeRecord,
            OutboundPhase::Writing { written, .. } => OutboundAction::WriteFrame {
                index: written,
            },
            OutboundPhase::Ended(end) => OutboundAction::End(end),
        }
    }

    /// Nothing sent yet.
    pub fn new() -> (bridge: Outbound)
        ensures
            bridge == Outbound::start(),
            bridge.wf(),
    {
        Outbound { phase: OutboundPhase::Idle, records: 0, frames: 0 }
    }

    /// What to do next.
    pub fn action(&self) -> (action: OutboundAction)
        ensures
            action == self.wanted(),
    {
        match self.phase {
            OutboundPhase::Idle => OutboundAction::TakeRecord,
            OutboundPhase::Writing { written, .. } => OutboundAction::WriteFrame {
                index: written,
            },
            OutboundPhase::Ended(end) => OutboundAction::End(end),
        }
    }

    /// Takes in what happened.
    pub fn step(&mut self, event: OutboundEvent)
        requires
            old(self).wf(),
            old(self).accepts(event),
            event is Record ==> old(self).records < u64::MAX,
            event is Written ==> old(self).frames < u64::MAX,
        ensures
            *final(self) == old(self).after(event),
            final(self).wf(),
    {
        match event {
            OutboundEvent::Record { chunks } => {
                self.records = self.records + 1;
                if chunks > 0 {
                    self.phase = OutboundPhase::Writing { written: 0, chunks };
                }
            },
            OutboundEvent::Written => {
                self.frames = self.frames + 1;
                if let OutboundPhase::Writing { written, chunks } = self.phase {
                    self.phase = if written + 1 == chunks {
                        OutboundPhase::Idle
                    } else {
                        OutboundPhase::Writing { written: written + 1, chunks }
                    };
                }
            },
            OutboundEvent::WriteFailed => {
                self.phase = OutboundPhase::Ended(End::WriteFailed);
            },
            OutboundEvent::Closed => {
                self.phase = OutboundPhase::Ended(End::NoMoreRecords);
            },
        }
    }
}

/// Where the inbound direction stands.
#[derive(Clone, Copy, Debug, PartialEq, Eq, Structural)]
pub enum InboundPhase {
    /// Reading the length of a frame.
    Length,
    /// Reading the chunk in a frame.
    Chunk { len: u32 },
    /// Decoding the chunk.
    Decoding,
    /// Joining the chunk with those before it.
    Joining,
    /// Handing on a whole record.
    Delivering,
    Ended(End),
}

/// What happened to the inbound direction.
#[derive(Clone, Copy, Debug, PartialEq, Eq, Structural)]
pub enum InboundEvent {
    /// The length of a frame was read; it gives this many bytes.
    Length { len: u32 },
    /// The chunk in a frame was read.
    Chunk,
    /// A read failed.
    ReadFailed,
    /// The chunk is malformed.
    Malformed,
    /// The chunk was decoded.
    Decoded,
    /// The chunk left its record incomplete.
    Incomplete,
    /// The chunk completed a record.
    Complete,
    /// The record was handed on.
    Delivered,
    /// Nobody took the record.
    NotDelivered,
}

/// What the inbound direction does next.
#[derive(Clone, Copy, Debug, PartialEq, Eq, Structural)]
pub enum InboundAction {
    ReadLength,
    ReadChunk { len: u32 },
    DecodeChunk,
    JoinChunk,
    DeliverRecord,
    End(End),
}

/// The inbound direction, with what it has counted.
#[derive(Clone, Copy, Debug, PartialEq, Eq, Structural)]
pub struct Inbound {
    pub phase: InboundPhase,
    /// Frames read.
    pub frames: u64,
    /// Chunks decoded.
    pub decoded: u64,
    /// Chunks that were malformed.
    pub errs: u64,
    /// Records completed.
    pub records: u64,
}

impl Inbound {
    /// Nothing received yet.
    pub open spec fn start() -> Inbound {
        Inbound { phase: InboundPhase::Length, frames: 0, decoded: 0, errs: 0, records: 0 }
    }

    /// Every frame is accounted for as decoded or malformed, but for the one whose chunk is
    /// being decoded; and no more records are complete than chunks were decoded, nor as many
    /// while a decoded chunk is being joined.
    pub open spec fn wf(self) -> bool {
        &&& self.phase == InboundPhase::Decoding ==> self.frames == self.decoded + self.errs + 1
        &&& self.phase != InboundPhase::Decoding ==> self.frames == self.decoded + self.errs
        &&& self.records <= self.decoded
        &&& self.phase == InboundPhase::Joining ==> self.records < self.decoded
    }

    /// The event is one that the phase waits for.
    pub open spec fn accepts(self, event: InboundEvent) -> bool {
        match self.phase {
            InboundPhase::Length => event is Length || event is ReadFailed,
            InboundPhase::Chunk { .. } => event is Chunk || event is ReadFailed,
            InboundPhase::Decoding => event is Malformed || event is Decoded,
            InboundPhase::Joining => event is Incomplete || event is Complete,
            InboundPhase::Delivering => event is Delivered || event is NotDelivered,
            InboundPhase::Ended(_) => false,
        }
    }

    /// The direction after an event. A malformed chunk is counted and passed over.
    pub open spec fn after(self, event: InboundEvent) -> Inbound {
        match event {
            InboundEvent::Length { len } => Inbound { phase: InboundPhase::Chunk { len }, ..self },
            InboundEvent::Chunk => Inbound {
                phase: InboundPhase::Decoding,
                frames: (self.frames + 1) as u64,
                ..self
            },
            InboundEvent::ReadFailed => Inbound {
                phase: InboundPhase::Ended(
                    if self.phase == InboundPhase::Length {
                        End::PeerClosed
                    } else {
                        End::Truncated
                    },
                ),
                ..self
            },
            InboundEvent::Malformed => Inbound {
                phase: InboundPhase::Length,
                errs: (self.errs + 1) as u64,
                ..self
            },
            InboundEvent::Decoded => Inbound {
                phase: InboundPhase::Joining,
                decoded: (self.decoded + 1) as u64,
                ..self
            },
            InboundEvent::Incomplete => Inbound { phase: InboundPhase::Length, ..self },
            InboundEvent::Complete => Inbound {
                phase: InboundPhase::Delivering,
                records: (self.records + 1) as u64,
                ..self
            },
            InboundEvent::Delivered => Inbound { phase: InboundPhase::Length, ..self },
            InboundEvent::NotDelivered => Inbound {
                phase: InboundPhase::Ended(End::ReceiverGone),
                ..self
            },
        }
    }

    /// What the phase asks for.
    pub open spec fn wanted(self) -> InboundAction {
        match self.phase {
            InboundPhase::Length => InboundAction::ReadLength,
            InboundPhase::Chunk { len } => InboundAction::ReadChunk { len },
            InboundPhase::Decoding => InboundAction::DecodeChunk,
            InboundPhase::Joining => InboundAction::JoinChunk,
            InboundPhase::Delivering => InboundAction::DeliverRecord,
            InboundPhase::Ended(end) => InboundAction::End(end),
        }
    }

    /// Nothing received yet.
    pub fn new() -> (bridge: Inbound)
        ensures
            bridge == Inbound::start(),
            bridge.wf(),
    {
        Inbound { phase: InboundPhase::Length, frames: 0, decoded: 0, errs: 0, records: 0 }
    }

    /// What to do next.
    pub fn action(&self) -> (action: InboundAction)
        ensures
            action == self.wanted(),
    {
        match self.phase {
            InboundPhase::Length => InboundAction::ReadLength,
            InboundPhase::Chunk { len } => InboundAction::ReadChunk { len },
            InboundPhase::Decoding => InboundAction::DecodeChunk,
            InboundPhase::Joining => InboundAction::JoinChunk,
            InboundPhase::Delivering => InboundAction::DeliverRecord,
            InboundPhase::Ended(end) => InboundAction::End(end),
        }
    }

    /// The four length bytes of a frame, as an event.
    pub fn length_event(bytes: &[u8; 4]) -> (event: InboundEvent)
        ensures
            event == (InboundEvent::Length { len: framing::length_of(bytes@) as u32 }),
    {
        InboundEvent::Length { len: framing::read_length(bytes) }
    }

    /// Takes in what happened.
    pub fn step(&mut self, event: InboundEvent)
        requires
            old(self).wf(),
            old(self).accepts(event),
            event is Chunk ==> old(self).frames < u64::MAX,
        ensures
            *final(self) == old(self).after(event),
            final(self).wf(),
    {
        match event {
            InboundEvent::Length { len } => {
                self.phase = InboundPhase::Chunk { len };
            },
            InboundEvent::Chunk => {
                self.frames = self.frames + 1;
                self.phase = InboundPhase::Decoding;
            },
            InboundEvent::ReadFailed => {
                self.phase = match self.phase {
                    InboundPhase::Length => InboundPhase::Ended(End::PeerClosed),
                    _ => InboundPhase::Ended(End::Truncated),
                };
            },
            InboundEvent::Malformed => {
                self.errs = self.errs + 1;
                self.phase = InboundPhase::Length;
            },
            InboundEvent::Decoded => {
                self.decoded = self.decoded + 1;
                self.phase = InboundPhase::Joining;
            },
            InboundEvent::Incomplete => {
                self.phase = InboundPhase::Length;
            },
            InboundEvent::Complete => {
                self.records = self.records + 1;
                self.phase = InboundPhase::Delivering;
            },
            InboundEvent::Delivered => {
                self.phase = InboundPhase::Length;
            },
            InboundEvent::NotDelivered => {
                self.phase = InboundPhase::Ended(End::ReceiverGone);
            },
        }
    }
}

/// The outbound direction after `n` frames of the record at hand have been written.
pub open spec fn after_writes(bridge: Outbound, n: nat) -> Outbound
    decreases n,
{
    if n == 0 {
        bridge
    } else {
        after_writes(bridge, (n - 1) as nat).after(OutboundEvent::Written)
    }
}

/// A record goes out whole: once its chunks have all been written, one by one and in order,
/// the direction waits for the next record, having counted one record and every frame.
pub proof fn law_record_sent_whole(bridge: Outbound, chunks: usize, n: nat)
    requires
        bridge.phase == OutboundPhase::Idle,
        bridge.records < u64::MAX,
        bridge.frames + chunks <= u64::MAX,
        n <= chunks,
    ensures
        ({
            let sent = after_writes(bridge.after(OutboundEvent::Record { chunks }), n);
            &&& sent.records == bridge.records + 1
            &&& sent.frames == bridge.frames + n
            &&& n < chunks ==> sent.wanted() == (OutboundAction::WriteFrame { index: n as usize })
            &&& n < chunks ==> sent.phase == (OutboundPhase::Writing {
                written: n as usize,
                chunks,
            })
            &&& n == chunks ==> sent.phase == OutboundPhase::Idle
        }),
    decreases n,
{
    if n > 0 {
        law_record_sent_whole(bridge, chunks, (n - 1) as nat);
    }
}

/// The outbound direction after a run of events.
pub open spec fn after_outbound(bridge: Outbound, events: Seq<OutboundEvent>) -> Outbound
    decreases events.len(),
{
    if events.len() == 0 {
        bridge
    } else {
        after_outbound(bridge, events.drop_last()).after(events.last())
    }
}

/// The events are a run over these records, each given as its chunks: every event is one that the
/// direction waits for when it comes, and the records that it takes are these, in order.
pub open spec fn runs_over(records: Seq<Seq<Seq<u8>>>, events: Seq<OutboundEvent>) -> bool
    decreases events.len(),
{
    events.len() > 0 ==> {
        let before = after_outbound(Outbound::start(), events.drop_last());
        &&& runs_over(records, events.drop_last())
        &&& before.accepts(events.last())
        &&& events.last() matches OutboundEvent::Record { chunks } ==> before.records
            < records.len() && chunks == records[before.records as int].len()
    }
}

/// The chunk that the direction asks for: the one at the index of its action, of the record that
/// it has taken last.
pub open spec fn asked_for(bridge: Outbound, records: Seq<Seq<Seq<u8>>>) -> Seq<u8> {
    records[bridge.records - 1][bridge.wanted()->index as int]
}

/// All that a run has written: the frames of the chunks that it asked for, put end to end.
pub open spec fn written_bytes(records: Seq<Seq<Seq<u8>>>, events: Seq<OutboundEvent>) -> Seq<u8>
    decreases events.len(),
{
    if events.len() == 0 {
        Seq::empty()
    } else {
        let before = after_outbound(Outbound::start(), events.drop_last());
        let so_far = written_bytes(records, events.drop_last());
        if events.last() is Written {
            so_far + framing::frame_bytes(asked_for(before, records))
        } else {
            so_far
        }
    }
}

/// The chunks of all these records, in order.
pub open spec fn all_chunks(records: Seq<Seq<Seq<u8>>>) -> Seq<Seq<u8>>
    decreases records.len(),
{
    if records.len() == 0 {
        Seq::empty()
    } else {
        all_chunks(records.drop_last()) + records.last()
    }
}

/// One more chunk at the end of a stream.
proof fn lemma_stream_push(chunks: Seq<Seq<u8>>, chunk: Seq<u8>)
    ensures
        framing::stream_of(chunks.push(chunk)) == framing::stream_of(chunks) + framing::frame_bytes(
            chunk,
        ),
    decreases chunks.len(),
{
    let longer = chunks.push(chunk);
    if chunks.len() == 0 {
        assert(longer.first() == chunk);
        assert(longer.drop_first() =~= Seq::<Seq<u8>>::empty());
        assert(framing::stream_of(longer.drop_first()) =~= Seq::<u8>::empty());
        assert(framing::stream_of(longer) =~= framing::frame_bytes(chunk));
        assert(framing::stream_of(chunks) + framing::frame_bytes(chunk) =~= framing::frame_bytes(
            chunk,
        ));
    } else {
        lemma_stream_push(chunks.drop_first(), chunk);
        assert(longer.first() == chunks.first());
        assert(longer.drop_first() =~= chunks.drop_first().push(chunk));
        assert(framing::stream_of(longer) =~= framing::stream_of(chunks) + framing::frame_bytes(
            chunk,
        ));
    }
}

/// The chunks of the first records come first among those of all records.
proof fn lemma_first_chunks(records: Seq<Seq<Seq<u8>>>, n: int)
    requires
        0 <= n <= records.len(),
    ensures
        all_chunks(records.take(n)).len() <= all_chunks(records).len(),
        all_chunks(records).take(all_chunks(records.take(n)).len() as int) == all_chunks(
            records.take(n),
        ),
    decreases records.len() - n,
{
    if n == records.len() {
        assert(records.take(n) =~= records);
        assert(all_chunks(records).take(all_chunks(records).len() as int) =~= all_chunks(records));
    } else {
        lemma_first_chunks(records, n + 1);
        assert(records.take(n + 1).drop_last() =~= records.take(n));
        let some = all_chunks(records.take(n + 1));
        let len = all_chunks(records.take(n)).len() as int;
        assert(some.take(len) =~= all_chunks(records.take(n)));
        assert(all_chunks(records).take(len) =~= all_chunks(records).take(some.len() as int).take(
            len,
        ));
    }
}

/// The chunks that have been sent: those of the records taken before the one at hand, and of
/// that one those already written. An ended direction no longer knows them.
spec fn sent_so_far(bridge: Outbound, records: Seq<Seq<Seq<u8>>>) -> Seq<Seq<u8>> {
    match bridge.phase {
        OutboundPhase::Writing { written, .. } => all_chunks(records.take(bridge.records - 1))
            + records[bridge.records - 1].take(written as int),
        _ => all_chunks(records.take(bridge.records as int)),
    }
}

/// What a run has written is the stream of what it has sent, and the frames are counted.
proof fn lemma_outbound(records: Seq<Seq<Seq<u8>>>, events: Seq<OutboundEvent>)
    requires
        runs_over(records, events),
        events.len() <= u64::MAX,
    ensures
        ({
            let now = after_outbound(Outbound::start(), events);
            let bytes = written_bytes(records, events);
            &&& now.wf()
            &&& now.records <= events.len()
            &&& now.records <= records.len()
            &&& now.frames <= events.len()
            &&& now.frames <= all_chunks(records).len()
            &&& bytes == framing::stream_of(all_chunks(records).take(now.frames as int))
            &&& now.phase matches OutboundPhase::Writing { chunks, .. } ==> now.records > 0
                && chunks == records[now.records - 1].len()
            &&& !(now.phase is Ended) ==> sent_so_far(now, records).len() == now.frames
            &&& !(now.phase is Ended) ==> sent_so_far(now, records) == all_chunks(records).take(
                now.frames as int,
            )
        }),
    decreases events.len(),
{
    let now = after_outbound(Outbound::start(), events);
    if events.len() == 0 {
        assert(records.take(0) =~= Seq::<Seq<Seq<u8>>>::empty());
        assert(all_chunks(records).take(0) =~= Seq::<Seq<u8>>::empty());
    } else {
        lemma_outbound(records, events.drop_last());
        let before = after_outbound(Outbound::start(), events.drop_last());
        match events.last() {
            OutboundEvent::Record { chunks } => {
                let n = before.records as int;
                assert(records.take(n + 1).drop_last() =~= records.take(n));
                if chunks == 0 {
                    assert(all_chunks(records.take(n)) + records[n] =~= all_chunks(
                        records.take(n),
                    ));
                } else {
                    assert(all_chunks(records.take(n)) + records[n].take(0) =~= all_chunks(
                        records.take(n),
                    ));
                }
            },
            OutboundEvent::Written => {
                lemma_written(records, before);
            },
            _ => {},
        }
    }
}

/// One more frame of the record at hand.
proof fn lemma_written(records: Seq<Seq<Seq<u8>>>, before: Outbound)
    requires
        before.phase is Writing,
        before.wf(),
        0 < before.records <= records.len(),
        before.phase->chunks == records[before.records - 1].len(),
        sent_so_far(before, records).len() == before.frames,
        before.frames < u64::MAX,
        before.frames <= all_chunks(records).len(),
        sent_so_far(before, records) == all_chunks(records).take(before.frames as int),
    ensures
        ({
            let now = before.after(OutboundEvent::Written);
            &&& now.frames <= all_chunks(records).len()
            &&& sent_so_far(now, records) == sent_so_far(before, records).push(
                asked_for(before, records),
            )
            &&& sent_so_far(now, records).len() == now.frames
            &&& sent_so_far(now, records) == all_chunks(records).take(now.frames as int)
            &&& framing::stream_of(all_chunks(records).take(now.frames as int))
                == framing::stream_of(all_chunks(records).take(before.frames as int))
                + framing::frame_bytes(asked_for(before, records))
        }),
{
    let n = before.records as int;
    let written = before.phase->written as int;
    let record = records[n - 1];
    let now = before.after(OutboundEvent::Written);
    let earlier = all_chunks(records.take(n - 1));
    let sent = earlier + record.take(written + 1);
    assert(records.take(n).drop_last() =~= records.take(n - 1));
    lemma_first_chunks(records, n);
    let taken = all_chunks(records.take(n));
    assert(taken == earlier + record);
    assert(sent =~= taken.take(before.frames + 1));
    assert(all_chunks(records).take(before.frames + 1) =~= all_chunks(records).take(
        taken.len() as int,
    ).take(before.frames + 1));
    assert(sent =~= sent_so_far(before, records).push(record[written]));
    if written + 1 == record.len() {
        assert(record.take(written + 1) =~= record);
    }
    lemma_stream_push(sent_so_far(before, records), record[written]);
}

/// What goes out is the stream of the records' chunks: over any run of records the chunks asked
/// for, framed and put end to end, are the frames of the records' chunks in order, as many as
/// are counted. Between two records every chunk of every record taken has gone out. So the peer
/// finds these chunks again in the stream.
pub proof fn law_records_make_stream(records: Seq<Seq<Seq<u8>>>, events: Seq<OutboundEvent>)
    requires
        runs_over(records, events),
        events.len() <= u64::MAX,
    ensures
        ({
            let now = after_outbound(Outbound::start(), events);
            let bytes = written_bytes(records, events);
            let sent = all_chunks(records).take(now.frames as int);
            &&& now.frames <= all_chunks(records).len()
            &&& now.records <= records.len()
            &&& bytes == framing::stream_of(sent)
            &&& now.phase == OutboundPhase::Idle ==> bytes == framing::stream_of(
                all_chunks(records.take(now.records as int)),
            )
            &&& (forall|i: int|
                0 <= i < all_chunks(records).len() ==> (#[trigger] all_chunks(records)[i]).len()
                    <= u32::MAX) ==> framing::chunks_of(bytes) == sent
        }),
{
    lemma_outbound(records, events);
    let now = after_outbound(Outbound::start(), events);
    let sent = all_chunks(records).take(now.frames as int);
    if forall|i: int|
        0 <= i < all_chunks(records).len() ==> (#[trigger] all_chunks(records)[i]).len()
            <= u32::MAX {
        assert forall|i: int| 0 <= i < sent.len() implies (#[trigger] sent[i]).len()
            <= u32::MAX by {
            assert(sent[i] == all_chunks(records)[i]);
        }
        framing::law_stream_read_back(sent);
    }
}

/// The inbound direction after a run of events.
pub open spec fn after_events(bridge: Inbound, events: Seq<InboundEvent>) -> Inbound
    decreases events.len(),
{
    if events.len() == 0 {
        bridge
    } else {
        after_events(bridge, events.drop_last()).after(events.last())
    }
}

/// Every event of a run is one that the direction waits for when it comes.
pub open spec fn accepts_all(bridge: Inbound, events: Seq<InboundEvent>) -> bool
    decreases events.len(),
{
    events.len() > 0 ==> {
        &&& accepts_all(bridge, events.drop_last())
        &&& after_events(bridge, events.drop_last()).accepts(events.last())
    }
}

/// No frame goes missing: after any run of events the frames read are the chunks decoded and
/// those found malformed, but for one that is being decoded.
pub proof fn law_frames_accounted_for(events: Seq<InboundEvent>)
    requires
        accepts_all(Inbound::start(), events),
        events.len() <= u64::MAX,
    ensures
        after_events(Inbound::start(), events).wf(),
        after_events(Inbound::start(), events).frames <= events.len(),
    decreases events.len(),
{
    if events.len() > 0 {
        law_frames_accounted_for(events.drop_last());
    }
}

/// Where the frame at hand starts in the stream: behind the frames that have been read whole.
pub open spec fn frame_start(events: Seq<InboundEvent>) -> nat
    decreases events.len(),
{
    if events.len() == 0 {
        0
    } else {
        let before = after_events(Inbound::start(), events.drop_last());
        frame_start(events.drop_last()) + if events.last() is Chunk {
            4 + before.phase->len as nat
        } else {
            0nat
        }
    }
}

/// The events are a run on this stream: every event is one that the direction waits for when it
/// comes; a length that is read is that of the next four bytes, and a chunk that is read has all
/// its bytes in the stream.
pub open spec fn reads_from(stream: Seq<u8>, events: Seq<InboundEvent>) -> bool
    decreases events.len(),
{
    events.len() > 0 ==> {
        let before = after_events(Inbound::start(), events.drop_last());
        let start = frame_start(events.drop_last()) as int;
        &&& reads_from(stream, events.drop_last())
        &&& before.accepts(events.last())
        &&& events.last() matches InboundEvent::Length { len } ==> start + 4 <= stream.len() && len
            == framing::length_of(stream.subrange(start, start + 4))
        &&& events.last() is Chunk ==> start + 4 + before.phase->len <= stream.len()
    }
}

/// The chunks that a run has read: each the bytes behind its length, as many as that gives.
pub open spec fn chunks_read(stream: Seq<u8>, events: Seq<InboundEvent>) -> Seq<Seq<u8>>
    decreases events.len(),
{
    if events.len() == 0 {
        Seq::empty()
    } else {
        let before = after_events(Inbound::start(), events.drop_last());
        let start = frame_start(events.drop_last()) as int;
        let so_far = chunks_read(stream, events.drop_last());
        if events.last() is Chunk {
            so_far.push(stream.subrange(start + 4, start + 4 + before.phase->len))
        } else {
            so_far
        }
    }
}

/// A run on a stream is a run of events that are waited for.
proof fn lemma_reads_accepted(stream: Seq<u8>, events: Seq<InboundEvent>)
    requires
        reads_from(stream, events),
    ensures
        accepts_all(Inbound::start(), events),
    decreases events.len(),
{
    if events.len() > 0 {
        lemma_reads_accepted(stream, events.drop_last());
    }
}

/// What is read of a stream are its chunks, each whole and in order: the chunks read, followed by
/// those of the frames that are left, are the chunks of the stream. Where what is left holds no
/// whole frame, every chunk of the stream has been read.
pub proof fn law_stream_is_read(stream: Seq<u8>, events: Seq<InboundEvent>)
    requires
        reads_from(stream, events),
    ensures
        ({
            let start = frame_start(events) as int;
            let read = chunks_read(stream, events);
            let left = stream.skip(start);
            let now = after_events(Inbound::start(), events);
            &&& start <= stream.len()
            &&& read + framing::chunks_of(left) == framing::chunks_of(stream)
            &&& framing::chunks_of(left).len() == 0 ==> read == framing::chunks_of(stream)
            &&& now.phase matches InboundPhase::Chunk { len } ==> left.len() >= 4 && len
                == framing::length_of(left.take(4))
        }),
    decreases events.len(),
{
    let start = frame_start(events) as int;
    let read = chunks_read(stream, events);
    if events.len() == 0 {
        assert(stream.skip(0) =~= stream);
        assert(read + framing::chunks_of(stream) =~= framing::chunks_of(stream));
    } else {
        law_stream_is_read(stream, events.drop_last());
        let before = after_events(Inbound::start(), events.drop_last());
        let old_start = frame_start(events.drop_last()) as int;
        let old_left = stream.skip(old_start);
        match events.last() {
            InboundEvent::Length { .. } => {
                assert(old_left.take(4) =~= stream.subrange(old_start, old_start + 4));
            },
            InboundEvent::Chunk => {
                let len = before.phase->len as int;
                let chunk = stream.subrange(old_start + 4, old_start + 4 + len);
                assert(old_left.subrange(4, 4 + len) =~= chunk);
                assert(old_left.skip(4 + len) =~= stream.skip(start));
                assert(framing::chunks_of(old_left) == seq![chunk] + framing::chunks_of(
                    stream.skip(start),
                ));
                assert(read + framing::chunks_of(stream.skip(start)) =~= chunks_read(
                    stream,
                    events.drop_last(),
                ) + framing::chunks_of(old_left));
            },
            _ => {},
        }
    }
    if framing::chunks_of(stream.skip(start)).len() == 0 {
        assert(read + framing::chunks_of(stream.skip(start)) =~= read);
    }
}

/// Whether each chunk could be decoded, in the order in which the chunks were read.
pub open spec fn verdicts(events: Seq<InboundEvent>) -> Seq<bool>
    decreases events.len(),
{
    if events.len() == 0 {
        Seq::empty()
    } else {
        let so_far = verdicts(events.drop_last());
        match events.last() {
            InboundEvent::Decoded => so_far.push(true),
            InboundEvent::Malformed => so_far.push(false),
            _ => so_far,
        }
    }
}

/// The chunks with a good verdict, in order.
pub open spec fn kept(chunks: Seq<Seq<u8>>, verdicts: Seq<bool>) -> Seq<Seq<u8>>
    decreases verdicts.len(),
{
    if verdicts.len() == 0 {
        Seq::empty()
    } else {
        let before = kept(chunks, verdicts.drop_last());
        if verdicts.last() {
            before.push(chunks[verdicts.len() - 1])
        } else {
            before
        }
    }
}

/// The chunks that have been joined with those before them: each time, the one read last.
pub open spec fn joined(stream: Seq<u8>, events: Seq<InboundEvent>) -> Seq<Seq<u8>>
    decreases events.len(),
{
    if events.len() == 0 {
        Seq::empty()
    } else {
        let so_far = joined(stream, events.drop_last());
        if events.last() is Incomplete || events.last() is Complete {
            so_far.push(chunks_read(stream, events.drop_last()).last())
        } else {
            so_far
        }
    }
}

/// A chunk without a verdict is not among those kept.
proof fn lemma_kept_push(chunks: Seq<Seq<u8>>, chunk: Seq<u8>, verdicts: Seq<bool>)
    requires
        verdicts.len() <= chunks.len(),
    ensures
        kept(chunks.push(chunk), verdicts) == kept(chunks, verdicts),
    decreases verdicts.len(),
{
    if verdicts.len() > 0 {
        lemma_kept_push(chunks, chunk, verdicts.drop_last());
        assert(chunks.push(chunk)[verdicts.len() - 1] == chunks[verdicts.len() - 1]);
    }
}

/// The chunks that are joined are those that could be decoded, each once and in the order in
/// which they were read, but for one that is being joined. Every chunk but one that is being
/// decoded has its verdict.
pub proof fn law_decoded_are_joined(stream: Seq<u8>, events: Seq<InboundEvent>)
    requires
        reads_from(stream, events),
        events.len() <= u64::MAX,
    ensures
        ({
            let now = after_events(Inbound::start(), events);
            let read = chunks_read(stream, events);
            let at_hand = if now.phase == InboundPhase::Joining {
                seq![read.last()]
            } else {
                Seq::empty()
            };
            &&& joined(stream, events) + at_hand == kept(read, verdicts(events))
            &&& read.len() == now.frames
            &&& kept(read, verdicts(events)).len() == now.decoded
            &&& read.len() == verdicts(events).len() + if now.phase == InboundPhase::Decoding {
                1nat
            } else {
                0nat
            }
            &&& now.phase == InboundPhase::Joining ==> read.len() > 0
        }),
    decreases events.len(),
{
    if events.len() > 0 {
        let rest = events.drop_last();
        law_decoded_are_joined(stream, rest);
        lemma_reads_accepted(stream, events);
        law_frames_accounted_for(rest);
        let before = after_events(Inbound::start(), rest);
        let read = chunks_read(stream, rest);
        let all = verdicts(events);
        assert(joined(stream, rest) + Seq::<Seq<u8>>::empty() =~= joined(stream, rest));
        match events.last() {
            InboundEvent::Chunk => {
                lemma_kept_push(read, chunks_read(stream, events).last(), verdicts(rest));
                assert(chunks_read(stream, events) =~= read.push(
                    chunks_read(stream, events).last(),
                ));
            },
            InboundEvent::Decoded => {
                assert(all.drop_last() =~= verdicts(rest));
                assert(kept(read, all) =~= kept(read, verdicts(rest)).push(read.last()));
                assert(joined(stream, events) + seq![read.last()] =~= kept(read, all));
            },
            InboundEvent::Malformed => {
                assert(all.drop_last() =~= verdicts(rest));
            },
            InboundEvent::Incomplete => {
                assert(joined(stream, events) =~= joined(stream, rest) + seq![read.last()]);
            },
            InboundEvent::Complete => {
                assert(joined(stream, events) =~= joined(stream, rest) + seq![read.last()]);
            },
            _ => {},
        }
        let now = after_events(Inbound::start(), events);
        if now.phase != InboundPhase::Joining {
            assert(joined(stream, events) + Seq::<Seq<u8>>::empty() =~= joined(stream, events));
        }
    } else {
        assert(joined(stream, events) + Seq::<Seq<u8>>::empty() =~= Seq::<Seq<u8>>::empty());
    }
}

/// What one side sends, the other side reads: on the stream that an outbound direction has
/// written, the chunks that an inbound direction has read, followed by those still in the
/// stream, are the chunks sent.
pub proof fn law_sent_is_read(
    records: Seq<Seq<Seq<u8>>>,
    sent: Seq<OutboundEvent>,
    received: Seq<InboundEvent>,
)
    requires
        runs_over(records, sent),
        sent.len() <= u64::MAX,
        reads_from(written_bytes(records, sent), received),
        forall|i: int|
            0 <= i < all_chunks(records).len() ==> (#[trigger] all_chunks(records)[i]).len()
                <= u32::MAX,
    ensures
        ({
            let stream = written_bytes(records, sent);
            let frames = after_outbound(Outbound::start(), sent).frames as int;
            chunks_read(stream, received) + framing::chunks_of(
                stream.skip(frame_start(received) as int),
            ) == all_chunks(records).take(frames)
        }),
{
    law_records_make_stream(records, sent);
    law_stream_is_read(written_bytes(records, sent), received);
}

/// What the outbound direction is asked for next, by what has just happened: a record brings its
/// first chunk, or, without chunks, the wait for the next record; a frame written brings the next
/// chunk, or after the last the wait; a failed write and the end of the records end it. What is
/// counted are the records taken and the frames written.
pub proof fn law_outbound_steps(bridge: Outbound, event: OutboundEvent)
    requires
        bridge.wf(),
        bridge.accepts(event),
        event is Record ==> bridge.records < u64::MAX,
        event == OutboundEvent::Written ==> bridge.frames < u64::MAX,
    ensures
        ({
            let now = bridge.after(event);
            &&& event matches OutboundEvent::Record { chunks } ==> {
                &&& bridge.wanted() == OutboundAction::TakeRecord
                &&& chunks == 0 ==> now.wanted() == OutboundAction::TakeRecord
                &&& chunks > 0 ==> now.wanted() == (OutboundAction::WriteFrame { index: 0 })
                &&& chunks > 0 ==> now.phase == (OutboundPhase::Writing { written: 0, chunks })
            }
            &&& event == OutboundEvent::Written ==> {
                &&& bridge.wanted() is WriteFrame
                &&& bridge.phase is Writing
                &&& bridge.wanted()->index == bridge.phase->written
                &&& bridge.wanted()->index + 1 == bridge.phase->chunks ==> now.wanted()
                    == OutboundAction::TakeRecord
                &&& bridge.wanted()->index + 1 < bridge.phase->chunks ==> now.wanted() == (
                OutboundAction::WriteFrame { index: (bridge.wanted()->index + 1) as usize })
                    && now.phase is Writing && now.phase->chunks == bridge.phase->chunks
            }
            &&& event == OutboundEvent::WriteFailed ==> bridge.wanted() is WriteFrame
                && now.wanted() == OutboundAction::End(End::WriteFailed)
            &&& event == OutboundEvent::Closed ==> bridge.wanted() == OutboundAction::TakeRecord
                && now.wanted() == OutboundAction::End(End::NoMoreRecords)
            &&& now.records == bridge.records + if event is Record {
                1int
            } else {
                0int
            }
            &&& now.frames == bridge.frames + if event == OutboundEvent::Written {
                1int
            } else {
                0int
            }
        }),
{
}

/// The outbound direction starts waiting for a record, with nothing counted. Waiting, it takes a
/// record or the end of the records; writing, a written or a failed frame; ended, nothing.
pub proof fn law_outbound_accepts(bridge: Outbound, event: OutboundEvent)
    ensures
        Outbound::start().wanted() == OutboundAction::TakeRecord,
        Outbound::start().records == 0 && Outbound::start().frames == 0,
        bridge.wanted() == OutboundAction::TakeRecord ==> (bridge.accepts(event) <==> event is Record
            || event == OutboundEvent::Closed),
        bridge.wanted() is WriteFrame ==> (bridge.accepts(event) <==> event
            == OutboundEvent::Written || event == OutboundEvent::WriteFailed),
        bridge.wanted() is End ==> !bridge.accepts(event),
{
}

/// What the inbound direction is asked for next, by what has just happened: a length brings the
/// read of that many bytes, a chunk its decoding, a decoded chunk its joining, and a completed
/// record, always, its delivery. A malformed chunk, one that completes nothing, and a delivered
/// record bring the next length. A read that fails between two frames ends it as closed by the
/// peer, inside one as truncated; a record that nobody takes ends it too.
pub proof fn law_inbound_steps(bridge: Inbound, event: InboundEvent)
    requires
        bridge.accepts(event),
    ensures
        ({
            let asked = bridge.wanted();
            let next = bridge.after(event).wanted();
            &&& event matches InboundEvent::Length { len } ==> asked == InboundAction::ReadLength
                && next == (InboundAction::ReadChunk { len })
            &&& event == InboundEvent::Chunk ==> asked is ReadChunk && next
                == InboundAction::DecodeChunk
            &&& event == InboundEvent::Decoded ==> asked == InboundAction::DecodeChunk && next
                == InboundAction::JoinChunk
            &&& event == InboundEvent::Malformed ==> asked == InboundAction::DecodeChunk && next
                == InboundAction::ReadLength
            &&& event == InboundEvent::Incomplete ==> asked == InboundAction::JoinChunk && next
                == InboundAction::ReadLength
            &&& event == InboundEvent::Complete ==> asked == InboundAction::JoinChunk && next
                == InboundAction::DeliverRecord
            &&& event == InboundEvent::Delivered ==> asked == InboundAction::DeliverRecord && next
                == InboundAction::ReadLength
            &&& event == InboundEvent::NotDelivered ==> asked == InboundAction::DeliverRecord
                && next == InboundAction::End(End::ReceiverGone)
            &&& event == InboundEvent::ReadFailed ==> {
                ||| asked == InboundAction::ReadLength && next == InboundAction::End(
                    End::PeerClosed,
                )
                ||| asked is ReadChunk && next == InboundAction::End(End::Truncated)
            }
        }),
{
}

/// The inbound direction starts with the first length, with nothing counted. It waits for the
/// outcomes of what it asks for, and of nothing once it has ended.
pub proof fn law_inbound_accepts(bridge: Inbound, event: InboundEvent)
    ensures
        Inbound::start().wanted() == InboundAction::ReadLength,
        Inbound::start().frames == 0 && Inbound::start().decoded == 0 && Inbound::start().errs == 0
            && Inbound::start().records == 0,
        bridge.wanted() == InboundAction::ReadLength ==> (bridge.accepts(event) <==> event is Length
            || event == InboundEvent::ReadFailed),
        bridge.wanted() is ReadChunk ==> (bridge.accepts(event) <==> event == InboundEvent::Chunk
            || event == InboundEvent::ReadFailed),
        bridge.wanted() == InboundAction::DecodeChunk ==> (bridge.accepts(event) <==> event
            == InboundEvent::Decoded || event == InboundEvent::Malformed),
        bridge.wanted() == InboundAction::JoinChunk ==> (bridge.accepts(event) <==> event
            == InboundEvent::Complete || event == InboundEvent::Incomplete),
        bridge.wanted() == InboundAction::DeliverRecord ==> (bridge.accepts(event) <==> event
            == InboundEvent::Delivered || event == InboundEvent::NotDelivered),
        bridge.wanted() is End ==> !bridge.accepts(event),
{
}

/// How many of the events are this one.
pub open spec fn times(events: Seq<InboundEvent>, event: InboundEvent) -> nat {
    events.filter(|e: InboundEvent| e == event).len()
}

/// Counting one more event.
proof fn lemma_times(events: Seq<InboundEvent>, event: InboundEvent)
    requires
        events.len() > 0,
    ensures
        times(events, event) == times(events.drop_last(), event) + if events.last() == event {
            1nat
        } else {
            0nat
        },
{
    reveal(Seq::filter);
}

/// Every completed record is delivered: over any run, each one that was completed has been handed
/// on or found nobody to take it, but for one while it is being delivered. The counters count what
/// they say: frames read, chunks decoded, chunks found malformed, records completed.
pub proof fn law_records_are_delivered(events: Seq<InboundEvent>)
    requires
        accepts_all(Inbound::start(), events),
        events.len() <= u64::MAX,
    ensures
        ({
            let now = after_events(Inbound::start(), events);
            &&& times(events, InboundEvent::Complete) == times(events, InboundEvent::Delivered)
                + times(events, InboundEvent::NotDelivered) + if now.wanted()
                == InboundAction::DeliverRecord {
                1nat
            } else {
                0nat
            }
            &&& now.frames == times(events, InboundEvent::Chunk)
            &&& now.decoded == times(events, InboundEvent::Decoded)
            &&& now.errs == times(events, InboundEvent::Malformed)
            &&& now.records == times(events, InboundEvent::Complete)
            &&& times(events, InboundEvent::Chunk) <= events.len()
            &&& times(events, InboundEvent::Decoded) <= events.len()
            &&& times(events, InboundEvent::Malformed) <= events.len()
            &&& times(events, InboundEvent::Complete) <= events.len()
        }),
    decreases events.len(),
{
    if events.len() > 0 {
        law_records_are_delivered(events.drop_last());
        lemma_times(events, InboundEvent::Complete);
        lemma_times(events, InboundEvent::Delivered);
        lemma_times(events, InboundEvent::NotDelivered);
        lemma_times(events, InboundEvent::Chunk);
        lemma_times(events, InboundEvent::Decoded);
        lemma_times(events, InboundEvent::Malformed);
    } else {
        reveal(Seq::filter);
    }
}

} // verus!
