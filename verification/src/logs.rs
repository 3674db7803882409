//! Following the device's debug log.
//!
//! The device sends frames over a bulk endpoint: one type byte, then a payload. A frame ends
//! with a read shorter than the read size. The payloads of the log frames, put end to end,
//! are log records, each ended by a terminator byte; a record may span frames.

use crate::text::{contains, text_from_bytes, trim_line_end};
use crate::usb::TransferType;
use vstd::prelude::*;

verus! {

/// Type byte of a frame that carries log records.
pub const FRAME_LOG: u8 = 0x01;

/// The byte that ends a log record.
pub const RECORD_TERMINATOR: u8 = 0x1e;

/// Size of one bulk read: a shorter read ends a frame.
pub const READ_CHUNK: usize = 65536;

/// Pause between two attempts to open the device, in milliseconds.
pub const RETRY_DELAY_MS: u64 = 500;

/// How long one bulk read waits for data, in milliseconds.
pub const READ_TIMEOUT_MS: u64 = 200;

/// Interface class of the vendor-specific debug interface.
pub const DEBUG_CLASS: u8 = 0xff;

/// What to print of the log, and for how long.
pub struct Args {
    /// Only print log records that contain this text.
    pub filter: Option<String>,
    /// Stop after this many records.
    pub limit: Option<usize>,
    /// Stop after this many seconds.
    pub timeout: Option<u64>,
}

/// Where the follower stands.
#[derive(Clone, Copy, Debug, PartialEq, Eq, Structural)]
pub enum Phase {
    /// No device is open. `notified` tells whether the wait has been announced.
    Connecting { notified: bool },
    /// The device is open and is being read.
    Streaming,
    /// The limit is reached.
    Finished,
}

/// What to do next.
#[derive(Clone, Copy, Debug, PartialEq, Eq, Structural)]
pub enum Action {
    /// Try to open the device.
    Connect,
    /// Read from the device.
    Read,
    /// End.
    Stop,
}

/// The text option that an optional string stands for.
pub open spec fn text_option(s: Option<String>) -> Option<Seq<char>> {
    match s {
        Some(text) => Some(text@),
        None => None,
    }
}

/// The texts of a list of strings.
pub open spec fn texts(lines: Seq<String>) -> Seq<Seq<char>> {
    lines.map_values(|line: String| line@)
}

/// The records that `bytes` completes, without their terminators.
pub open spec fn complete_records(bytes: Seq<u8>) -> Seq<Seq<u8>>
    decreases bytes.len(),
{
    if bytes.len() == 0 {
        Seq::empty()
    } else if bytes.last() == RECORD_TERMINATOR {
        complete_records(bytes.drop_last()).push(open_record(bytes.drop_last()))
    } else {
        complete_records(bytes.drop_last())
    }
}

/// What follows the last terminator in `bytes`.
pub open spec fn open_record(bytes: Seq<u8>) -> Seq<u8>
    decreases bytes.len(),
{
    if bytes.len() == 0 || bytes.last() == RECORD_TERMINATOR {
        Seq::empty()
    } else {
        open_record(bytes.drop_last()).push(bytes.last())
    }
}

/// The line that is printed for a record's text: the text without its line end, unless that
/// is empty or lacks the wanted text.
pub open spec fn line_of_text(text: Seq<char>, filter: Option<Seq<char>>) -> Option<Seq<char>> {
    let line = crate::text::without_line_end(text);
    if line.len() == 0 {
        None
    } else {
        match filter {
            Some(want) => if crate::text::contains_text(line, want) {
                Some(line)
            } else {
                None
            },
            None => Some(line),
        }
    }
}

/// The lines that are printed for a list of records.
pub open spec fn lines_of(records: Seq<Seq<u8>>, filter: Option<Seq<char>>) -> Seq<Seq<char>>
    decreases records.len(),
{
    if records.len() == 0 {
        Seq::empty()
    } else {
        let before = lines_of(records.drop_last(), filter);
        match line_of_text(crate::text::lossy_text(records.last()), filter) {
            Some(line) => before.push(line),
            None => before,
        }
    }
}

/// What a follower knows.
#[verifier::ext_equal]
pub struct FollowerView {
    pub phase: Phase,
    /// The bytes of the record that is not complete yet.
    pub records: Seq<u8>,
    /// The bytes of the frame that is not complete yet.
    pub frame: Seq<u8>,
    /// How many more lines may be printed.
    pub budget: Option<nat>,
    pub filter: Option<Seq<char>>,
}

/// The follower after the payload of one log frame, and the lines that it prints.
pub open spec fn after_payload(v: FollowerView, payload: Seq<u8>) -> (FollowerView, Seq<Seq<char>>) {
    let bytes = v.records + payload;
    let lines = lines_of(complete_records(bytes), v.filter);
    match v.budget {
        Some(budget) => if lines.len() >= budget {
            (
                FollowerView {
                    phase: Phase::Finished,
                    records: Seq::empty(),
                    budget: Some(0),
                    ..v
                },
                lines.take(budget as int),
            )
        } else {
            (
                FollowerView {
                    records: open_record(bytes),
                    budget: Some((budget - lines.len()) as nat),
                    ..v
                },
                lines,
            )
        },
        None => (FollowerView { records: open_record(bytes), ..v }, lines),
    }
}

/// The follower after one complete frame: only log frames carry records.
pub open spec fn after_frame(v: FollowerView, frame: Seq<u8>) -> (FollowerView, Seq<Seq<char>>) {
    if frame.len() > 0 && frame[0] == FRAME_LOG {
        after_payload(v, frame.skip(1))
    } else {
        (v, Seq::empty())
    }
}

/// The follower after one bulk read.
pub open spec fn after_read(v: FollowerView, data: Seq<u8>) -> (FollowerView, Seq<Seq<char>>) {
    if data.len() >= READ_CHUNK {
        (FollowerView { frame: v.frame + data, ..v }, Seq::empty())
    } else {
        after_frame(FollowerView { frame: Seq::empty(), ..v }, v.frame + data)
    }
}

/// The follower after the device could not be opened.
pub open spec fn after_connect_failed(v: FollowerView) -> FollowerView {
    FollowerView { phase: Phase::Connecting { notified: true }, ..v }
}

/// The follower after the device has been opened: what an earlier connection left is dropped.
pub open spec fn after_connected(v: FollowerView) -> FollowerView {
    FollowerView {
        phase: Phase::Streaming,
        records: Seq::empty(),
        frame: Seq::empty(),
        ..v
    }
}

/// The follower after the device went away.
pub open spec fn after_lost(v: FollowerView) -> FollowerView {
    FollowerView { phase: Phase::Connecting { notified: false }, ..v }
}

/// A follower that has not looked for the device yet. One that may print nothing is finished
/// from the start.
pub open spec fn at_start(limit: Option<usize>, filter: Option<Seq<char>>) -> FollowerView {
    FollowerView {
        phase: if limit == Some(0usize) {
            Phase::Finished
        } else {
            Phase::Connecting { notified: false }
        },
        records: Seq::empty(),
        frame: Seq::empty(),
        budget: match limit {
            Some(n) => Some(n as nat),
            None => None,
        },
        filter,
    }
}

/// Bytes without a terminator complete no record.
proof fn lemma_open_bytes(bytes: Seq<u8>)
    requires
        !bytes.contains(RECORD_TERMINATOR),
    ensures
        complete_records(bytes) == Seq::<Seq<u8>>::empty(),
        open_record(bytes) == bytes,
    decreases bytes.len(),
{
    if bytes.len() > 0 {
        assert(bytes.contains(bytes.last()));
        let before = bytes.drop_last();
        assert forall|b: u8| before.contains(b) implies bytes.contains(b) by {
            let i = choose|i: int| 0 <= i < before.len() && before[i] == b;
            assert(bytes[i] == b);
        }
        lemma_open_bytes(before);
        assert(before.push(bytes.last()) == bytes);
    }
}

/// What follows the last terminator holds no terminator.
proof fn lemma_open_record_is_open(bytes: Seq<u8>)
    ensures
        !open_record(bytes).contains(RECORD_TERMINATOR),
    decreases bytes.len(),
{
    if bytes.len() > 0 && bytes.last() != RECORD_TERMINATOR {
        lemma_open_record_is_open(bytes.drop_last());
    }
}

/// Records come out of `a + b` as they come out of `a`, then out of what `a` left open
/// followed by `b`.
proof fn lemma_records_of_sum(a: Seq<u8>, b: Seq<u8>)
    ensures
        complete_records(a + b) == complete_records(a) + complete_records(open_record(a) + b),
        open_record(a + b) == open_record(open_record(a) + b),
    decreases b.len(),
{
    if b.len() == 0 {
        assert(a + b == a);
        assert(open_record(a) + b == open_record(a));
        lemma_open_record_is_open(a);
        lemma_open_bytes(open_record(a));
    } else {
        lemma_records_of_sum(a, b.drop_last());
        assert((a + b).drop_last() == a + b.drop_last());
        assert((open_record(a) + b).drop_last() == open_record(a) + b.drop_last());
        assert((a + b).last() == b.last());
        assert((open_record(a) + b).last() == b.last());
    }
}

/// The lines of a list of records are those of its two parts.
proof fn lemma_lines_of_sum(a: Seq<Seq<u8>>, b: Seq<Seq<u8>>, filter: Option<Seq<char>>)
    ensures
        lines_of(a + b, filter) == lines_of(a, filter) + lines_of(b, filter),
    decreases b.len(),
{
    if b.len() == 0 {
        assert(a + b == a);
    } else {
        lemma_lines_of_sum(a, b.drop_last(), filter);
        assert((a + b).drop_last() == a + b.drop_last());
    }
}

/// The lines that the first `n` bytes print come first among those that all of them print.
proof fn lemma_lines_of_prefix(bytes: Seq<u8>, n: int, filter: Option<Seq<char>>)
    requires
        0 <= n <= bytes.len(),
    ensures
        lines_of(complete_records(bytes.take(n)), filter).len() <= lines_of(
            complete_records(bytes),
            filter,
        ).len(),
        lines_of(complete_records(bytes), filter).take(
            lines_of(complete_records(bytes.take(n)), filter).len() as int,
        ) == lines_of(complete_records(bytes.take(n)), filter),
{
    let a = bytes.take(n);
    let b = bytes.skip(n);
    assert(a + b == bytes);
    lemma_records_of_sum(a, b);
    lemma_lines_of_sum(complete_records(a), complete_records(open_record(a) + b), filter);
}

/// The line to print for a record's text, if there is one.
pub fn line_for(text: &str, filter: &Option<String>) -> (line: Option<String>)
    ensures
        text_option(line) == line_of_text(text@, text_option(*filter)),
{
    let line = trim_line_end(text);
    if line.is_empty() {
        return None;
    }
    match filter {
        Some(want) => if contains(line, want.as_str()) {
            Some(line.to_owned())
        } else {
            None
        },
        None => Some(line.to_owned()),
    }
}

/// Turns bulk reads into printed lines, over any number of connections.
pub struct LogFollower {
    phase: Phase,
    records: Vec<u8>,
    frame: Vec<u8>,
    budget: Option<usize>,
    filter: Option<String>,
}

impl View for LogFollower {
    type V = FollowerView;

    closed spec fn view(&self) -> FollowerView {
        FollowerView {
            phase: self.phase,
            records: self.records@,
            frame: self.frame@,
            budget: match self.budget {
                Some(n) => Some(n as nat),
                None => None,
            },
            filter: text_option(self.filter),
        }
    }
}

impl FollowerView {
    /// The open record holds no terminator, and an unfinished follower may still print.
    pub open spec fn wf(self) -> bool {
        &&& !self.records.contains(RECORD_TERMINATOR)
        &&& self.phase != Phase::Finished ==> self.budget != Some(0nat)
    }
}

impl LogFollower {
    /// A follower that has not looked for the device yet.
    pub fn new(args: Args) -> (follower: LogFollower)
        ensures
            follower@ == at_start(args.limit, text_option(args.filter)),
            follower@.wf(),
    {
        let phase = match args.limit {
            Some(0) => Phase::Finished,
            _ => Phase::Connecting { notified: false },
        };
        LogFollower {
            phase,
            records: Vec::new(),
            frame: Vec::new(),
            budget: args.limit,
            filter: args.filter,
        }
    }

    /// What to do next, given whether the deadline has passed.
    pub fn next_action(&self, past_deadline: bool) -> (action: Action)
        ensures
            action == (if past_deadline || self@.phase == Phase::Finished {
                Action::Stop
            } else if self@.phase == Phase::Streaming {
                Action::Read
            } else {
                Action::Connect
            }),
    {
        if past_deadline {
            return Action::Stop;
        }
        match self.phase {
            Phase::Finished => Action::Stop,
            Phase::Streaming => Action::Read,
            Phase::Connecting { .. } => Action::Connect,
        }
    }

    /// The device could not be opened. Tells whether the wait is to be announced, which
    /// happens once per wait.
    pub fn connect_failed(&mut self) -> (announce: bool)
        requires
            old(self)@.phase is Connecting,
        ensures
            final(self)@ == after_connect_failed(old(self)@),
            old(self)@.wf() ==> final(self)@.wf(),
            announce == !old(self)@.phase->notified,
    {
        let announce = match self.phase {
            Phase::Connecting { notified } => !notified,
            _ => true,
        };
        self.phase = Phase::Connecting { notified: true };
        announce
    }

    /// The device has been opened: what an earlier connection left is dropped.
    pub fn connected(&mut self)
        requires
            old(self)@.phase is Connecting,
        ensures
            final(self)@ == after_connected(old(self)@),
            old(self)@.wf() ==> final(self)@.wf(),
    {
        self.phase = Phase::Streaming;
        self.records.clear();
        self.frame.clear();
    }

    /// The device went away: wait for it to return.
    pub fn lost(&mut self)
        requires
            old(self)@.phase == Phase::Streaming,
        ensures
            final(self)@ == after_lost(old(self)@),
            old(self)@.wf() ==> final(self)@.wf(),
    {
        self.phase = Phase::Connecting { notified: false };
    }

    /// The bytes of one bulk read. Returns the lines to print, in order.
    pub fn received(&mut self, data: &[u8]) -> (lines: Vec<String>)
        requires
            old(self)@.phase == Phase::Streaming,
            old(self)@.wf(),
        ensures
            (final(self)@, texts(lines@)) == after_read(old(self)@, data@),
            final(self)@.wf(),
    {
        self.frame.extend_from_slice(data);
        assert(self.frame@ == old(self)@.frame + data@);
        if data.len() >= READ_CHUNK {
            let lines: Vec<String> = Vec::new();
            assert(texts(lines@) == Seq::<Seq<char>>::empty());
            return lines;
        }
        let mut frame: Vec<u8> = Vec::new();
        std::mem::swap(&mut frame, &mut self.frame);
        if frame.len() == 0 || frame[0] != FRAME_LOG {
            let lines: Vec<String> = Vec::new();
            assert(texts(lines@) == Seq::<Seq<char>>::empty());
            return lines;
        }
        self.accept(&frame)
    }

    /// The payload of one complete log frame.
    fn accept(&mut self, frame: &Vec<u8>) -> (lines: Vec<String>)
        requires
            old(self)@.wf(),
            old(self)@.phase == Phase::Streaming,
            frame@.len() > 0,
        ensures
            (final(self)@, texts(lines@)) == after_payload(old(self)@, frame@.skip(1)),
            final(self)@.wf(),
    {
        let ghost start = self@;
        let ghost payload = frame@.skip(1);
        let ghost bytes = start.records + payload;
        let mut lines: Vec<String> = Vec::new();
        let mut i: usize = 1;
        proof {
            lemma_open_bytes(start.records);
            assert(bytes.take(start.records.len() as int) == start.records);
            assert(texts(lines@) == Seq::<Seq<char>>::empty());
        }
        while i < frame.len()
            invariant
                1 <= i <= frame@.len(),
                start == old(self)@,
                payload == frame@.skip(1),
                bytes == start.records + payload,
                start.wf(),
                start.phase == Phase::Streaming,
                self@.phase == start.phase,
                self@.frame == start.frame,
                self@.filter == start.filter,
                self@.records == open_record(bytes.take(start.records.len() + i - 1)),
                texts(lines@) == lines_of(
                    complete_records(bytes.take(start.records.len() + i - 1)),
                    start.filter,
                ),
                lines@.len() == texts(lines@).len(),
                start.budget is None <==> self@.budget is None,
                start.budget is Some ==> start.budget->0 == self@.budget->0 + lines@.len()
                    && self@.budget->0 > 0,
            decreases frame@.len() - i,
        {
            let b = frame[i];
            let ghost seen = bytes.take(start.records.len() + i);
            proof {
                assert(seen.drop_last() == bytes.take(start.records.len() + i - 1));
                assert(seen.last() == b);
            }
            i += 1;
            if b != RECORD_TERMINATOR {
                self.records.push(b);
                continue;
            }
            let text = text_from_bytes(self.records.as_slice());
            let ghost record = self.records@;
            proof {
                let records = complete_records(seen);
                assert(records.last() == record);
                assert(records.drop_last() == complete_records(seen.drop_last()));
            }
            self.records.clear();
            let ghost printed = lines@;
            match line_for(text.as_str(), &self.filter) {
                Some(line) => {
                    lines.push(line);
                    assert(texts(lines@) == texts(printed).push(line@));
                    if let Some(budget) = self.budget {
                        self.budget = Some(budget - 1);
                        if budget == 1 {
                            self.phase = Phase::Finished;
                            proof {
                                lemma_lines_of_prefix(
                                    bytes,
                                    start.records.len() + i - 1,
                                    start.filter,
                                );
                            }
                            return lines;
                        }
                    }
                },
                None => {},
            }
        }
        proof {
            assert(bytes.take(start.records.len() + i - 1) == bytes);
            lemma_open_record_is_open(bytes);
        }
        lines
    }
}

/// The follower after a run of bulk reads on one connection, and all the lines that they
/// print. Nothing is read once the limit is reached.
pub open spec fn after_reads(v: FollowerView, reads: Seq<Seq<u8>>) -> (FollowerView, Seq<Seq<char>>)
    decreases reads.len(),
{
    if reads.len() == 0 {
        (v, Seq::empty())
    } else {
        let (before, lines) = after_reads(v, reads.drop_last());
        if before.phase == Phase::Finished {
            (before, lines)
        } else {
            let (now, more) = after_read(before, reads.last());
            (now, lines + more)
        }
    }
}

/// Where a frame's payload ends does not matter: two log frames print what one frame with
/// both payloads prints, and leave the follower in the same state.
pub proof fn law_frames_join(v: FollowerView, first: Seq<u8>, second: Seq<u8>)
    requires
        v.wf(),
        v.phase == Phase::Streaming,
    ensures
        ({
            let (mid, lines) = after_payload(v, first);
            if mid.phase == Phase::Finished {
                after_payload(v, first + second) == (mid, lines)
            } else {
                let (end, more) = after_payload(mid, second);
                after_payload(v, first + second) == (end, lines + more)
            }
        }),
{
    let bytes = v.records + first;
    let all = v.records + (first + second);
    assert(all == bytes + second);
    lemma_records_of_sum(bytes, second);
    lemma_lines_of_sum(
        complete_records(bytes),
        complete_records(open_record(bytes) + second),
        v.filter,
    );
    let lines = lines_of(complete_records(bytes), v.filter);
    let more = lines_of(complete_records(open_record(bytes) + second), v.filter);
    match v.budget {
        Some(budget) => {
            if lines.len() >= budget {
                assert((lines + more).take(budget as int) == lines.take(budget as int));
            } else if lines.len() + more.len() >= budget {
                assert((lines + more).take(budget as int) == lines + more.take(
                    budget - lines.len(),
                ));
            }
        },
        None => {},
    }
}

/// What a run of reads leaves of a frame that is not complete, where `frame` was left before it.
pub open spec fn open_frame(frame: Seq<u8>, reads: Seq<Seq<u8>>) -> Seq<u8>
    decreases reads.len(),
{
    if reads.len() == 0 {
        frame
    } else if reads.last().len() >= READ_CHUNK {
        open_frame(frame, reads.drop_last()) + reads.last()
    } else {
        Seq::empty()
    }
}

/// The frames that a run of reads completes: each ends with a read shorter than the read size.
pub open spec fn frames_of(frame: Seq<u8>, reads: Seq<Seq<u8>>) -> Seq<Seq<u8>>
    decreases reads.len(),
{
    if reads.len() == 0 {
        Seq::empty()
    } else if reads.last().len() >= READ_CHUNK {
        frames_of(frame, reads.drop_last())
    } else {
        frames_of(frame, reads.drop_last()).push(
            open_frame(frame, reads.drop_last()) + reads.last(),
        )
    }
}

/// What a frame adds to the log: the payload of a log frame, and nothing of another.
pub open spec fn log_part(frame: Seq<u8>) -> Seq<u8> {
    if frame.len() > 0 && frame[0] == FRAME_LOG {
        frame.skip(1)
    } else {
        Seq::empty()
    }
}

/// The log that frames carry: the payloads of the log frames, put end to end.
pub open spec fn log_of(frames: Seq<Seq<u8>>) -> Seq<u8>
    decreases frames.len(),
{
    if frames.len() == 0 {
        Seq::empty()
    } else {
        log_of(frames.drop_last()) + log_part(frames.last())
    }
}

/// No payload: nothing printed, nothing changed.
proof fn lemma_no_payload(v: FollowerView)
    requires
        v.wf(),
        v.phase == Phase::Streaming,
    ensures
        after_payload(v, Seq::empty()) == (v, Seq::<Seq<char>>::empty()),
{
    lemma_open_bytes(v.records);
    assert(v.records + Seq::<u8>::empty() =~= v.records);
    assert(after_payload(v, Seq::empty()).0 =~= v);
    assert(after_payload(v, Seq::empty()).1 =~= Seq::<Seq<char>>::empty());
}

/// The log comes out as it was written, over any run of reads: however it is cut into frames and
/// the frames into reads, and whatever frames of other types stand in between, the lines printed
/// are those of the log frames' payloads put end to end, in order, up to the limit.
pub proof fn law_whole_log(v: FollowerView, reads: Seq<Seq<u8>>)
    requires
        v.wf(),
        v.phase == Phase::Streaming,
    ensures
        ({
            let (end, lines) = after_payload(v, log_of(frames_of(v.frame, reads)));
            let (now, printed) = after_reads(v, reads);
            &&& printed == lines
            &&& now == (FollowerView {
                frame: if end.phase == Phase::Finished {
                    Seq::empty()
                } else {
                    open_frame(v.frame, reads)
                },
                ..end
            })
            &&& now.wf()
        }),
    decreases reads.len(),
{
    if reads.len() == 0 {
        lemma_no_payload(v);
    } else {
        let rest = reads.drop_last();
        let data = reads.last();
        law_whole_log(v, rest);
        let frames = frames_of(v.frame, rest);
        let (mid, _) = after_payload(v, log_of(frames));
        let (now, lines) = after_reads(v, rest);
        if data.len() < READ_CHUNK {
            let frame = open_frame(v.frame, rest) + data;
            let all = frames_of(v.frame, reads);
            assert(all.drop_last() =~= frames);
            assert(all.last() == frame);
            law_frames_join(v, log_of(frames), log_part(frame));
            lemma_open_record_is_open(v.records + log_of(all));
            if now.phase != Phase::Finished {
                let begun = FollowerView { frame: Seq::empty(), ..now };
                assert(begun =~= (FollowerView { frame: Seq::empty(), ..mid }));
                assert(mid.phase == Phase::Streaming);
                lemma_no_payload(begun);
                lemma_no_payload(mid);
                assert(after_frame(begun, frame) == after_payload(begun, log_part(frame)));
                assert(lines + after_read(now, data).1 =~= after_payload(v, log_of(all)).1);
            }
        } else if now.phase != Phase::Finished {
            assert(lines + Seq::<Seq<char>>::empty() =~= lines);
        }
    }
}

/// Where a bulk read ends does not matter either: a full read and a shorter one give the
/// follower the frame that both make up.
pub proof fn law_reads_join(v: FollowerView, full: Seq<u8>, last: Seq<u8>)
    requires
        full.len() >= READ_CHUNK,
        last.len() < READ_CHUNK,
    ensures
        after_read(v, full).1 == Seq::<Seq<char>>::empty(),
        after_read(after_read(v, full).0, last) == after_frame(
            FollowerView { frame: Seq::empty(), ..v },
            v.frame + full + last,
        ),
{
}

/// Only log frames carry records: a frame of another type, or an empty one, prints nothing
/// and changes nothing.
pub proof fn law_other_frames_ignored(v: FollowerView, frame: Seq<u8>)
    requires
        frame.len() == 0 || frame[0] != FRAME_LOG,
    ensures
        after_frame(v, frame) == (v, Seq::<Seq<char>>::empty()),
{
}

/// Every line of a list of records is a text that passes the filter.
proof fn lemma_lines_pass(records: Seq<Seq<u8>>, filter: Option<Seq<char>>)
    ensures
        forall|i: int|
            0 <= i < lines_of(records, filter).len() ==> {
                let line = #[trigger] lines_of(records, filter)[i];
                &&& line.len() > 0
                &&& filter is Some ==> crate::text::contains_text(line, filter->0)
            },
    decreases records.len(),
{
    if records.len() > 0 {
        lemma_lines_pass(records.drop_last(), filter);
        let before = lines_of(records.drop_last(), filter);
        assert forall|i: int| 0 <= i < lines_of(records, filter).len() implies {
            let line = #[trigger] lines_of(records, filter)[i];
            &&& line.len() > 0
            &&& filter is Some ==> crate::text::contains_text(line, filter->0)
        } by {
            if i < before.len() {
                assert(lines_of(records, filter)[i] == before[i]);
            }
        }
    }
}

/// No read prints an empty line, nor, with a filter, a line without the wanted text.
pub proof fn law_lines_pass_filter(v: FollowerView, data: Seq<u8>, i: int)
    requires
        0 <= i < after_read(v, data).1.len(),
    ensures
        after_read(v, data).1[i].len() > 0,
        v.filter is Some ==> crate::text::contains_text(after_read(v, data).1[i], v.filter->0),
{
    let frame = v.frame + data;
    let bytes = v.records + frame.skip(1);
    lemma_lines_pass(complete_records(bytes), v.filter);
    assert(after_read(v, data).1[i] == lines_of(complete_records(bytes), v.filter)[i]);
}

/// With a limit, a follower never prints more lines than the limit allows, and it is
/// finished exactly when it has printed them all.
pub proof fn law_limit(v: FollowerView, reads: Seq<Seq<u8>>)
    requires
        v.wf(),
        v.phase == Phase::Streaming,
        v.budget is Some,
    ensures
        ({
            let (end, lines) = after_reads(v, reads);
            &&& end.wf()
            &&& end.budget is Some
            &&& lines.len() + end.budget->0 == v.budget->0
            &&& lines.len() <= v.budget->0
            &&& (end.phase == Phase::Finished <==> lines.len() == v.budget->0)
            &&& (end.phase == Phase::Finished || end.phase == Phase::Streaming)
        }),
    decreases reads.len(),
{
    if reads.len() > 0 {
        law_limit(v, reads.drop_last());
        let (before, lines) = after_reads(v, reads.drop_last());
        if before.phase != Phase::Finished {
            let frame = before.frame + reads.last();
            let bytes = before.records + frame.skip(1);
            lemma_open_record_is_open(bytes);
        }
    }
}

/// What happens to a follower.
pub enum FollowEvent {
    /// The device has been opened.
    Connected,
    /// The device could not be opened.
    ConnectFailed,
    /// A bulk read has given these bytes.
    Read(Seq<u8>),
    /// The device went away.
    Lost,
}

/// The event is one that can happen to the follower: nothing happens once it is finished.
pub open spec fn may_happen(v: FollowerView, event: FollowEvent) -> bool {
    match event {
        FollowEvent::Connected => v.phase is Connecting,
        FollowEvent::ConnectFailed => v.phase is Connecting,
        FollowEvent::Read(_) => v.phase == Phase::Streaming,
        FollowEvent::Lost => v.phase == Phase::Streaming,
    }
}

/// The follower after an event, and the lines that it prints.
pub open spec fn after_event(v: FollowerView, event: FollowEvent) -> (FollowerView, Seq<Seq<char>>) {
    match event {
        FollowEvent::Connected => (after_connected(v), Seq::empty()),
        FollowEvent::ConnectFailed => (after_connect_failed(v), Seq::empty()),
        FollowEvent::Read(data) => after_read(v, data),
        FollowEvent::Lost => (after_lost(v), Seq::empty()),
    }
}

/// The follower after a run of events, over any number of connections, and all the lines that it
/// prints.
pub open spec fn after_run(v: FollowerView, events: Seq<FollowEvent>) -> (
    FollowerView,
    Seq<Seq<char>>,
)
    decreases events.len(),
{
    if events.len() == 0 {
        (v, Seq::empty())
    } else {
        let (before, lines) = after_run(v, events.drop_last());
        let (now, more) = after_event(before, events.last());
        (now, lines + more)
    }
}

/// Every event is one that can happen when it comes.
pub open spec fn may_run(v: FollowerView, events: Seq<FollowEvent>) -> bool
    decreases events.len(),
{
    events.len() > 0 ==> {
        let (before, _) = after_run(v, events.drop_last());
        &&& may_run(v, events.drop_last())
        &&& may_happen(before, events.last())
    }
}

/// The lines of what is read over one connection, taken by itself.
pub open spec fn connection_lines(reads: Seq<Seq<u8>>, filter: Option<Seq<char>>) -> Seq<Seq<char>> {
    lines_of(complete_records(log_of(frames_of(Seq::empty(), reads))), filter)
}

/// The reads of the last connection.
pub open spec fn last_reads(events: Seq<FollowEvent>) -> Seq<Seq<u8>>
    decreases events.len(),
{
    if events.len() == 0 {
        Seq::empty()
    } else {
        let before = last_reads(events.drop_last());
        match events.last() {
            FollowEvent::Connected => Seq::empty(),
            FollowEvent::Read(data) => before.push(data),
            _ => before,
        }
    }
}

/// The lines of the connections before the last, one after the other, each taken by itself.
pub open spec fn earlier_lines(events: Seq<FollowEvent>, filter: Option<Seq<char>>) -> Seq<Seq<char>>
    decreases events.len(),
{
    if events.len() == 0 {
        Seq::empty()
    } else {
        let before = events.drop_last();
        if events.last() is Connected {
            earlier_lines(before, filter) + connection_lines(last_reads(before), filter)
        } else {
            earlier_lines(before, filter)
        }
    }
}

/// The lines of all connections, one after the other, each taken by itself.
pub open spec fn lines_of_all(events: Seq<FollowEvent>, filter: Option<Seq<char>>) -> Seq<Seq<char>> {
    earlier_lines(events, filter) + connection_lines(last_reads(events), filter)
}

/// As many of the lines as the limit allows.
pub open spec fn up_to(limit: Option<usize>, lines: Seq<Seq<char>>) -> Seq<Seq<char>> {
    match limit {
        Some(n) => if lines.len() > n {
            lines.take(n as int)
        } else {
            lines
        },
        None => lines,
    }
}

/// One more read of a connection adds the lines that its log bytes complete.
proof fn lemma_one_more_read(reads: Seq<Seq<u8>>, data: Seq<u8>, filter: Option<Seq<char>>)
    ensures
        ({
            let frame = open_frame(Seq::empty(), reads);
            let log = log_of(frames_of(Seq::empty(), reads));
            let longer = log_of(frames_of(Seq::empty(), reads.push(data)));
            let part = if data.len() < READ_CHUNK {
                log_part(frame + data)
            } else {
                Seq::empty()
            };
            &&& longer == log + part
            &&& open_frame(Seq::empty(), reads.push(data)) == if data.len() < READ_CHUNK {
                Seq::empty()
            } else {
                frame + data
            }
            &&& open_record(longer) == open_record(open_record(log) + part)
            &&& connection_lines(reads.push(data), filter) == connection_lines(reads, filter)
                + lines_of(complete_records(open_record(log) + part), filter)
        }),
{
    let frame = open_frame(Seq::empty(), reads);
    let frames = frames_of(Seq::empty(), reads);
    let log = log_of(frames);
    let part = if data.len() < READ_CHUNK {
        log_part(frame + data)
    } else {
        Seq::empty()
    };
    let all = frames_of(Seq::empty(), reads.push(data));
    assert(reads.push(data).drop_last() =~= reads);
    if data.len() < READ_CHUNK {
        assert(all.drop_last() =~= frames);
    } else {
        assert(log + part =~= log);
    }
    lemma_records_of_sum(log, part);
    lemma_lines_of_sum(
        complete_records(log),
        complete_records(open_record(log) + part),
        filter,
    );
}

/// A read takes the follower to the lines that its log bytes complete, up to the limit.
proof fn lemma_read_payload(v: FollowerView, data: Seq<u8>)
    requires
        v.wf(),
        v.phase == Phase::Streaming,
    ensures
        ({
            let part = if data.len() < READ_CHUNK {
                log_part(v.frame + data)
            } else {
                Seq::empty()
            };
            let frame = if data.len() < READ_CHUNK {
                Seq::empty()
            } else {
                v.frame + data
            };
            after_read(v, data) == after_payload(FollowerView { frame, ..v }, part)
        }),
{
    lemma_no_payload(FollowerView { frame: Seq::empty(), ..v });
    lemma_no_payload(FollowerView { frame: v.frame + data, ..v });
}

/// The lines printed over any number of connections are those of each connection taken by itself,
/// one after the other, up to the limit: nothing that one connection left open shows in a line of
/// a later one. The follower is finished exactly where the limit is reached.
pub proof fn law_connections_are_separate(
    limit: Option<usize>,
    filter: Option<Seq<char>>,
    events: Seq<FollowEvent>,
)
    requires
        may_run(at_start(limit, filter), events),
    ensures
        ({
            let (now, lines) = after_run(at_start(limit, filter), events);
            let all = lines_of_all(events, filter);
            &&& lines == up_to(limit, all)
            &&& (now.phase == Phase::Finished <==> limit is Some && all.len() >= limit->0)
            &&& now.wf()
        }),
{
    lemma_connections(limit, filter, events);
}

/// What a follower holds after a run, beside what it has printed.
proof fn lemma_connections(limit: Option<usize>, filter: Option<Seq<char>>, events: Seq<FollowEvent>)
    requires
        may_run(at_start(limit, filter), events),
    ensures
        ({
            let (now, lines) = after_run(at_start(limit, filter), events);
            let all = lines_of_all(events, filter);
            let log = log_of(frames_of(Seq::empty(), last_reads(events)));
            &&& now.wf()
            &&& now.filter == filter
            &&& lines == up_to(limit, all)
            &&& limit is None <==> now.budget is None
            &&& limit is Some ==> lines.len() + now.budget->0 == limit->0
            &&& (now.phase == Phase::Finished <==> limit is Some && all.len() >= limit->0)
            &&& now.phase == Phase::Streaming ==> now.records == open_record(log)
            &&& now.phase == Phase::Streaming ==> now.frame == open_frame(
                Seq::empty(),
                last_reads(events),
            )
        }),
    decreases events.len(),
{
    let start = at_start(limit, filter);
    let empty = Seq::<Seq<u8>>::empty();
    assert(connection_lines(empty, filter) =~= Seq::<Seq<char>>::empty());
    if events.len() == 0 {
        assert(lines_of_all(events, filter) =~= Seq::<Seq<char>>::empty());
    } else {
        let rest = events.drop_last();
        lemma_connections(limit, filter, rest);
        let (before, lines) = after_run(start, rest);
        let reads = last_reads(rest);
        let all = lines_of_all(rest, filter);
        match events.last() {
            FollowEvent::Read(data) => {
                lemma_one_more_read(reads, data, filter);
                lemma_read_payload(before, data);
                let part = if data.len() < READ_CHUNK {
                    log_part(before.frame + data)
                } else {
                    Seq::empty()
                };
                let bytes = before.records + part;
                let more = lines_of(complete_records(bytes), filter);
                lemma_open_record_is_open(bytes);
                assert(lines_of_all(events, filter) =~= all + more);
                assert(lines == all);
                match limit {
                    Some(n) => {
                        let budget = before.budget->0;
                        if more.len() >= budget {
                            assert(lines + more.take(budget as int) =~= (all + more).take(
                                n as int,
                            ));
                        }
                    },
                    None => {},
                }
            },
            FollowEvent::Connected => {
                assert(lines_of_all(events, filter) =~= all);
                assert(lines + Seq::<Seq<char>>::empty() =~= lines);
            },
            _ => {
                assert(lines + Seq::<Seq<char>>::empty() =~= lines);
            },
        }
    }
}

/// With a limit, all the lines printed over any number of connections are never more than it, and
/// the follower is finished exactly when it has printed them all.
pub proof fn law_limit_over_connections(
    limit: usize,
    filter: Option<Seq<char>>,
    events: Seq<FollowEvent>,
)
    requires
        may_run(at_start(Some(limit), filter), events),
    ensures
        after_run(at_start(Some(limit), filter), events).1.len() <= limit,
        after_run(at_start(Some(limit), filter), events).0.phase == Phase::Finished <==> after_run(
            at_start(Some(limit), filter),
            events,
        ).1.len() == limit,
{
    law_connections_are_separate(Some(limit), filter, events);
}

/// An endpoint, as far as the search for the log's endpoint reads it.
pub struct DebugEndpoint {
    pub address: u8,
    pub transfer_type: TransferType,
    /// The endpoint sends to the host.
    pub inbound: bool,
}

/// An interface setting, as far as the search for the log's endpoint reads it.
pub struct DebugInterface {
    pub number: u8,
    pub class: u8,
    pub endpoints: Vec<DebugEndpoint>,
}

/// Endpoint `e` of setting `i` is a bulk-in endpoint of a vendor-specific interface.
pub open spec fn is_log_endpoint(settings: Seq<DebugInterface>, i: int, e: int) -> bool {
    &&& 0 <= i < settings.len()
    &&& 0 <= e < settings[i].endpoints@.len()
    &&& settings[i].class == DEBUG_CLASS
    &&& settings[i].endpoints@[e].transfer_type == TransferType::Bulk
    &&& settings[i].endpoints@[e].inbound
}

/// Endpoint `e2` of setting `i2` comes after endpoint `e` of setting `i`.
pub open spec fn comes_after(i: int, e: int, i2: int, e2: int) -> bool {
    i2 > i || (i2 == i && e2 > e)
}

/// Interface number and endpoint address of the device's log: the last bulk-in endpoint of
/// a vendor-specific interface.
pub fn find_log_endpoint(settings: &Vec<DebugInterface>) -> (found: Option<(u8, u8)>)
    ensures
        match found {
            Some((number, address)) => exists|i: int, e: int|
                {
                    &&& #[trigger] is_log_endpoint(settings@, i, e)
                    &&& settings@[i].number == number
                    &&& settings@[i].endpoints@[e].address == address
                    &&& forall|i2: int, e2: int|
                        comes_after(i, e, i2, e2) ==> !#[trigger] is_log_endpoint(
                            settings@,
                            i2,
                            e2,
                        )
                },
            None => forall|i: int, e: int| !is_log_endpoint(settings@, i, e),
        },
{
    let mut i: usize = settings.len();
    while i > 0
        invariant
            i <= settings@.len(),
            forall|i2: int, e2: int| i2 >= i ==> !is_log_endpoint(settings@, i2, e2),
        decreases i,
    {
        i -= 1;
        let setting = &settings[i];
        if setting.class != DEBUG_CLASS {
            continue;
        }
        let mut e: usize = setting.endpoints.len();
        while e > 0
            invariant
                i < settings@.len(),
                setting == settings@[i as int],
                setting.class == DEBUG_CLASS,
                e <= setting.endpoints@.len(),
                forall|i2: int, e2: int|
                    i2 > i || (i2 == i && e2 >= e) ==> !is_log_endpoint(settings@, i2, e2),
            decreases e,
        {
            e -= 1;
            let endpoint = &setting.endpoints[e];
            if endpoint.transfer_type == TransferType::Bulk && endpoint.inbound {
                assert(is_log_endpoint(settings@, i as int, e as int));
                return Some((setting.number, endpoint.address));
            }
        }
    }
    None
}

/// Records end at the byte 1E: bytes without it are all one open record; where it comes, what
/// stands in front of it is a record, and the rest is read as if it stood alone.
pub proof fn law_records(record: Seq<u8>, rest: Seq<u8>)
    requires
        !record.contains(0x1eu8),
    ensures
        complete_records(record) == Seq::<Seq<u8>>::empty(),
        open_record(record) == record,
        complete_records(record + seq![0x1eu8] + rest) == seq![record] + complete_records(rest),
        open_record(record + seq![0x1eu8] + rest) == open_record(rest),
{
    lemma_open_bytes(record);
    let ended = record + seq![0x1eu8];
    assert(ended.drop_last() =~= record);
    assert(complete_records(ended) =~= seq![record]);
    lemma_records_of_sum(ended, rest);
    assert(open_record(ended) + rest =~= rest);
}

/// A record's text is printed whole but for its line end, or passed over for a reason. Where the
/// text is a body and a tail of carriage returns and line feeds, the body not ending in one, the
/// line is the body, unless that is empty or, with a filter, does not contain the wanted text.
pub proof fn law_line(body: Seq<char>, tail: Seq<char>, want: Seq<char>)
    requires
        body.len() > 0 ==> body.last() != '\r' && body.last() != '\n',
        forall|i: int| 0 <= i < tail.len() ==> #[trigger] tail[i] == '\r' || tail[i] == '\n',
    ensures
        body.len() == 0 ==> line_of_text(body + tail, None) is None,
        body.len() == 0 ==> line_of_text(body + tail, Some(want)) is None,
        body.len() > 0 ==> line_of_text(body + tail, None) == Some(body),
        body.len() > 0 && (exists|before: Seq<char>, after: Seq<char>|
            body == #[trigger] (before + want + after)) ==> line_of_text(body + tail, Some(want))
            == Some(body),
        body.len() > 0 && !(exists|before: Seq<char>, after: Seq<char>|
            body == #[trigger] (before + want + after)) ==> line_of_text(
            body + tail,
            Some(want),
        ) is None,
{
    let text = body + tail;
    let out = crate::text::without_line_end(text);
    crate::text::law_line_end(text);
    crate::text::law_contains(body, want);
    if out.len() < body.len() {
        let i = body.len() - 1;
        assert(text[i] == body[i]);
        assert(text[i] == '\r' || text[i] == '\n');
    }
    if out.len() > body.len() {
        let i = out.len() - 1;
        assert(out[i] == text[i]);
        assert(text[i] == tail[i - body.len()]);
    }
    assert(out =~= body);
}

/// No line is given for a text exactly where all its characters are carriage returns and line
/// feeds, or there is a filter that the text without those at its end does not contain. Else the
/// line is the start of the text, up to the last character that is neither.
pub proof fn law_passed_over(text: Seq<char>, filter: Option<Seq<char>>)
    ensures
        ({
            let blank = forall|i: int|
                0 <= i < text.len() ==> #[trigger] text[i] == '\r' || text[i] == '\n';
            let body = crate::text::without_line_end(text);
            let line = line_of_text(text, filter);
            &&& (line is None <==> blank || (filter is Some && !crate::text::contains_text(
                body,
                filter->0,
            )))
            &&& line is Some ==> {
                let n = line->0.len();
                &&& 0 < n <= text.len()
                &&& line->0 == text.take(n as int)
                &&& text[n - 1] != '\r'
                &&& text[n - 1] != '\n'
                &&& forall|i: int|
                    n <= i < text.len() ==> #[trigger] text[i] == '\r' || text[i] == '\n'
            }
        }),
{
    crate::text::law_line_end(text);
    let body = crate::text::without_line_end(text);
    if body.len() > 0 {
        let i = body.len() - 1;
        assert(text[i] == body[i]);
    }
}

/// The lines of records: none for no records; for one record that of its text, if there is one;
/// for two lists those of the first, then those of the second.
pub proof fn law_lines(first: Seq<Seq<u8>>, second: Seq<Seq<u8>>, record: Seq<u8>, filter: Option<Seq<char>>)
    ensures
        lines_of(Seq::empty(), filter) == Seq::<Seq<char>>::empty(),
        line_of_text(crate::text::lossy_text(record), filter) matches Some(line) ==> lines_of(
            seq![record],
            filter,
        ) == seq![line],
        line_of_text(crate::text::lossy_text(record), filter) is None ==> lines_of(
            seq![record],
            filter,
        ) == Seq::<Seq<char>>::empty(),
        lines_of(first + second, filter) == lines_of(first, filter) + lines_of(second, filter),
{
    lemma_lines_of_sum(first, second, filter);
    let one = seq![record];
    assert(one.drop_last() =~= Seq::<Seq<u8>>::empty());
    assert(one.last() == record);
    assert(lines_of(one.drop_last(), filter) =~= Seq::<Seq<char>>::empty());
    match line_of_text(crate::text::lossy_text(record), filter) {
        Some(line) => {
            assert(lines_of(one, filter) =~= seq![line]);
        },
        None => {},
    }
}

/// A read of 65536 bytes or more is kept and prints nothing: its frame goes on.
pub proof fn law_full_read(v: FollowerView, data: Seq<u8>)
    requires
        data.len() >= 65536,
    ensures
        ({
            let (now, lines) = after_read(v, data);
            &&& lines.len() == 0
            &&& now.frame == v.frame + data
            &&& now.records == v.records
            &&& now.phase == v.phase
            &&& now.budget == v.budget
            &&& now.filter == v.filter
        }),
{
}

/// A shorter read ends its frame. A frame that does not start with the byte 01, or is empty, is
/// dropped; one that does adds what follows to the log, and where that ends no record nothing is
/// printed.
pub proof fn law_short_read(v: FollowerView, data: Seq<u8>, part: Seq<u8>)
    requires
        v.wf(),
        v.phase == Phase::Streaming,
        data.len() < 65536,
    ensures
        v.frame + data == Seq::<u8>::empty() || (v.frame + data)[0] != 0x01 ==> after_read(v, data)
            == (FollowerView { frame: Seq::empty(), ..v }, Seq::<Seq<char>>::empty()),
        v.frame + data == seq![0x01u8] + part && !part.contains(0x1eu8) ==> after_read(v, data)
            == (
            FollowerView { frame: Seq::empty(), records: v.records + part, ..v },
            Seq::<Seq<char>>::empty(),
        ),
{
    let whole = v.frame + data;
    if whole == seq![0x01u8] + part && !part.contains(0x1eu8) {
        assert(whole.skip(1) =~= part);
        let bytes = v.records + part;
        if bytes.contains(0x1eu8) {
            let i = choose|i: int| 0 <= i < bytes.len() && bytes[i] == 0x1eu8;
            if i < v.records.len() {
                assert(v.records[i] == 0x1eu8);
            } else {
                assert(part[i - v.records.len()] == 0x1eu8);
            }
        }
        lemma_open_bytes(bytes);
        assert(lines_of(complete_records(bytes), v.filter) =~= Seq::<Seq<char>>::empty());
        assert(after_read(v, data).0 =~= (FollowerView {
            frame: Seq::empty(),
            records: bytes,
            ..v
        }));
    }
}

/// Where a log frame ends a record, that record is what was open and the bytes up to the first
/// 1E. Its line, if there is one, is printed first, and counts against the limit: with the last
/// line that may be printed the follower is finished, and else the frame goes on behind the 1E as
/// if it started there.
pub proof fn law_record_read(v: FollowerView, data: Seq<u8>, part: Seq<u8>, rest: Seq<u8>)
    requires
        v.wf(),
        v.phase == Phase::Streaming,
        data.len() < 65536,
        v.frame + data == seq![0x01u8] + part + seq![0x1eu8] + rest,
        !part.contains(0x1eu8),
    ensures
        ({
            let goes_on = FollowerView {
                frame: seq![0x01u8] + rest,
                records: Seq::empty(),
                ..v
            };
            match line_of_text(crate::text::lossy_text(v.records + part), v.filter) {
                None => after_read(v, data) == after_read(goes_on, Seq::empty()),
                Some(line) => match v.budget {
                    None => {
                        let (end, more) = after_read(goes_on, Seq::empty());
                        after_read(v, data) == (end, seq![line] + more)
                    },
                    Some(left) => if left == 1 {
                        after_read(v, data) == (
                            FollowerView {
                                phase: Phase::Finished,
                                frame: Seq::empty(),
                                records: Seq::empty(),
                                budget: Some(0),
                                filter: v.filter,
                            },
                            seq![line],
                        )
                    } else {
                        let (end, more) = after_read(
                            FollowerView { budget: Some((left - 1) as nat), ..goes_on },
                            Seq::empty(),
                        );
                        after_read(v, data) == (end, seq![line] + more)
                    },
                },
            }
        }),
{
    let whole = v.frame + data;
    let record = v.records + part;
    let payload = part + seq![0x1eu8] + rest;
    assert(whole.skip(1) =~= payload);
    assert(whole[0] == 0x01);
    let bytes = v.records + payload;
    assert(bytes =~= record + seq![0x1eu8] + rest);
    if record.contains(0x1eu8) {
        let i = choose|i: int| 0 <= i < record.len() && record[i] == 0x1eu8;
        if i < v.records.len() {
            assert(v.records[i] == 0x1eu8);
        } else {
            assert(part[i - v.records.len()] == 0x1eu8);
        }
    }
    law_records(record, rest);
    law_lines(seq![record], complete_records(rest), record, v.filter);
    let all = lines_of(complete_records(bytes), v.filter);
    let later = lines_of(complete_records(rest), v.filter);
    let begun = FollowerView { frame: Seq::empty(), ..v };
    assert(after_read(v, data) == after_payload(begun, payload));
    let goes_on = FollowerView { frame: seq![0x01u8] + rest, records: Seq::empty(), ..v };
    let restart = goes_on.frame + Seq::<u8>::empty();
    assert(restart =~= seq![0x01u8] + rest);
    assert(restart.skip(1) =~= rest);
    assert(Seq::<u8>::empty() + rest =~= rest);
    let cleared = FollowerView { frame: Seq::empty(), records: Seq::empty(), ..v };
    assert(after_read(goes_on, Seq::empty()) == after_payload(cleared, rest));
    match line_of_text(crate::text::lossy_text(record), v.filter) {
        None => {
            assert(all =~= later);
        },
        Some(line) => {
            assert(all == seq![line] + later);
            match v.budget {
                None => {},
                Some(left) => {
                    let less = FollowerView { budget: Some((left - 1) as nat), ..goes_on };
                    assert(after_read(less, Seq::empty()) == after_payload(
                        FollowerView { budget: Some((left - 1) as nat), ..cleared },
                        rest,
                    ));
                    if all.len() >= left {
                        assert(all.take(left as int) =~= seq![line] + later.take(left - 1));
                        if left == 1 {
                            assert(all.take(1) =~= seq![line]);
                        }
                    }
                },
            }
        },
    }
}

/// A follower starts with nothing read. With a limit of zero it is finished; else it looks for
/// the device, unannounced, and may print as many lines as the limit says.
pub proof fn law_start(limit: usize, filter: Option<Seq<char>>)
    ensures
        at_start(None, filter).phase == (Phase::Connecting { notified: false }),
        at_start(None, filter).budget is None,
        at_start(Some(0), filter).phase == Phase::Finished,
        limit > 0 ==> at_start(Some(limit), filter).phase == (Phase::Connecting {
            notified: false,
        }),
        at_start(Some(limit), filter).budget == Some(limit as nat),
        at_start(Some(limit), filter).filter == filter && at_start(None, filter).filter == filter,
        at_start(Some(limit), filter).records.len() == 0 && at_start(None, filter).records.len()
            == 0,
        at_start(Some(limit), filter).frame.len() == 0 && at_start(None, filter).frame.len() == 0,
{
}

/// Connecting, or failing to, changes neither the limit nor the filter. A connection starts with
/// nothing read; a loss is announced anew, a failed attempt only once.
pub proof fn law_connecting(v: FollowerView)
    ensures
        after_connected(v).phase == Phase::Streaming,
        after_connected(v).records.len() == 0 && after_connected(v).frame.len() == 0,
        after_connected(v).budget == v.budget && after_connected(v).filter == v.filter,
        after_connect_failed(v).phase == (Phase::Connecting { notified: true }),
        after_connect_failed(v).budget == v.budget && after_connect_failed(v).filter == v.filter,
        after_lost(v).phase == (Phase::Connecting { notified: false }),
        after_lost(v).budget == v.budget && after_lost(v).filter == v.filter,
{
}

/// The texts of strings are what they hold, each in its place.
pub proof fn law_texts(lines: Seq<String>, i: int, line: String)
    ensures
        texts(lines).len() == lines.len(),
        0 <= i < lines.len() ==> texts(lines)[i] == lines[i]@,
        text_option(Some(line)) == Some(line@),
        text_option(None) is None,
{
}

/// The log's endpoint sends to the host in bulk, on an interface of class FF; among several the
/// last counts, by setting first and then by place in it.
pub proof fn law_log_endpoint(settings: Seq<DebugInterface>, i: int, e: int, i2: int, e2: int)
    ensures
        is_log_endpoint(settings, i, e) ==> 0 <= i < settings.len() && 0 <= e
            < settings[i].endpoints@.len() && settings[i].class == 0xff
            && settings[i].endpoints@[e].transfer_type == TransferType::Bulk
            && settings[i].endpoints@[e].inbound,
        0 <= i < settings.len() && 0 <= e < settings[i].endpoints@.len() && settings[i].class
            == 0xff && settings[i].endpoints@[e].transfer_type == TransferType::Bulk
            && settings[i].endpoints@[e].inbound ==> is_log_endpoint(settings, i, e),
        i2 > i ==> comes_after(i, e, i2, e2),
        i2 == i && e2 > e ==> comes_after(i, e, i2, e2),
        comes_after(i, e, i2, e2) ==> !comes_after(i2, e2, i, e),
        !comes_after(i, e, i, e),
{
}

/// A read asks for 64 KiB and waits a fifth of a second; the device is looked for twice a second.
pub proof fn law_log_limits()
    ensures
        READ_CHUNK == 64 * 1024,
        READ_TIMEOUT_MS == 200,
        RETRY_DELAY_MS == 500,
{
}

} // verus!
