//! Sending benchmark bytes to the device that asks for them.
//!
//! A subscription is a run of chunks and a close. A download has a header with the hash of
//! the bytes, and sends them as one part: the part is opened before the chunks and closed
//! after them. The first step that fails ends the transfer.

use crate::backend::benchmark;
use crate::backend::benchmark::ChunkCursor;
use vstd::prelude::*;

verus! {

/// How the bytes are sent.
#[derive(Clone, Copy, Debug, PartialEq, Eq, Structural)]
pub enum Kind {
    Subscription,
    Download,
}

/// How a transfer ended.
#[derive(Clone, Copy, Debug, PartialEq, Eq, Structural)]
pub enum TransferEnd {
    Complete,
    /// The header could not be sent.
    HeaderFailed,
    /// The part could not be opened.
    StartPartFailed,
    /// A chunk could not be sent, after this many bytes.
    BodyFailed { sent: usize },
    /// The part could not be closed.
    FinishPartFailed,
    /// The transfer could not be closed.
    FinishFailed,
}

/// The steps of a transfer.
#[derive(Clone, Copy, Debug, PartialEq, Eq, Structural)]
pub enum Step {
    Header,
    StartPart,
    /// Sending the next chunk.
    Body,
    FinishPart,
    Finish,
    Over(TransferEnd),
}

/// A transfer, and how far it has come.
#[derive(Clone, Copy, Debug, PartialEq, Eq, Structural)]
pub struct Transfer {
    pub kind: Kind,
    pub step: Step,
    pub cursor: ChunkCursor,
}

impl Transfer {
    /// What follows the last chunk.
    pub open spec fn closing(kind: Kind) -> Step {
        match kind {
            Kind::Subscription => Step::Finish,
            Kind::Download => Step::FinishPart,
        }
    }

    /// The step that the chunks ask for: one more chunk, or the closing.
    pub open spec fn body_step(kind: Kind, cursor: ChunkCursor) -> Step {
        if cursor.remaining > 0 {
            Step::Body
        } else {
            Transfer::closing(kind)
        }
    }

    /// A transfer at its start.
    pub open spec fn start(kind: Kind, total: usize) -> Transfer {
        let cursor = ChunkCursor { total, remaining: total };
        Transfer {
            kind,
            step: match kind {
                Kind::Subscription => Transfer::body_step(kind, cursor),
                Kind::Download => Step::Header,
            },
            cursor,
        }
    }

    /// Nothing is sent before the part is open, all is sent before it is closed, and only a
    /// download has a header and a part.
    pub open spec fn wf(self) -> bool {
        &&& self.cursor.wf()
        &&& match self.step {
            Step::Header => self.kind == Kind::Download && self.cursor.sent() == 0,
            Step::StartPart => self.kind == Kind::Download && self.cursor.sent() == 0,
            Step::Body => self.cursor.remaining > 0,
            Step::FinishPart => self.kind == Kind::Download && self.cursor.remaining == 0,
            Step::Finish => self.cursor.remaining == 0,
            Step::Over(TransferEnd::Complete) => self.cursor.remaining == 0,
            Step::Over(_) => true,
        }
    }

    /// The transfer after its step succeeded.
    pub open spec fn after_success(self) -> Transfer {
        match self.step {
            Step::Header => Transfer { step: Step::StartPart, ..self },
            Step::StartPart => Transfer {
                step: Transfer::body_step(self.kind, self.cursor),
                ..self
            },
            Step::Body => {
                let cursor = self.cursor.after_chunk();
                Transfer { step: Transfer::body_step(self.kind, cursor), cursor, ..self }
            },
            Step::FinishPart => Transfer { step: Step::Finish, ..self },
            Step::Finish => Transfer { step: Step::Over(TransferEnd::Complete), ..self },
            Step::Over(_) => self,
        }
    }

    /// How the transfer ends where its step fails.
    pub open spec fn failure(self) -> TransferEnd {
        match self.step {
            Step::Header => TransferEnd::HeaderFailed,
            Step::StartPart => TransferEnd::StartPartFailed,
            Step::Body => TransferEnd::BodyFailed { sent: self.cursor.sent() as usize },
            Step::FinishPart => TransferEnd::FinishPartFailed,
            Step::Finish => TransferEnd::FinishFailed,
            Step::Over(end) => end,
        }
    }

    /// The transfer after its step.
    pub open spec fn after(self, succeeded: bool) -> Transfer {
        if succeeded {
            self.after_success()
        } else {
            Transfer { step: Step::Over(self.failure()), ..self }
        }
    }

    /// A transfer of `total` bytes at its start.
    pub fn new(kind: Kind, total: usize) -> (transfer: Transfer)
        ensures
            transfer == Transfer::start(kind, total),
            transfer.wf(),
    {
        let cursor = ChunkCursor::new(total);
        let step = match kind {
            Kind::Subscription => Transfer::next_step(kind, cursor),
            Kind::Download => Step::Header,
        };
        Transfer { kind, step, cursor }
    }

    /// The step that the chunks ask for.
    fn next_step(kind: Kind, cursor: ChunkCursor) -> (step: Step)
        ensures
            step == Transfer::body_step(kind, cursor),
    {
        if cursor.remaining > 0 {
            Step::Body
        } else {
            match kind {
                Kind::Subscription => Step::Finish,
                Kind::Download => Step::FinishPart,
            }
        }
    }

    /// The step at hand has succeeded, or it has not.
    pub fn advance(&mut self, succeeded: bool)
        requires
            old(self).wf(),
            !(old(self).step is Over),
        ensures
            *final(self) == old(self).after(succeeded),
            final(self).wf(),
    {
        let next = match self.step {
            Step::Header => if succeeded {
                Step::StartPart
            } else {
                Step::Over(TransferEnd::HeaderFailed)
            },
            Step::StartPart => if succeeded {
                Transfer::next_step(self.kind, self.cursor)
            } else {
                Step::Over(TransferEnd::StartPartFailed)
            },
            Step::Body => if succeeded {
                self.cursor.advance();
                Transfer::next_step(self.kind, self.cursor)
            } else {
                Step::Over(TransferEnd::BodyFailed { sent: self.cursor.offset() })
            },
            Step::FinishPart => if succeeded {
                Step::Finish
            } else {
                Step::Over(TransferEnd::FinishPartFailed)
            },
            Step::Finish => if succeeded {
                Step::Over(TransferEnd::Complete)
            } else {
                Step::Over(TransferEnd::FinishFailed)
            },
            Step::Over(end) => Step::Over(end),
        };
        self.step = next;
    }
}

/// A transfer after a run of steps. Nothing is done once it is over.
pub open spec fn after_steps(transfer: Transfer, steps: Seq<bool>) -> Transfer
    decreases steps.len(),
{
    if steps.len() == 0 {
        transfer
    } else {
        let before = after_steps(transfer, steps.drop_last());
        if before.step is Over {
            before
        } else {
            before.after(steps.last())
        }
    }
}

/// The chunk that a transfer sends in its step, if it sends one.
pub open spec fn chunk_at(transfer: Transfer, payload: Seq<u8>) -> Seq<u8> {
    if transfer.step == Step::Body {
        payload.subrange(
            transfer.cursor.sent() as int,
            (transfer.cursor.sent() + benchmark::chunk_len(transfer.cursor.remaining as nat)) as int,
        )
    } else {
        Seq::empty()
    }
}

/// All that has arrived after a run of steps: the chunks that could be sent, put end to end.
pub open spec fn arrived(transfer: Transfer, payload: Seq<u8>, steps: Seq<bool>) -> Seq<u8>
    decreases steps.len(),
{
    if steps.len() == 0 {
        Seq::empty()
    } else {
        let before = after_steps(transfer, steps.drop_last());
        let so_far = arrived(transfer, payload, steps.drop_last());
        if steps.last() {
            so_far + chunk_at(before, payload)
        } else {
            so_far
        }
    }
}

/// What has arrived is always a start of the payload, as long as the transfer counts; and
/// a transfer that ends as complete has delivered every byte.
pub proof fn law_transfer_delivers(kind: Kind, payload: Seq<u8>, steps: Seq<bool>)
    requires
        payload.len() <= usize::MAX,
    ensures
        ({
            let now = after_steps(Transfer::start(kind, payload.len() as usize), steps);
            let got = arrived(Transfer::start(kind, payload.len() as usize), payload, steps);
            &&& now.wf()
            &&& now.kind == kind
            &&& now.cursor.total == payload.len()
            &&& got == payload.take(now.cursor.sent() as int)
            &&& now.step == Step::Over(TransferEnd::Complete) ==> got == payload
            &&& now.step matches Step::Over(TransferEnd::BodyFailed { sent }) ==> got
                == payload.take(sent as int) && sent < payload.len()
        }),
    decreases steps.len(),
{
    let start = Transfer::start(kind, payload.len() as usize);
    let got = arrived(start, payload, steps);
    let now = after_steps(start, steps);
    if steps.len() == 0 {
        assert(payload.take(0) =~= Seq::<u8>::empty());
    } else {
        law_transfer_delivers(kind, payload, steps.drop_last());
        let before = after_steps(start, steps.drop_last());
        if before.step == Step::Body && steps.last() {
            assert(payload.take(before.cursor.sent() as int) + chunk_at(before, payload)
                =~= payload.take(now.cursor.sent() as int));
        } else {
            assert(got =~= payload.take(now.cursor.sent() as int));
        }
    }
    assert(payload.take(payload.len() as int) =~= payload);
}

/// How many chunks so many bytes are sent in.
pub open spec fn chunk_count(len: nat) -> nat {
    (len + benchmark::BENCHMARK_CHUNK_LEN - 1) as nat / benchmark::BENCHMARK_CHUNK_LEN as nat
}

/// How many steps a transfer takes that never fails: one for each chunk and one to close; for a
/// download also the header, the opening and the closing of the part.
pub open spec fn step_count(kind: Kind, len: nat) -> nat {
    chunk_count(len) + match kind {
        Kind::Subscription => 1nat,
        Kind::Download => 4nat,
    }
}

/// So many steps that succeed.
pub open spec fn successes(n: nat) -> Seq<bool> {
    Seq::new(n, |i: int| true)
}

/// How many more steps a transfer takes that does not fail.
spec fn steps_left(transfer: Transfer) -> nat {
    let chunks = chunk_count(transfer.cursor.remaining as nat);
    let closing: nat = match transfer.kind {
        Kind::Subscription => 1,
        Kind::Download => 2,
    };
    match transfer.step {
        Step::Header => 2 + chunks + closing,
        Step::StartPart => 1 + chunks + closing,
        Step::Body => chunks + closing,
        Step::FinishPart => 2,
        Step::Finish => 1,
        Step::Over(_) => 0,
    }
}

/// A step that succeeds is one step less to take.
proof fn lemma_step_taken(transfer: Transfer)
    requires
        transfer.wf(),
        !(transfer.step is Over),
    ensures
        transfer.after(true).wf(),
        steps_left(transfer) == steps_left(transfer.after(true)) + 1,
        transfer.after(true).step is Over ==> transfer.after(true).step == Step::Over(
            TransferEnd::Complete,
        ),
{
}

/// A transfer that has not failed has so many steps left as it has not taken.
proof fn lemma_steps_taken(kind: Kind, total: usize, n: nat)
    requires
        n <= step_count(kind, total as nat),
    ensures
        ({
            let now = after_steps(Transfer::start(kind, total), successes(n));
            &&& now.wf()
            &&& steps_left(now) + n == step_count(kind, total as nat)
            &&& now.step is Over ==> now.step == Step::Over(TransferEnd::Complete)
        }),
    decreases n,
{
    if n > 0 {
        let before = (n - 1) as nat;
        lemma_steps_taken(kind, total, before);
        assert(successes(n).drop_last() =~= successes(before));
        lemma_step_taken(after_steps(Transfer::start(kind, total), successes(before)));
    }
}

/// A transfer whose every step succeeds comes to its end: after one step for each chunk and those
/// around them, and not before, it is complete.
pub proof fn law_transfer_completes(kind: Kind, total: usize, n: nat)
    requires
        n <= step_count(kind, total as nat),
    ensures
        after_steps(Transfer::start(kind, total), successes(n)).step == Step::Over(
            TransferEnd::Complete,
        ) <==> n == step_count(kind, total as nat),
        n < step_count(kind, total as nat) ==> !(after_steps(
            Transfer::start(kind, total),
            successes(n),
        ).step is Over),
{
    lemma_steps_taken(kind, total, n);
}

/// The count of chunks is that of the chunks a payload is cut into.
pub proof fn law_chunk_count(payload: Seq<u8>)
    ensures
        benchmark::chunks_of(payload).len() == chunk_count(payload.len()),
    decreases payload.len(),
{
    if payload.len() > 0 {
        law_chunk_count(payload.skip(benchmark::chunk_len(payload.len()) as int));
    }
}

/// A step that fails ends a transfer for good: it never completes.
pub proof fn law_failure_is_final(kind: Kind, total: usize, steps: Seq<bool>)
    ensures
        after_steps(Transfer::start(kind, total), steps).step == Step::Over(TransferEnd::Complete)
            ==> steps.len() >= step_count(kind, total as nat) && (forall|i: int|
            0 <= i < step_count(kind, total as nat) ==> #[trigger] steps[i]),
    decreases steps.len(),
{
    let n = step_count(kind, total as nat);
    let start = Transfer::start(kind, total);
    if steps.len() > 0 {
        let rest = steps.drop_last();
        law_failure_is_final(kind, total, rest);
        let before = after_steps(start, rest);
        if after_steps(start, steps).step == Step::Over(TransferEnd::Complete) {
            if before.step is Over {
                assert forall|i: int| 0 <= i < n implies #[trigger] steps[i] by {
                    assert(rest[i]);
                }
            } else {
                lemma_running_has_succeeded(kind, total, rest);
                assert(rest =~= successes(rest.len()));
                if rest.len() < n {
                    lemma_steps_taken(kind, total, rest.len());
                } else {
                    assert(rest.take(n as int) =~= successes(n));
                    lemma_steps_taken(kind, total, n);
                    lemma_over_stays(start, rest, n as int);
                }
                assert forall|i: int| 0 <= i < n implies #[trigger] steps[i] by {
                    if i < rest.len() {
                        assert(rest[i]);
                    }
                }
            }
        }
    }
}

/// A transfer that is not over has taken only steps that succeeded.
proof fn lemma_running_has_succeeded(kind: Kind, total: usize, steps: Seq<bool>)
    requires
        !(after_steps(Transfer::start(kind, total), steps).step is Over),
    ensures
        forall|i: int| 0 <= i < steps.len() ==> #[trigger] steps[i],
    decreases steps.len(),
{
    if steps.len() > 0 {
        let rest = steps.drop_last();
        lemma_running_has_succeeded(kind, total, rest);
        assert forall|i: int| 0 <= i < steps.len() implies #[trigger] steps[i] by {
            if i < rest.len() {
                assert(rest[i]);
            }
        }
    }
}

/// A transfer that is over stays over.
proof fn lemma_over_stays(start: Transfer, steps: Seq<bool>, n: int)
    requires
        0 <= n <= steps.len(),
        after_steps(start, steps.take(n)).step is Over,
    ensures
        after_steps(start, steps).step is Over,
    decreases steps.len(),
{
    if n == steps.len() {
        assert(steps.take(n) =~= steps);
    } else {
        assert(steps.drop_last().take(n) =~= steps.take(n));
        lemma_over_stays(start, steps.drop_last(), n);
    }
}

/// A download starts with its header; a subscription with its first chunk, or, of nothing, with its
/// close. All of the bytes are still to be sent.
pub proof fn law_transfer_starts(total: usize)
    ensures
        Transfer::start(Kind::Download, total).step == Step::Header,
        total > 0 ==> Transfer::start(Kind::Subscription, total).step == Step::Body,
        Transfer::start(Kind::Subscription, 0).step == Step::Finish,
        Transfer::start(Kind::Download, total).kind == Kind::Download,
        Transfer::start(Kind::Subscription, total).kind == Kind::Subscription,
        Transfer::start(Kind::Download, total).cursor == (ChunkCursor { total, remaining: total }),
        Transfer::start(Kind::Subscription, total).cursor == (ChunkCursor {
            total,
            remaining: total,
        }),
{
}

/// The order of the steps that succeed: header, opening of the part, the chunks until none is left,
/// closing of the part for a download, closing. Only a chunk changes what is left.
pub proof fn law_step_order(transfer: Transfer)
    requires
        transfer.wf(),
        !(transfer.step is Over),
    ensures
        ({
            let next = transfer.after(true);
            let chunk: int = if transfer.step != Step::Body {
                0
            } else if transfer.cursor.remaining <= 4096 {
                transfer.cursor.remaining as int
            } else {
                4096
            };
            let left = transfer.cursor.remaining - chunk;
            let closing = if transfer.kind == Kind::Download {
                Step::FinishPart
            } else {
                Step::Finish
            };
            &&& next.kind == transfer.kind
            &&& next.cursor.total == transfer.cursor.total
            &&& next.cursor.remaining == left
            &&& transfer.step == Step::Header ==> next.step == Step::StartPart
            &&& transfer.step == Step::StartPart || transfer.step == Step::Body ==> next.step == (
            if left > 0 {
                Step::Body
            } else {
                closing
            })
            &&& transfer.step == Step::FinishPart ==> next.step == Step::Finish
            &&& transfer.step == Step::Finish ==> next.step == Step::Over(TransferEnd::Complete)
        }),
{
}

/// A step that fails ends the transfer and is named; of a chunk it is told how many bytes went out
/// before it. What is left does not change.
pub proof fn law_step_fails(transfer: Transfer)
    requires
        transfer.wf(),
        !(transfer.step is Over),
    ensures
        ({
            let now = transfer.after(false);
            &&& now.kind == transfer.kind
            &&& now.cursor == transfer.cursor
            &&& transfer.step == Step::Header ==> now.step == Step::Over(TransferEnd::HeaderFailed)
            &&& transfer.step == Step::StartPart ==> now.step == Step::Over(
                TransferEnd::StartPartFailed,
            )
            &&& transfer.step == Step::Body ==> now.step == Step::Over(
                TransferEnd::BodyFailed {
                    sent: (transfer.cursor.total - transfer.cursor.remaining) as usize,
                },
            )
            &&& transfer.step == Step::FinishPart ==> now.step == Step::Over(
                TransferEnd::FinishPartFailed,
            )
            &&& transfer.step == Step::Finish ==> now.step == Step::Over(TransferEnd::FinishFailed)
        }),
{
}

} // verus!
