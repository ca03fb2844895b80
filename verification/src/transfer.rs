//! How whole transfers are made of single reads and writes.
//!
//! Each function is told how far a transfer has come and what the last system call did, and says
//! what to do next. The program around it makes the calls.

use vstd::prelude::*;

verus! {

/// What one read or write did.
#[derive(Debug, Clone, Copy, PartialEq, Eq, Structural)]
pub enum IoOutcome {
    /// So many bytes were moved.
    Bytes(usize),
    /// A signal came first.
    Interrupted,
    /// The call would have had to wait.
    WouldBlock,
    /// The other side of a terminal is gone.
    HungUp,
    /// Any other error.
    Failed,
}

/// How a blocking transfer of `total` bytes goes on.
#[derive(Debug, Clone, Copy, PartialEq, Eq, Structural)]
pub enum Progress {
    /// Everything was moved.
    Done,
    /// Call again, from this many bytes on.
    Again(usize),
    /// Let other threads run, then call again, from this many bytes on.
    Yield(usize),
    /// Wait until the descriptor is ready, then call again, from this many bytes on.
    Wait(usize),
    /// Give up: a write moved nothing.
    WriteZero,
    /// Give up: the other side closed before everything came.
    UnexpectedEof,
    /// Give up: nothing is there to be read.
    WouldBlock,
    /// Give up with the error of the call.
    Failed,
}

/// Whether an outcome can be that of a call that was offered `room` bytes.
pub open spec fn sensible(outcome: IoOutcome, room: int) -> bool {
    outcome matches IoOutcome::Bytes(n) ==> n <= room
}

/// Where a transfer stands after `n` more bytes.
pub open spec fn advanced(pos: usize, total: usize, n: usize) -> Progress {
    if pos + n == total {
        Progress::Done
    } else {
        Progress::Again((pos + n) as usize)
    }
}

/// How a blocking write of everything goes on: interrupted calls are repeated, any other error
/// ends it.
pub open spec fn write_all_next(pos: usize, total: usize, outcome: IoOutcome) -> Progress {
    match outcome {
        IoOutcome::Bytes(n) => if n == 0 {
            Progress::WriteZero
        } else {
            advanced(pos, total, n)
        },
        IoOutcome::Interrupted => Progress::Again(pos),
        _ => Progress::Failed,
    }
}

/// Next step of writing `total` bytes of which `pos` are written.
pub fn write_all_step(pos: usize, total: usize, outcome: IoOutcome) -> (p: Progress)
    requires
        pos < total,
        sensible(outcome, total - pos),
    ensures
        p == write_all_next(pos, total, outcome),
{
    match outcome {
        IoOutcome::Bytes(n) => if n == 0 {
            Progress::WriteZero
        } else if pos + n == total {
            Progress::Done
        } else {
            Progress::Again(pos + n)
        },
        IoOutcome::Interrupted => Progress::Again(pos),
        _ => Progress::Failed,
    }
}

/// How a read of exactly `total` bytes goes on. Where nothing is there at the very start, the
/// caller is told; in the middle the rest is on its way and is waited for.
pub open spec fn read_exact_next(pos: usize, total: usize, outcome: IoOutcome) -> Progress {
    match outcome {
        IoOutcome::Bytes(n) => if n == 0 {
            Progress::UnexpectedEof
        } else {
            advanced(pos, total, n)
        },
        IoOutcome::Interrupted => Progress::Again(pos),
        IoOutcome::WouldBlock => if pos == 0 {
            Progress::WouldBlock
        } else {
            Progress::Yield(pos)
        },
        _ => Progress::Failed,
    }
}

/// Next step of reading `total` bytes of which `pos` are read.
pub fn read_exact_step(pos: usize, total: usize, outcome: IoOutcome) -> (p: Progress)
    requires
        pos < total,
        sensible(outcome, total - pos),
    ensures
        p == read_exact_next(pos, total, outcome),
{
    match outcome {
        IoOutcome::Bytes(n) => if n == 0 {
            Progress::UnexpectedEof
        } else if pos + n == total {
            Progress::Done
        } else {
            Progress::Again(pos + n)
        },
        IoOutcome::Interrupted => Progress::Again(pos),
        IoOutcome::WouldBlock => if pos == 0 {
            Progress::WouldBlock
        } else {
            Progress::Yield(pos)
        },
        _ => Progress::Failed,
    }
}

/// How a write to a descriptor that is waited for goes on.
pub open spec fn write_ready_next(pos: usize, total: usize, outcome: IoOutcome) -> Progress {
    match outcome {
        IoOutcome::Bytes(n) => if n == 0 {
            Progress::WriteZero
        } else if pos + n == total {
            Progress::Done
        } else {
            Progress::Wait((pos + n) as usize)
        },
        IoOutcome::WouldBlock => Progress::Wait(pos),
        _ => Progress::Failed,
    }
}

/// Next step of writing `total` bytes, of which `pos` are written, to a descriptor that is
/// waited for before each call.
pub fn write_ready_step(pos: usize, total: usize, outcome: IoOutcome) -> (p: Progress)
    requires
        pos < total,
        sensible(outcome, total - pos),
    ensures
        p == write_ready_next(pos, total, outcome),
{
    match outcome {
        IoOutcome::Bytes(n) => if n == 0 {
            Progress::WriteZero
        } else if pos + n == total {
            Progress::Done
        } else {
            Progress::Wait(pos + n)
        },
        IoOutcome::WouldBlock => Progress::Wait(pos),
        _ => Progress::Failed,
    }
}

/// Result of a non-blocking write attempt.
#[derive(Debug, Clone, Copy, PartialEq, Eq, Structural)]
pub enum WriteResult {
    /// All bytes written.
    Complete,
    /// So many bytes were written; the rest must be buffered.
    Partial(usize),
    /// Nothing written, buffer everything.
    WouldBlock,
    /// Peer gone or fatal error.
    Error,
}

/// How a non-blocking write attempt goes on: `Err` with the bytes written so far to call again.
pub open spec fn try_write_next(pos: usize, total: usize, outcome: IoOutcome) -> Result<
    WriteResult,
    usize,
> {
    match outcome {
        IoOutcome::Bytes(n) => if n == 0 {
            Ok(WriteResult::Error)
        } else if pos + n == total {
            Ok(WriteResult::Complete)
        } else {
            Err((pos + n) as usize)
        },
        IoOutcome::WouldBlock => if pos > 0 {
            Ok(WriteResult::Partial(pos))
        } else {
            Ok(WriteResult::WouldBlock)
        },
        IoOutcome::Interrupted => Err(pos),
        _ => Ok(WriteResult::Error),
    }
}

/// Next step of a non-blocking attempt to write `total` bytes of which `pos` are written: its
/// result, or `Err` with the bytes written so far to call again.
pub fn try_write_step(pos: usize, total: usize, outcome: IoOutcome) -> (r: Result<
    WriteResult,
    usize,
>)
    requires
        pos < total,
        sensible(outcome, total - pos),
    ensures
        r == try_write_next(pos, total, outcome),
{
    match outcome {
        IoOutcome::Bytes(n) => if n == 0 {
            Ok(WriteResult::Error)
        } else if pos + n == total {
            Ok(WriteResult::Complete)
        } else {
            Err(pos + n)
        },
        IoOutcome::WouldBlock => if pos > 0 {
            Ok(WriteResult::Partial(pos))
        } else {
            Ok(WriteResult::WouldBlock)
        },
        IoOutcome::Interrupted => Err(pos),
        _ => Ok(WriteResult::Error),
    }
}

/// Why a read gave nothing and never will.
#[derive(Debug, Clone, Copy, PartialEq, Eq, Structural)]
pub enum ReadFailure {
    UnexpectedEof,
    Failed,
}

/// The result of one non-blocking read: the bytes read, 0 where none are there yet.
pub fn try_read_result(outcome: IoOutcome) -> (r: Result<usize, ReadFailure>)
    ensures
        r == (match outcome {
            IoOutcome::Bytes(n) => if n == 0 {
                Err(ReadFailure::UnexpectedEof)
            } else {
                Ok(n)
            },
            IoOutcome::Interrupted => Ok(0usize),
            IoOutcome::WouldBlock => Ok(0usize),
            _ => Err(ReadFailure::Failed),
        }),
{
    match outcome {
        IoOutcome::Bytes(n) => if n == 0 {
            Err(ReadFailure::UnexpectedEof)
        } else {
            Ok(n)
        },
        IoOutcome::Interrupted => Ok(0),
        IoOutcome::WouldBlock => Ok(0),
        _ => Err(ReadFailure::Failed),
    }
}

/// What a read of the child's terminal means.
#[derive(Debug, Clone, Copy, PartialEq, Eq, Structural)]
pub enum PtyRead {
    /// So many bytes of output.
    Data(usize),
    /// The terminal is closed; do not read it again.
    Eof,
    /// Nothing is there.
    Nothing,
    /// An error that is reported and otherwise ignored.
    Report,
}

/// What a read of the child's terminal means. A closed terminal shows as a read of nothing or as
/// a hang-up, depending on the system.
pub fn pty_read(outcome: IoOutcome) -> (r: PtyRead)
    ensures
        r == (match outcome {
            IoOutcome::Bytes(n) => if n == 0 {
                PtyRead::Eof
            } else {
                PtyRead::Data(n)
            },
            IoOutcome::WouldBlock => PtyRead::Nothing,
            IoOutcome::HungUp => PtyRead::Eof,
            IoOutcome::Interrupted => PtyRead::Report,
            IoOutcome::Failed => PtyRead::Report,
        }),
{
    match outcome {
        IoOutcome::Bytes(n) => if n == 0 {
            PtyRead::Eof
        } else {
            PtyRead::Data(n)
        },
        IoOutcome::WouldBlock => PtyRead::Nothing,
        IoOutcome::HungUp => PtyRead::Eof,
        IoOutcome::Interrupted => PtyRead::Report,
        IoOutcome::Failed => PtyRead::Report,
    }
}

/// Where a transfer stands after several calls with these outcomes, each step of which is
/// decided by `next`.
pub open spec fn after_calls(
    next: spec_fn(usize, usize, IoOutcome) -> Progress,
    pos: usize,
    total: usize,
    outcomes: Seq<IoOutcome>,
) -> Progress
    decreases outcomes.len(),
{
    if outcomes.len() == 0 {
        Progress::Again(pos)
    } else {
        match next(pos, total, outcomes[0]) {
            Progress::Again(p) => after_calls(next, p, total, outcomes.drop_first()),
            Progress::Yield(p) => after_calls(next, p, total, outcomes.drop_first()),
            Progress::Wait(p) => after_calls(next, p, total, outcomes.drop_first()),
            end => end,
        }
    }
}

/// Whether the outcomes can be those of the calls that a transfer makes: none moves more than it
/// was offered, and no call is made after the end.
pub open spec fn plausible(
    next: spec_fn(usize, usize, IoOutcome) -> Progress,
    pos: usize,
    total: usize,
    outcomes: Seq<IoOutcome>,
) -> bool
    decreases outcomes.len(),
{
    outcomes.len() > 0 ==> sensible(outcomes[0], total - pos) && (match next(
        pos,
        total,
        outcomes[0],
    ) {
        Progress::Again(p) => plausible(next, p, total, outcomes.drop_first()),
        Progress::Yield(p) => plausible(next, p, total, outcomes.drop_first()),
        Progress::Wait(p) => plausible(next, p, total, outcomes.drop_first()),
        _ => outcomes.len() == 1,
    })
}

/// The bytes that the calls moved.
pub open spec fn moved(outcomes: Seq<IoOutcome>) -> nat
    decreases outcomes.len(),
{
    if outcomes.len() == 0 {
        0
    } else {
        moved(outcomes.drop_first()) + (match outcomes[0] {
            IoOutcome::Bytes(n) => n as nat,
            _ => 0,
        })
    }
}

/// The steps of a read of everything, as a function.
pub open spec fn read_exact_rule() -> spec_fn(usize, usize, IoOutcome) -> Progress {
    |pos: usize, total: usize, o: IoOutcome| read_exact_next(pos, total, o)
}

/// The steps of a write of everything, as a function.
pub open spec fn write_all_rule() -> spec_fn(usize, usize, IoOutcome) -> Progress {
    |pos: usize, total: usize, o: IoOutcome| write_all_next(pos, total, o)
}

/// The steps of a write to a descriptor that is waited for, as a function.
pub open spec fn write_ready_rule() -> spec_fn(usize, usize, IoOutcome) -> Progress {
    |pos: usize, total: usize, o: IoOutcome| write_ready_next(pos, total, o)
}

/// A read of `total` bytes ends well exactly when the calls have brought all of them, however
/// they were cut and however often they were interrupted; until then it goes on from where the
/// bytes that came end.
pub proof fn law_read_exact_is_exact(pos: usize, total: usize, outcomes: Seq<IoOutcome>)
    requires
        pos < total,
        plausible(read_exact_rule(), pos, total, outcomes),
    ensures
        pos + moved(outcomes) <= total,
        after_calls(read_exact_rule(), pos, total, outcomes) == Progress::Done <==> pos + moved(
            outcomes,
        ) == total,
        after_calls(read_exact_rule(), pos, total, outcomes) matches Progress::Again(p) ==> p
            == pos + moved(outcomes),
    decreases outcomes.len(),
{
    if outcomes.len() > 0 {
        let rest = outcomes.drop_first();
        match read_exact_next(pos, total, outcomes[0]) {
            Progress::Again(p) => law_read_exact_is_exact(p, total, rest),
            Progress::Yield(p) => law_read_exact_is_exact(p, total, rest),
            _ => {
                assert(moved(rest) == 0);
            },
        }
    }
}

/// A write of `total` bytes ends well exactly when the calls have taken all of them.
pub proof fn law_write_all_is_complete(pos: usize, total: usize, outcomes: Seq<IoOutcome>)
    requires
        pos < total,
        plausible(write_all_rule(), pos, total, outcomes),
    ensures
        pos + moved(outcomes) <= total,
        after_calls(write_all_rule(), pos, total, outcomes) == Progress::Done <==> pos + moved(
            outcomes,
        ) == total,
    decreases outcomes.len(),
{
    if outcomes.len() > 0 {
        let rest = outcomes.drop_first();
        match write_all_next(pos, total, outcomes[0]) {
            Progress::Again(p) => law_write_all_is_complete(p, total, rest),
            _ => {
                assert(moved(rest) == 0);
            },
        }
    }
}

/// A write to a descriptor that is waited for ends well exactly when the calls have taken all of
/// the bytes.
pub proof fn law_write_ready_is_complete(pos: usize, total: usize, outcomes: Seq<IoOutcome>)
    requires
        pos < total,
        plausible(write_ready_rule(), pos, total, outcomes),
    ensures
        pos + moved(outcomes) <= total,
        after_calls(write_ready_rule(), pos, total, outcomes) == Progress::Done <==> pos + moved(
            outcomes,
        ) == total,
    decreases outcomes.len(),
{
    if outcomes.len() > 0 {
        let rest = outcomes.drop_first();
        match write_ready_next(pos, total, outcomes[0]) {
            Progress::Wait(p) => law_write_ready_is_complete(p, total, rest),
            _ => {
                assert(moved(rest) == 0);
            },
        }
    }
}

/// What one write of a blocking transfer means: bytes move it on by as many, and end it when they
/// were the last; none at all ends it in error, and so does any error but a signal, after which
/// the same bytes are offered again.
pub proof fn law_write_all_by_outcome(pos: usize, total: usize, n: usize)
    requires
        pos < total,
        n <= total - pos,
    ensures
        n == 0 ==> write_all_next(pos, total, IoOutcome::Bytes(n)) == Progress::WriteZero,
        n == total - pos ==> write_all_next(pos, total, IoOutcome::Bytes(n)) == Progress::Done,
        0 < n < total - pos ==> (write_all_next(pos, total, IoOutcome::Bytes(n)) matches
            Progress::Again(p) && p == pos + n),
        write_all_next(pos, total, IoOutcome::Interrupted) == Progress::Again(pos),
        write_all_next(pos, total, IoOutcome::WouldBlock) == Progress::Failed,
        write_all_next(pos, total, IoOutcome::HungUp) == Progress::Failed,
        write_all_next(pos, total, IoOutcome::Failed) == Progress::Failed,
{
}

/// What one read of a whole means: bytes move it on by as many, and end it when they were the last;
/// the end of the stream ends it in error. A signal changes nothing. Where nothing is there, the
/// caller is told before the first byte, and after it the rest is waited for.
pub proof fn law_read_exact_by_outcome(pos: usize, total: usize, n: usize)
    requires
        pos < total,
        n <= total - pos,
    ensures
        n == 0 ==> read_exact_next(pos, total, IoOutcome::Bytes(n)) == Progress::UnexpectedEof,
        n == total - pos ==> read_exact_next(pos, total, IoOutcome::Bytes(n)) == Progress::Done,
        0 < n < total - pos ==> (read_exact_next(pos, total, IoOutcome::Bytes(n)) matches
            Progress::Again(p) && p == pos + n),
        read_exact_next(pos, total, IoOutcome::Interrupted) == Progress::Again(pos),
        pos == 0 ==> read_exact_next(pos, total, IoOutcome::WouldBlock) == Progress::WouldBlock,
        pos > 0 ==> read_exact_next(pos, total, IoOutcome::WouldBlock) == Progress::Yield(pos),
        read_exact_next(pos, total, IoOutcome::HungUp) == Progress::Failed,
        read_exact_next(pos, total, IoOutcome::Failed) == Progress::Failed,
{
}

/// What one write to a descriptor that is waited for means: bytes move it on by as many, after
/// which it is waited for again, and end it when they were the last; where it would have to wait,
/// it waits; anything else ends it in error.
pub proof fn law_write_ready_by_outcome(pos: usize, total: usize, n: usize)
    requires
        pos < total,
        n <= total - pos,
    ensures
        n == 0 ==> write_ready_next(pos, total, IoOutcome::Bytes(n)) == Progress::WriteZero,
        n == total - pos ==> write_ready_next(pos, total, IoOutcome::Bytes(n)) == Progress::Done,
        0 < n < total - pos ==> (write_ready_next(pos, total, IoOutcome::Bytes(n)) matches
            Progress::Wait(p) && p == pos + n),
        write_ready_next(pos, total, IoOutcome::WouldBlock) == Progress::Wait(pos),
        write_ready_next(pos, total, IoOutcome::Interrupted) == Progress::Failed,
        write_ready_next(pos, total, IoOutcome::HungUp) == Progress::Failed,
        write_ready_next(pos, total, IoOutcome::Failed) == Progress::Failed,
{
}

/// What one call of an attempt to write without waiting means: complete exactly when all bytes were
/// taken; where it would have to wait, over with exactly the bytes that were taken so far.
pub proof fn law_attempt_counts_bytes(pos: usize, total: usize, n: usize)
    requires
        pos < total,
        n <= total - pos,
    ensures
        n == 0 ==> try_write_next(pos, total, IoOutcome::Bytes(n)) == Ok::<_, usize>(
            WriteResult::Error,
        ),
        n == total - pos ==> try_write_next(pos, total, IoOutcome::Bytes(n)) == Ok::<_, usize>(
            WriteResult::Complete,
        ),
        0 < n < total - pos ==> (try_write_next(pos, total, IoOutcome::Bytes(n)) matches Err(p) && p
            == pos + n),
        try_write_next(pos, total, IoOutcome::Interrupted) == Err::<WriteResult, _>(pos),
        pos == 0 ==> try_write_next(pos, total, IoOutcome::WouldBlock) == Ok::<_, usize>(
            WriteResult::WouldBlock,
        ),
        pos > 0 ==> try_write_next(pos, total, IoOutcome::WouldBlock) == Ok::<_, usize>(
            WriteResult::Partial(pos),
        ),
        try_write_next(pos, total, IoOutcome::HungUp) == Ok::<_, usize>(WriteResult::Error),
        try_write_next(pos, total, IoOutcome::Failed) == Ok::<_, usize>(WriteResult::Error),
{
}

} // verus!
