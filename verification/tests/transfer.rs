use mneme::transfer::{
    pty_read, read_exact_step, try_read_result, try_write_step, write_all_step, write_ready_step,
    IoOutcome, Progress, PtyRead, ReadFailure, WriteResult,
};

#[test]
fn writing_everything() {
    assert_eq!(write_all_step(0, 10, IoOutcome::Bytes(4)), Progress::Again(4));
    assert_eq!(write_all_step(4, 10, IoOutcome::Interrupted), Progress::Again(4));
    assert_eq!(write_all_step(4, 10, IoOutcome::Bytes(6)), Progress::Done);
    assert_eq!(write_all_step(4, 10, IoOutcome::Bytes(0)), Progress::WriteZero);
    assert_eq!(write_all_step(4, 10, IoOutcome::WouldBlock), Progress::Failed);
    assert_eq!(write_all_step(4, 10, IoOutcome::Failed), Progress::Failed);
}

#[test]
fn reading_exactly() {
    assert_eq!(read_exact_step(0, 3, IoOutcome::Bytes(3)), Progress::Done);
    assert_eq!(read_exact_step(0, 3, IoOutcome::Bytes(1)), Progress::Again(1));
    assert_eq!(read_exact_step(1, 3, IoOutcome::Bytes(0)), Progress::UnexpectedEof);
    assert_eq!(read_exact_step(1, 3, IoOutcome::Interrupted), Progress::Again(1));
    assert_eq!(read_exact_step(0, 3, IoOutcome::WouldBlock), Progress::WouldBlock);
    assert_eq!(read_exact_step(2, 3, IoOutcome::WouldBlock), Progress::Yield(2));
    assert_eq!(read_exact_step(2, 3, IoOutcome::Failed), Progress::Failed);
}

#[test]
fn waiting_writes() {
    assert_eq!(write_ready_step(0, 5, IoOutcome::WouldBlock), Progress::Wait(0));
    assert_eq!(write_ready_step(0, 5, IoOutcome::Bytes(2)), Progress::Wait(2));
    assert_eq!(write_ready_step(2, 5, IoOutcome::Bytes(3)), Progress::Done);
    assert_eq!(write_ready_step(2, 5, IoOutcome::Bytes(0)), Progress::WriteZero);
    assert_eq!(write_ready_step(2, 5, IoOutcome::Failed), Progress::Failed);
}

#[test]
fn write_attempts() {
    assert_eq!(try_write_step(0, 5, IoOutcome::Bytes(5)), Ok(WriteResult::Complete));
    assert_eq!(try_write_step(0, 5, IoOutcome::Bytes(2)), Err(2));
    assert_eq!(try_write_step(2, 5, IoOutcome::WouldBlock), Ok(WriteResult::Partial(2)));
    assert_eq!(try_write_step(0, 5, IoOutcome::WouldBlock), Ok(WriteResult::WouldBlock));
    assert_eq!(try_write_step(2, 5, IoOutcome::Interrupted), Err(2));
    assert_eq!(try_write_step(2, 5, IoOutcome::Bytes(0)), Ok(WriteResult::Error));
    assert_eq!(try_write_step(2, 5, IoOutcome::Failed), Ok(WriteResult::Error));
}

#[test]
fn read_attempts() {
    assert_eq!(try_read_result(IoOutcome::Bytes(9)), Ok(9));
    assert_eq!(try_read_result(IoOutcome::Bytes(0)), Err(ReadFailure::UnexpectedEof));
    assert_eq!(try_read_result(IoOutcome::WouldBlock), Ok(0));
    assert_eq!(try_read_result(IoOutcome::Interrupted), Ok(0));
    assert_eq!(try_read_result(IoOutcome::Failed), Err(ReadFailure::Failed));
}

#[test]
fn terminal_reads() {
    assert_eq!(pty_read(IoOutcome::Bytes(4096)), PtyRead::Data(4096));
    assert_eq!(pty_read(IoOutcome::Bytes(0)), PtyRead::Eof);
    assert_eq!(pty_read(IoOutcome::HungUp), PtyRead::Eof);
    assert_eq!(pty_read(IoOutcome::WouldBlock), PtyRead::Nothing);
    assert_eq!(pty_read(IoOutcome::Failed), PtyRead::Report);
}

/// Reads of the given sizes until the transfer ends or the sizes run out.
fn run_read(total: usize, sizes: &[usize]) -> (Progress, usize) {
    let mut pos = 0;
    let mut moved = 0;
    for &n in sizes {
        match read_exact_step(pos, total, IoOutcome::Bytes(n)) {
            Progress::Again(p) => {
                pos = p;
                moved += n;
            }
            end => return (end, moved + n),
        }
    }
    (Progress::Again(pos), moved)
}

#[test]
fn a_read_is_done_exactly_when_all_came() {
    assert_eq!(run_read(10, &[3, 3, 3, 1]), (Progress::Done, 10));
    assert_eq!(run_read(10, &[3, 3, 3]), (Progress::Again(9), 9));
    assert_eq!(run_read(10, &[3, 0]).0, Progress::UnexpectedEof);
}
