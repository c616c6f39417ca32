use demikernel_core::fail::Fail;
use demikernel_core::ioqueue::{IoQueue, WaitOutcome};
use demikernel_core::queue::{QDesc, QToken};
use demikernel_core::scheduler::{Step, StepPoll};

#[derive(Debug)]
struct Op {
    polls_left: u32,
    id: u32,
}

impl Step for Op {
    fn poll_step(&mut self) -> StepPoll {
        if self.polls_left == 0 {
            StepPoll::Done
        } else {
            self.polls_left -= 1;
            StepPoll::Again
        }
    }
}

#[test]
fn tokens_carry_handles_and_complete() {
    let mut q: IoQueue<Op> = IoQueue::new();
    let a = q.submit(QDesc(1), Op { polls_left: 0, id: 10 }).unwrap();
    let b = q.submit(QDesc(2), Op { polls_left: 3, id: 20 }).unwrap();
    assert_ne!(a, b);
    assert_eq!(q.try_wait(a).unwrap_err(), Fail::TimedOut);
    q.poll();
    match q.try_wait(a) {
        Ok(WaitOutcome::Completed(qd, op)) => {
            assert_eq!(qd, QDesc(1));
            assert_eq!(op.id, 10);
        },
        other => panic!("unexpected {:?}", other.map(|_| ())),
    }
    assert_eq!(q.try_wait(a).unwrap_err(), Fail::InvalidArgument);
    assert_eq!(q.try_wait(b).unwrap_err(), Fail::TimedOut);
    // A later step may reuse the slot, never the token.
    let c = q.submit(QDesc(3), Op { polls_left: 0, id: 30 }).unwrap();
    assert_ne!(c, a);
    assert_ne!(c, b);
}

#[test]
fn close_cancels_pending_operations() {
    let mut q: IoQueue<Op> = IoQueue::new();
    let connect = q.submit(QDesc(4), Op { polls_left: 100, id: 1 }).unwrap();
    let other = q.submit(QDesc(5), Op { polls_left: 0, id: 2 }).unwrap();
    q.cancel_all(QDesc(4));
    match q.try_wait(connect) {
        Ok(WaitOutcome::Cancelled(qd)) => assert_eq!(qd, QDesc(4)),
        _ => panic!("expected a cancellation"),
    }
    assert_eq!(q.try_wait(connect).unwrap_err(), Fail::InvalidArgument);
    q.poll();
    assert!(matches!(q.try_wait(other), Ok(WaitOutcome::Completed(QDesc(5), _))));
    assert_eq!(q.try_wait(QToken(12345)).unwrap_err(), Fail::InvalidArgument);
}
