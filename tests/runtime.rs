use demikernel_core::ioqueue::WaitOutcome;
use demikernel_core::libos::CatnipLibos;
use demikernel_core::queue::{QDesc, SocketAddrV4};
use demikernel_core::sockets::SocketKind;
use demikernel_core::manager::{Buffer, MemoryManager};
use demikernel_core::runtime::DPDKRuntime;
use demikernel_core::scheduler::{Scheduler, SlotState, Step, StepPoll, TaskHandle};
use demikernel_core::timer::{Timer, TimerEntry, TimerRc};
use demikernel_core::fail::Fail;
use std::collections::HashMap;
use std::rc::Rc;

struct Countdown {
    left: u32,
}

impl Step for Countdown {
    fn poll_step(&mut self) -> StepPoll {
        if self.left == 0 {
            StepPoll::Done
        } else {
            self.left -= 1;
            StepPoll::Again
        }
    }
}

struct Parked;

impl Step for Parked {
    fn poll_step(&mut self) -> StepPoll {
        StepPoll::Pending
    }
}

#[test]
fn scheduler_runs_steps_to_completion() {
    let mut s: Scheduler<Countdown> = Scheduler::new();
    let h = s.insert(Countdown { left: 2 }).unwrap();
    assert_eq!(s.from_raw(h.raw()), Some(h));
    let g = s.insert(Countdown { left: 0 }).unwrap();
    assert_eq!(s.poll(), 2);
    assert!(s.has_completed(g));
    assert!(!s.has_completed(h));
    s.poll();
    s.poll();
    assert!(s.has_completed(h));
    assert_eq!(s.poll(), 0);
    let done = s.take(h);
    assert_eq!(done.left, 0);
    assert_eq!(s.from_raw(h.raw()), None);
}

#[test]
fn stale_handle_is_absent_after_reuse() {
    let mut s: Scheduler<Parked> = Scheduler::new();
    let a = s.insert(Parked).unwrap();
    s.take(a);
    let b = s.insert(Parked).unwrap();
    assert_eq!(b.slot, a.slot);
    assert_eq!(b.generation, a.generation + 1);
    assert_eq!(s.from_raw(a.raw()), None);
    assert_eq!(s.from_raw(b.raw()), Some(b));
    assert_ne!(a.raw(), b.raw());
}

#[test]
fn waiting_step_runs_again_after_wake() {
    let mut s: Scheduler<Parked> = Scheduler::new();
    let h = s.insert(Parked).unwrap();
    assert_eq!(s.poll(), 1);
    assert_eq!(s.poll(), 0);
    s.wake(h);
    assert_eq!(s.poll(), 1);
    let stale = TaskHandle { slot: h.slot, generation: h.generation + 1 };
    s.wake(stale);
    assert_eq!(s.poll(), 0);
    let _ = SlotState::Free;
}

#[test]
fn handle_packs_generation_and_slot() {
    let h = TaskHandle { slot: 3, generation: 2 };
    assert_eq!(h.raw(), (2u64 << 32) | 3);
    assert_eq!(TaskHandle::from_raw_parts(h.raw()), h);
}

#[test]
fn timer_fires_due_wakers_in_order() {
    let mut t = Timer::new(1000);
    t.wait_until(1500, 1);
    t.wait_until(3000, 2);
    t.wait_until(1200, 3);
    assert!(t.advance_clock(900).is_empty());
    assert_eq!(t.now(), 1000);
    let fired = t.advance_clock(2000);
    assert_eq!(fired, vec![TimerEntry { deadline: 1500, waker: 1 }, TimerEntry { deadline: 1200, waker: 3 }]);
    assert_eq!(t.advance_clock(3000), vec![TimerEntry { deadline: 3000, waker: 2 }]);
    let shared = TimerRc(Rc::new(t));
    assert_eq!(shared.timer().now(), 3000);
}

fn runtime(seed: u64) -> DPDKRuntime {
    DPDKRuntime::new(
        [2, 0, 0, 0, 0, 1],
        0x0a00_0001,
        0,
        MemoryManager::new(4, 128, 4, 1500),
        HashMap::from([(0x0a00_0002, [2, 0, 0, 0, 0, 2])]),
        false,
        1450,
        true,
        false,
        0,
        seed,
    )
}

#[test]
fn runtime_takes_its_settings() {
    let rt = runtime(1);
    assert_eq!(rt.tcp_options.advertised_mss, 1450);
    assert_eq!(rt.tcp_options.receive_window_size, 0xffff);
    assert_eq!(rt.arp_options.retry_count, 5);
    assert_eq!(rt.arp_options.table.len(), 1);
    assert!(rt.tcp_checksum_offload);
    assert!(!rt.udp_options.rx_checksum_offload);
    let mut libos: CatnipLibos<Countdown> = CatnipLibos::new(rt);
    assert_eq!(libos.runtime.ipv4_addr, 0x0a00_0001);
    let qt = libos.spawn(QDesc(0), Countdown { left: 1 }).unwrap();
    assert_eq!(libos.poll(), 1);
    assert_eq!(libos.poll(), 1);
    assert!(matches!(libos.queue.try_wait(qt), Ok(WaitOutcome::Completed(QDesc(0), _))));
    assert_eq!(libos.poll(), 0);
    let sock = libos.sockets.socket(SocketKind::Stream).unwrap();
    let connect = libos.connect(sock, SocketAddrV4::new(0x0a00_0002, 80), Countdown { left: 0 }).unwrap();
    assert!(libos.sockets.has_token(connect));
    assert_eq!(libos.connect(sock, SocketAddrV4::new(0x0a00_0002, 80), Countdown { left: 0 }).unwrap_err(), Fail::AddressInUse);
    assert_eq!(libos.poll(), 1);
    assert!(matches!(libos.queue.try_wait(connect), Ok(WaitOutcome::Completed(_, _))));
}

#[test]
fn runtime_iss_depends_on_seed_only() {
    let mut a = runtime(42);
    let mut b = runtime(42);
    let xs: Vec<u32> = (0..4).map(|_| a.next_iss()).collect();
    let ys: Vec<u32> = (0..4).map(|_| b.next_iss()).collect();
    assert_eq!(xs, ys);
    assert!(xs.iter().any(|x| *x != xs[0]));
}

#[test]
fn receive_wraps_each_frame() {
    let rt = runtime(0);
    let batch = rt.receive(vec![vec![1, 2], vec![3], vec![]]);
    assert_eq!(batch.len(), 3);
    match &batch[1] {
        Buffer::External(v) => assert_eq!(v, &vec![3]),
        _ => panic!(),
    }
    let empty = rt.receive(vec![]);
    assert_eq!(empty.len(), 0);
    let _ = Fail::Cancelled;
}
