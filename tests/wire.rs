use demikernel_core::checksum::{checksum_valid, internet_checksum};
use demikernel_core::manager::{Buffer, MemoryManager, PoolKind};
use demikernel_core::runtime::{ArpOptions, DPDKRuntime};
use demikernel_core::tcp::{ack_now, effective_mss, nagle_allows};
use demikernel_core::timer::{Timer, TimerEntry};
use std::collections::HashMap;

fn ipv4_header() -> Vec<u8> {
    vec![
        0x45, 0x00, 0x00, 0x73, 0x00, 0x00, 0x40, 0x00, 0x40, 0x11, 0x00, 0x00, 0xc0, 0xa8, 0x00, 0x01, 0xc0, 0xa8,
        0x00, 0xc7,
    ]
}

#[test]
fn checksum_of_known_header() {
    let mut h = ipv4_header();
    assert_eq!(internet_checksum(&h), 0xb861);
    assert!(!checksum_valid(&h));
    h[10] = 0xb8;
    h[11] = 0x61;
    assert!(checksum_valid(&h));
    h[0] = 0x46;
    assert!(!checksum_valid(&h));
}

#[test]
fn checksum_pads_odd_length() {
    assert_eq!(internet_checksum(&vec![0x01]), 0xfeff);
    assert_eq!(internet_checksum(&vec![]), 0xffff);
    assert_eq!(internet_checksum(&vec![0xff, 0xff, 0x00, 0x01]), 0xfffe);
}

#[test]
fn arp_lookup_finds_entry() {
    let arp = ArpOptions {
        cache_ttl: 1,
        request_timeout: 1,
        retry_count: 1,
        table: HashMap::from([(1, [1; 6]), (2, [2; 6])]),
        disable_arp: false,
    };
    assert_eq!(arp.lookup(1), Some([1; 6]));
    assert_eq!(arp.lookup(2), Some([2; 6]));
    assert_eq!(arp.lookup(3), None);
}

#[test]
fn segment_rules() {
    assert_eq!(effective_mss(1460, 536), 536);
    assert_eq!(effective_mss(1000, 1460), 1000);
    assert!(nagle_allows(100, 1000, 0, false));
    assert!(!nagle_allows(100, 1000, 500, false));
    assert!(nagle_allows(1000, 1000, 500, false));
    assert!(nagle_allows(100, 1000, 500, true));
    assert!(ack_now(true, 0, 1000));
    assert!(!ack_now(false, 1999, 1000));
    assert!(ack_now(false, 2000, 1000));
}

#[test]
fn timer_wait_is_relative_to_now() {
    let mut t = Timer::new(500);
    t.wait(100, 9);
    t.wait(u64::MAX, 10);
    assert!(t.advance_clock(599).is_empty());
    assert_eq!(t.advance_clock(600), vec![TimerEntry { deadline: 600, waker: 9 }]);
    assert_eq!(t.advance_clock(u64::MAX), vec![TimerEntry { deadline: u64::MAX, waker: 10 }]);
}

#[test]
fn runtime_forwards_sgarrays_to_its_pools() {
    let mut rt = DPDKRuntime::new([0; 6], 1, 0, MemoryManager::new(1, 64, 1, 256), HashMap::new(), true, 536, false, false, 0, 3);
    let sga = rt.alloc_sgarray(100).unwrap();
    assert_eq!(sga.cookie, Some(PoolKind::Body));
    assert!(rt.alloc_sgarray(100).is_err());
    let buf = rt.clone_sgarray(&sga).unwrap();
    rt.free_sgarray(sga);
    let back = rt.into_sgarray(buf).unwrap();
    rt.free_sgarray(back);
    assert!(rt.alloc_sgarray(100).is_ok());
    let user = rt.into_sgarray(Buffer::External(vec![4, 5, 6])).unwrap();
    assert_eq!(user.cookie, Some(PoolKind::Header));
    assert_eq!(rt.memory_manager.sga_to_vec(&user), vec![4, 5, 6]);
}
