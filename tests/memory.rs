use demikernel_core::fail::Fail;
use demikernel_core::manager::{Buffer, MemoryManager, PoolKind, SgaSeg, Sga};

fn manager() -> MemoryManager {
    MemoryManager::new(2, 64, 2, 1500)
}

fn region(sga: &Sga) -> (usize, usize, usize) {
    match &sga.segs[0] {
        SgaSeg::Region { index, offset, len } => (*index, *offset, *len),
        SgaSeg::Bytes(_) => panic!("expected a region"),
    }
}

#[test]
fn alloc_sga_picks_pool_by_size() {
    let mut m = manager();
    let small = m.alloc_sga(10).unwrap();
    assert_eq!(small.cookie, Some(PoolKind::Header));
    assert_eq!(region(&small), (1, 0, 10));
    let large = m.alloc_sga(1000).unwrap();
    assert_eq!(large.cookie, Some(PoolKind::Body));
    assert_eq!(region(&large).2, 1000);
    m.free_sga(small);
    m.free_sga(large);
}

#[test]
fn alloc_sga_too_large_is_invalid() {
    let mut m = manager();
    assert_eq!(m.alloc_sga(1501).unwrap_err(), Fail::InvalidArgument);
}

#[test]
fn alloc_sga_exhausts_pool() {
    let mut m = manager();
    let a = m.alloc_sga(8).unwrap();
    let b = m.alloc_sga(8).unwrap();
    assert_eq!(m.alloc_sga(8).unwrap_err(), Fail::ResourceExhausted);
    m.free_sga(a);
    let c = m.alloc_sga(8).unwrap();
    m.free_sga(b);
    m.free_sga(c);
}

#[test]
fn alloc_then_free_restores_inventory() {
    let mut m = manager();
    let first = m.alloc_sga(16).unwrap();
    let (i1, _, _) = region(&first);
    m.free_sga(first);
    // The same region comes back, so the pool was left as it was.
    let again = m.alloc_sga(16).unwrap();
    assert_eq!(region(&again).0, i1);
    m.free_sga(again);
    let x = m.alloc_sga(16).unwrap();
    let y = m.alloc_sga(16).unwrap();
    assert!(m.alloc_sga(16).is_err());
    m.free_sga(x);
    m.free_sga(y);
}

#[test]
fn into_sga_copies_external_bytes() {
    let mut m = manager();
    let bytes: Vec<u8> = (0..100u8).collect();
    let sga = m.into_sga(Buffer::External(bytes.clone())).unwrap();
    assert_eq!(sga.cookie, Some(PoolKind::Body));
    let (index, offset, len) = region(&sga);
    assert_eq!((offset, len), (0, 100));
    // Taking it back onto the transmit path shares the region.
    let buf = m.clone_sga(&sga).unwrap();
    match &buf {
        Buffer::Pooled { kind, index: i, offset: o, len: l } => {
            assert_eq!(*kind, PoolKind::Body);
            assert_eq!((*i, *o, *l), (index, 0, 100));
        },
        Buffer::External(_) => panic!("expected a pooled buffer"),
    }
    m.release_buffer(buf);
    m.free_sga(sga);
}

#[test]
fn clone_then_into_round_trip_for_user_bytes() {
    let mut m = manager();
    let sga = Sga { cookie: None, segs: vec![SgaSeg::Bytes(vec![1, 2, 3]), SgaSeg::Bytes(vec![4, 5])] };
    let buf = m.clone_sga(&sga).unwrap();
    assert_eq!(m.buffer_to_vec(&buf), vec![1, 2, 3, 4, 5]);
    let back = m.into_sga(buf).unwrap();
    assert_eq!(back.cookie, Some(PoolKind::Header));
    assert_eq!(m.sga_to_vec(&back), vec![1, 2, 3, 4, 5]);
    assert_eq!(m.sga_to_vec(&sga), vec![1, 2, 3, 4, 5]);
    m.free_sga(back);
}

#[test]
fn clone_then_into_round_trip_for_pooled_array() {
    let mut m = manager();
    let filled = m.into_sga(Buffer::External(vec![0x5a; 32])).unwrap();
    let buf = m.clone_sga(&filled).unwrap();
    let back = m.into_sga(buf).unwrap();
    assert_eq!(m.sga_to_vec(&back), vec![0x5a; 32]);
    assert_eq!(region(&back), region(&filled));
    m.free_sga(back);
    m.free_sga(filled);
}

#[test]
fn transmit_pads_short_frames() {
    let mut m = manager();
    let frame = m.transmit(&vec![7u8; 14], None).unwrap();
    assert!(frame.next.is_none());
    let mut expected = vec![7u8; 14];
    expected.extend(vec![0u8; 32]);
    assert_eq!(m.buffer_to_vec(&frame.head), expected);
    match frame.head {
        Buffer::Pooled { kind, offset, len, .. } => {
            assert_eq!(kind, PoolKind::Header);
            assert_eq!(offset, 0);
            assert_eq!(len, 46);
        },
        _ => panic!(),
    }
}

#[test]
fn transmit_inlines_small_body() {
    let mut m = manager();
    let frame = m.transmit(&vec![1u8; 20], Some(Buffer::External(vec![2u8; 30]))).unwrap();
    assert!(frame.next.is_none());
    match frame.head {
        Buffer::Pooled { len, .. } => assert_eq!(len, 50),
        _ => panic!(),
    }
    let mut expected = vec![1u8; 20];
    expected.extend(vec![2u8; 30]);
    assert_eq!(m.buffer_to_vec(&frame.head), expected);
}

#[test]
fn transmit_chains_large_body() {
    let mut m = manager();
    let frame = m.transmit(&vec![1u8; 20], Some(Buffer::External(vec![2u8; 500]))).unwrap();
    match (&frame.head, &frame.next) {
        (Buffer::Pooled { kind: PoolKind::Header, len: 20, .. }, Some(Buffer::Pooled { kind: PoolKind::Body, len: 500, .. })) => {},
        other => panic!("unexpected frame {:?}", other),
    }
    assert_eq!(m.buffer_to_vec(&frame.head), vec![1u8; 20]);
    assert_eq!(m.buffer_to_vec(frame.next.as_ref().unwrap()), vec![2u8; 500]);
}

#[test]
fn transmit_fails_without_header_buffers() {
    let mut m = manager();
    let a = m.alloc_header().unwrap();
    let b = m.alloc_header().unwrap();
    assert_eq!(m.transmit(&vec![0u8; 4], None).unwrap_err(), Fail::ResourceExhausted);
    m.release_buffer(a);
    m.release_buffer(b);
    assert!(m.transmit(&vec![0u8; 4], None).is_ok());
}
