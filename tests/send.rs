use demikernel_core::handshake::TcpState;
use demikernel_core::queue::SocketAddrV4;
use demikernel_core::send::{Segment, SendBuffer};
use demikernel_core::tcb::ControlBlock;
use demikernel_core::tcp::{AckKind, Sender};

fn buffer(mss: u32, wnd: u32) -> SendBuffer {
    let mut s = Sender::new(100, wnd, mss);
    s.cwnd = 100_000;
    SendBuffer::new(s)
}

#[test]
fn segments_follow_mss_and_window() {
    let mut b = buffer(4, 10);
    assert_eq!(b.push(&(0..12u8).collect()), 12);
    assert_eq!(b.next_segment(false, false), Some(Segment { seq: 100, payload: vec![0, 1, 2, 3] }));
    assert_eq!(b.next_segment(false, false), Some(Segment { seq: 104, payload: vec![4, 5, 6, 7] }));
    assert_eq!(b.next_segment(false, false), Some(Segment { seq: 108, payload: vec![8, 9] }));
    assert_eq!(b.next_segment(false, false), None);
    assert_eq!(b.unsent_len(), 2);
    assert_eq!(b.on_ack(104, 10), AckKind::New(4));
    assert_eq!(b.next_segment(false, false), Some(Segment { seq: 110, payload: vec![10, 11] }));
}

#[test]
fn nagle_holds_small_segment_while_data_in_flight() {
    let mut b = buffer(4, 100);
    b.push(&vec![1, 2, 3, 4, 5]);
    assert_eq!(b.next_segment(true, false), Some(Segment { seq: 100, payload: vec![1, 2, 3, 4] }));
    assert_eq!(b.next_segment(true, false), None);
    assert_eq!(b.next_segment(true, true), Some(Segment { seq: 104, payload: vec![5] }));
}

#[test]
fn retransmission_starts_at_una() {
    let mut b = buffer(3, 100);
    assert_eq!(b.retransmission(), None);
    b.push(&vec![9, 8, 7, 6, 5]);
    b.next_segment(false, false);
    b.next_segment(false, false);
    assert_eq!(b.retransmission(), Some(Segment { seq: 100, payload: vec![9, 8, 7] }));
    assert_eq!(b.on_ack(101, 100), AckKind::New(1));
    assert_eq!(b.retransmission(), Some(Segment { seq: 101, payload: vec![8, 7, 6] }));
    b.on_timeout();
    assert_eq!(b.sender_state().nxt, 101);
    assert_eq!(b.next_segment(false, false), Some(Segment { seq: 101, payload: vec![8, 7, 6] }));
}

#[test]
fn control_block_routes_ack_and_data() {
    let local = SocketAddrV4::from_octets(10, 0, 0, 1, 80);
    let remote = SocketAddrV4::from_octets(10, 0, 0, 2, 5000);
    let mut cb = ControlBlock::established(local, remote, 999, 4999, 1000, 1460, 536, 4096);
    assert_eq!(cb.state, TcpState::Established);
    assert_eq!(cb.send.sender_state().mss, 536);
    assert_eq!(cb.send.sender_state().una, 1000);
    assert_eq!(cb.recv.rcv_nxt_exec(), 5000);
    cb.send.push(&vec![1, 2, 3]);
    let seg = cb.send.next_segment(false, false).unwrap();
    assert_eq!(seg, Segment { seq: 1000, payload: vec![1, 2, 3] });
    let (kind, ack) = cb.on_segment(5000, 1003, 1000, &vec![7, 8]);
    assert_eq!(kind, AckKind::New(3));
    assert_eq!(ack, 5002);
    assert_eq!(cb.recv.pop(None), vec![7, 8]);
    assert_eq!(cb.send.unsent_len(), 0);
}
