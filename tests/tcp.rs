use demikernel_core::handshake::{on_abort, on_fin, on_fin_acked, on_user_close, ActiveOpen, HandshakeDone, Listener, OpenAction, TcpState};
use demikernel_core::options::TcpOptions;
use demikernel_core::queue::SocketAddrV4;
use demikernel_core::reassembly::Receiver;
use demikernel_core::tcp::{AckKind, RtoCalculator, Sender};

#[test]
fn sender_stays_within_window() {
    let mut s = Sender::new(1000, 3000, 1000);
    s.cwnd = 10_000;
    let n = s.next_segment_len(5000);
    assert_eq!(n, 1000);
    s.on_send(n);
    s.on_send(s.next_segment_len(5000));
    s.on_send(s.next_segment_len(5000));
    assert_eq!(s.nxt, 4000);
    assert_eq!(s.next_segment_len(5000), 0);
    // una <= nxt <= una + wnd
    assert!(s.una <= s.nxt && s.nxt <= s.una + s.wnd);
}

#[test]
fn sender_wraps_sequence_space() {
    let mut s = Sender::new(u32::MAX - 9, 100, 50);
    s.on_send(30);
    assert_eq!(s.nxt, 20);
    assert_eq!(s.on_ack(5, 100), AckKind::New(15));
    assert_eq!(s.una, 5);
}

#[test]
fn ack_of_new_data_grows_window_in_slow_start() {
    let mut s = Sender::new(0, 10_000, 1000);
    s.on_send(1000);
    assert_eq!(s.on_ack(1000, 10_000), AckKind::New(1000));
    assert_eq!(s.cwnd, 2000);
    assert_eq!(s.dup_acks, 0);
}

#[test]
fn ack_in_congestion_avoidance_adds_fraction() {
    let mut s = Sender::new(0, 50_000, 1000);
    s.cwnd = 4000;
    s.ssthresh = 4000;
    s.on_send(1000);
    assert_eq!(s.on_ack(1000, 50_000), AckKind::New(1000));
    assert_eq!(s.cwnd, 4250);
}

#[test]
fn third_duplicate_ack_fast_retransmits() {
    let mut s = Sender::new(0, 50_000, 1000);
    s.cwnd = 8000;
    s.ssthresh = 8000;
    s.on_send(4000);
    assert_eq!(s.on_ack(0, 50_000), AckKind::Duplicate);
    assert_eq!(s.on_ack(0, 50_000), AckKind::Duplicate);
    assert_eq!(s.on_ack(0, 50_000), AckKind::FastRetransmit);
    assert_eq!(s.ssthresh, 4000);
    assert_eq!(s.cwnd, 7000);
}

#[test]
fn ack_beyond_sent_is_ignored() {
    let mut s = Sender::new(0, 1000, 100);
    s.on_send(100);
    assert_eq!(s.on_ack(500, 1000), AckKind::Ignored);
    assert_eq!(s.una, 0);
    assert_eq!(s.on_ack(0, 1000), AckKind::Duplicate);
}

#[test]
fn window_never_shrinks_below_flight() {
    let mut s = Sender::new(0, 1000, 100);
    s.cwnd = 1000;
    s.on_send(100);
    s.on_send(100);
    s.on_send(100);
    assert_eq!(s.on_ack(100, 10), AckKind::New(100));
    assert_eq!(s.wnd, 200);
}

#[test]
fn timeout_restarts_from_una() {
    let mut s = Sender::new(0, 10_000, 1000);
    s.cwnd = 8000;
    s.on_send(6000);
    s.on_timeout();
    assert_eq!(s.nxt, 0);
    assert_eq!(s.cwnd, 1000);
    assert_eq!(s.ssthresh, 3000);
    let mut t = Sender::new(0, 10_000, 1000);
    t.on_send(1000);
    t.on_timeout();
    assert_eq!(t.ssthresh, 2000);
}

#[test]
fn rto_follows_jacobson_karels() {
    let mut r = RtoCalculator::new();
    assert_eq!(r.rto, 1_000_000);
    r.add_sample(100_000);
    assert_eq!((r.srtt, r.rttvar, r.rto), (100_000, 50_000, 300_000));
    r.add_sample(200_000);
    assert_eq!(r.rttvar, 62_500);
    assert_eq!(r.srtt, 112_500);
    assert_eq!(r.rto, 362_500);
}

#[test]
fn rto_is_clamped() {
    let mut r = RtoCalculator::new();
    r.add_sample(1_000);
    assert_eq!(r.rto, 200_000);
    r.add_sample(u32::MAX);
    assert_eq!(r.rto, 60_000_000);
    r.back_off();
    assert_eq!(r.rto, 60_000_000);
    let mut q = RtoCalculator::new();
    q.back_off();
    assert_eq!(q.rto, 2_000_000);
}

#[test]
fn reassembly_delivers_out_of_order_segments_once() {
    let mut r = Receiver::new(99, 1024);
    assert_eq!(r.rcv_nxt_exec(), 100);
    let seg = |start: u8| -> Vec<u8> { (0..100u8).map(|i| start.wrapping_add(i)).collect() };
    let first = seg(0);
    let third = seg(200);
    let second = seg(100);
    assert_eq!(r.receive(100, &first), 200);
    assert_eq!(r.receive(300, &third), 200);
    let cumulative = r.receive(200, &second);
    assert_eq!(cumulative, 400);
    let got = r.pop(None);
    assert_eq!(got.len(), 300);
    let mut expected = first.clone();
    expected.extend(second.clone());
    expected.extend(third.clone());
    assert_eq!(got, expected);
    assert!(r.pop(None).is_empty());
}

#[test]
fn reassembly_keeps_earlier_bytes_on_overlap() {
    let mut r = Receiver::new(0, 64);
    assert_eq!(r.receive(3, &vec![7, 7]), 1);
    assert_eq!(r.receive(1, &vec![1, 2, 3, 4, 5]), 6);
    assert_eq!(r.pop(Some(10)), vec![1, 2, 7, 7, 5]);
    // Old data is a duplicate and changes nothing.
    assert_eq!(r.receive(1, &vec![9, 9, 9]), 6);
    assert!(r.pop(None).is_empty());
}

#[test]
fn reassembly_drops_bytes_past_window() {
    let mut r = Receiver::new(0, 4);
    assert_eq!(r.receive(1, &vec![1, 2, 3, 4, 5, 6]), 5);
    assert_eq!(r.pop(Some(2)), vec![1, 2]);
    assert_eq!(r.pop(None), vec![3, 4]);
}

#[test]
fn connect_refused_after_retries() {
    let options = TcpOptions::new(1460, 65535).handshake_retries(3).handshake_timeout(100_000);
    let (mut open, first) = ActiveOpen::new(77, &options);
    assert_eq!(first, OpenAction::SendSyn);
    let mut elapsed: u64 = 0;
    let mut syns = 1;
    loop {
        elapsed += open.timeout;
        match open.on_timeout() {
            OpenAction::SendSyn => syns += 1,
            OpenAction::Refused => break,
            other => panic!("unexpected {:?}", other),
        }
    }
    assert_eq!(syns, 4);
    assert_eq!(elapsed, 400_000);
}

#[test]
fn syn_ack_establishes() {
    let options = TcpOptions::new(1460, 65535);
    let (open, _) = ActiveOpen::new(u32::MAX, &options);
    assert_eq!(open.on_syn_ack(0), OpenAction::Established);
    assert_eq!(open.on_syn_ack(5), OpenAction::Ignore);
    assert_eq!(open.on_reset(0), OpenAction::Refused);
}

#[test]
fn accept_queue_with_backlog_one() {
    let a = SocketAddrV4::from_octets(10, 0, 0, 2, 1000);
    let b = SocketAddrV4::from_octets(10, 0, 0, 3, 1000);
    let mut l = Listener::new(0);
    assert_eq!(l.accept(), None);
    // Both SYNs are answered.
    l.on_syn(a);
    l.on_syn(b);
    // A completes first and is queued; the queue is then full, so B is reset.
    assert_eq!(l.on_ack(a), HandshakeDone::Queued);
    assert_eq!(l.on_ack(b), HandshakeDone::Reset);
    assert_eq!(l.on_ack(b), HandshakeDone::Unknown);
    assert_eq!(l.accept(), Some(a));
    // The second accept pends until B retries.
    assert_eq!(l.accept(), None);
    l.on_syn(b);
    assert_eq!(l.on_ack(b), HandshakeDone::Queued);
    assert_eq!(l.accept(), Some(b));
}

#[test]
fn accept_queue_holds_peer_while_room() {
    let a = SocketAddrV4::from_octets(10, 0, 0, 2, 1000);
    let b = SocketAddrV4::from_octets(10, 0, 0, 3, 1000);
    let mut l = Listener::new(2);
    l.on_syn(a);
    l.on_syn(a);
    l.on_syn(b);
    assert_eq!(l.on_ack(a), HandshakeDone::Queued);
    assert_eq!(l.on_ack(b), HandshakeDone::Queued);
    assert_eq!(l.accept(), Some(a));
    assert_eq!(l.accept(), Some(b));
}

#[test]
fn close_follows_the_state_diagram() {
    assert_eq!(on_user_close(TcpState::Established), (TcpState::FinWait1, true));
    assert_eq!(on_fin_acked(TcpState::FinWait1), TcpState::FinWait2);
    assert_eq!(on_fin(TcpState::FinWait2), TcpState::TimeWait);
    assert_eq!(on_fin(TcpState::Established), TcpState::CloseWait);
    assert_eq!(on_user_close(TcpState::CloseWait), (TcpState::LastAck, true));
    assert_eq!(on_fin_acked(TcpState::LastAck), TcpState::Closed);
    assert_eq!(on_fin(TcpState::FinWait1), TcpState::Closing);
    assert_eq!(on_fin_acked(TcpState::Closing), TcpState::TimeWait);
    assert_eq!(on_abort(TcpState::Established), (TcpState::Closed, true));
    assert_eq!(on_abort(TcpState::SynSent), (TcpState::Closed, false));
}

#[test]
fn options_builders_set_fields() {
    let o = TcpOptions::new(1000, 4096);
    assert_eq!(o.advertised_mss, 1000);
    assert_eq!(o.receive_window_size, 4096);
    assert_eq!(o.handshake_retries, 5);
    assert_eq!(o.handshake_timeout, 3_000_000);
    assert_eq!(o.retries, 5);
    assert_eq!(o.trailing_ack_delay, 1);
    let o = o.advertised_mss(536).retries(2).receive_window_size(10).trailing_ack_delay(7);
    assert_eq!((o.advertised_mss, o.retries, o.receive_window_size, o.trailing_ack_delay), (536, 2, 10, 7));
}
