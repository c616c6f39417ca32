use demikernel_core::fail::Fail;
use demikernel_core::handshake::{ActiveOpen, OpenAction};
use demikernel_core::options::TcpOptions;
use demikernel_core::queue::{QDesc, QToken, SocketAddrV4};
use demikernel_core::sockets::{Completion, OpKind, OpValue, SocketKind, SocketState, SocketTable};
use demikernel_core::udp::{Datagram, UdpPeer};

fn addr(d: u8, port: u16) -> SocketAddrV4 {
    SocketAddrV4::from_octets(10, 0, 0, d, port)
}

#[test]
fn listen_without_bind_needs_address() {
    let mut t = SocketTable::new();
    let qd = t.socket(SocketKind::Stream).unwrap();
    assert_eq!(t.listen(qd, 8), Err(Fail::DestinationAddressRequired));
}

#[test]
fn listen_after_close_is_bad_descriptor() {
    let mut t = SocketTable::new();
    let qd = t.socket(SocketKind::Stream).unwrap();
    t.bind(qd, addr(1, 80)).unwrap();
    t.listen(qd, 0).unwrap();
    t.close(qd).unwrap();
    assert_eq!(t.listen(qd, 0), Err(Fail::BadDescriptor));
}

#[test]
fn listen_twice_is_address_in_use() {
    let mut t = SocketTable::new();
    let qd = t.socket(SocketKind::Stream).unwrap();
    t.bind(qd, addr(1, 80)).unwrap();
    assert_eq!(t.listen(qd, 16), Ok(()));
    assert_eq!(t.listen(qd, 16), Err(Fail::AddressInUse));
}

#[test]
fn descriptors_are_reused_lowest_first() {
    let mut t = SocketTable::new();
    let a = t.socket(SocketKind::Stream).unwrap();
    let b = t.socket(SocketKind::Datagram).unwrap();
    assert_eq!((a, b), (QDesc(0), QDesc(1)));
    t.close(a).unwrap();
    assert_eq!(t.close(a), Err(Fail::BadDescriptor));
    assert_eq!(t.socket(SocketKind::Stream).unwrap(), QDesc(0));
}

#[test]
fn bind_refuses_taken_address() {
    let mut t = SocketTable::new();
    let a = t.socket(SocketKind::Stream).unwrap();
    let b = t.socket(SocketKind::Stream).unwrap();
    let u = t.socket(SocketKind::Datagram).unwrap();
    t.bind(a, addr(1, 80)).unwrap();
    assert_eq!(t.bind(b, addr(1, 80)), Err(Fail::AddressInUse));
    assert_eq!(t.bind(u, addr(1, 80)), Ok(()));
    assert_eq!(t.bind(a, addr(1, 81)), Err(Fail::InvalidArgument));
}

#[test]
fn close_cancels_pending_connect() {
    let mut t = SocketTable::new();
    let qd = t.socket(SocketKind::Stream).unwrap();
    let qt = QToken(1);
    t.connect(qd, SocketAddrV4::from_octets(127, 0, 0, 1, 1), qt).unwrap();
    assert_eq!(t.wait(qt), Err(Fail::TimedOut));
    t.close(qd).unwrap();
    assert_eq!(t.wait(qt), Ok(Completion { qd, kind: OpKind::Connect, result: Err(Fail::Cancelled) }));
    // The token was reaped.
    assert_eq!(t.wait(qt), Err(Fail::InvalidArgument));
}

#[test]
fn completed_accept_is_reaped_once() {
    let mut t = SocketTable::new();
    let qd = t.socket(SocketKind::Stream).unwrap();
    assert_eq!(t.accept(qd, QToken(1)), Err(Fail::InvalidArgument));
    t.bind(qd, addr(1, 80)).unwrap();
    t.listen(qd, 1).unwrap();
    let (q1, q2) = (QToken(1), QToken(2));
    t.accept(qd, q1).unwrap();
    t.accept(qd, q2).unwrap();
    let value = OpValue::Accepted { qd: QDesc(5), remote: addr(2, 1234) };
    t.complete(q1, Ok(value));
    assert_eq!(t.wait(q1), Ok(Completion { qd, kind: OpKind::Accept, result: Ok(value) }));
    assert_eq!(t.wait(q2), Err(Fail::TimedOut));
    assert_eq!(t.wait(QToken(999)), Err(Fail::InvalidArgument));
}

#[test]
fn connect_on_listener_is_refused() {
    let mut t = SocketTable::new();
    let qd = t.socket(SocketKind::Stream).unwrap();
    t.bind(qd, addr(1, 80)).unwrap();
    t.listen(qd, 1).unwrap();
    assert_eq!(t.connect(qd, addr(2, 80), QToken(1)), Err(Fail::AddressInUse));
    let u = t.socket(SocketKind::Datagram).unwrap();
    assert_eq!(t.connect(u, addr(2, 80), QToken(1)), Err(Fail::InvalidArgument));
    assert_eq!(t.connect(QDesc(9), addr(2, 80), QToken(1)), Err(Fail::BadDescriptor));
    let _ = SocketState::Unbound;
}

#[test]
fn udp_loopback_between_two_hosts() {
    let alice_addr = SocketAddrV4::from_octets(10, 0, 0, 1, 23456);
    let bob_addr = SocketAddrV4::from_octets(10, 0, 0, 2, 23456);
    let mut alice = UdpPeer::new(alice_addr.ip);
    let mut bob = UdpPeer::new(bob_addr.ip);
    alice.bind(alice_addr).unwrap();
    bob.bind(bob_addr).unwrap();
    let d: Datagram = alice.pushto(alice_addr, vec![0x5a; 32], bob_addr).unwrap().unwrap();
    assert!(bob.receive(d));
    let got = bob.pop(bob_addr).unwrap().unwrap();
    assert_eq!(got.src, alice_addr);
    assert_eq!(got.payload, vec![0x5a; 32]);
    let echo = bob.pushto(bob_addr, got.payload, got.src).unwrap().unwrap();
    assert!(alice.receive(echo));
    let back = alice.pop(alice_addr).unwrap().unwrap();
    assert_eq!(back.src, bob_addr);
    assert_eq!(back.payload, vec![0x5a; 32]);
}

#[test]
fn udp_push_to_self_round_trips() {
    let me = SocketAddrV4::from_octets(10, 0, 0, 1, 7);
    let mut host = UdpPeer::new(me.ip);
    host.bind(me).unwrap();
    assert!(host.pop(me).unwrap().is_none());
    assert!(host.pushto(me, vec![1, 2, 3], me).unwrap().is_none());
    let got = host.pop(me).unwrap().unwrap();
    assert_eq!((got.src, got.payload), (me, vec![1, 2, 3]));
}

#[test]
fn udp_errors() {
    let me = SocketAddrV4::from_octets(10, 0, 0, 1, 7);
    let mut host = UdpPeer::new(me.ip);
    assert_eq!(host.pushto(me, vec![1], me).unwrap_err(), Fail::NotConnected);
    assert_eq!(host.pop(me).unwrap_err(), Fail::BadDescriptor);
    host.bind(me).unwrap();
    assert_eq!(host.bind(me), Err(Fail::AddressInUse));
    let stray = Datagram { src: me, dst: SocketAddrV4::from_octets(10, 0, 0, 1, 8), payload: vec![1] };
    assert!(!host.receive(stray));
}

#[test]
fn reset_fails_pending_operations() {
    let mut t = SocketTable::new();
    let qd = t.socket(SocketKind::Stream).unwrap();
    let other = t.socket(SocketKind::Stream).unwrap();
    let (qt, keep) = (QToken(1), QToken(2));
    t.connect(qd, addr(2, 80), qt).unwrap();
    t.connect(other, addr(3, 80), keep).unwrap();
    t.fail_pending(qd, Fail::ConnectionReset);
    assert_eq!(t.wait(qt), Ok(Completion { qd, kind: OpKind::Connect, result: Err(Fail::ConnectionReset) }));
    assert_eq!(t.wait(keep), Err(Fail::TimedOut));
}

#[test]
fn push_needs_connected_stream() {
    let mut t = SocketTable::new();
    let qd = t.socket(SocketKind::Stream).unwrap();
    assert_eq!(t.start_io(qd, OpKind::Push, QToken(9)), Err(Fail::NotConnected));
    let qt = QToken(1);
    t.connect(qd, addr(2, 80), qt).unwrap();
    assert_eq!(t.connect_done(qd, true), Ok(()));
    t.complete(qt, Ok(OpValue::Done));
    assert_eq!(t.wait(qt), Ok(Completion { qd, kind: OpKind::Connect, result: Ok(OpValue::Done) }));
    t.start_io(qd, OpKind::Push, QToken(2)).unwrap();
    t.start_io(qd, OpKind::Pop, QToken(3)).unwrap();
    assert!(t.has_token(QToken(2)) && t.has_token(QToken(3)) && !t.has_token(QToken(1)));
    let u = t.socket(SocketKind::Datagram).unwrap();
    assert!(t.start_io(u, OpKind::Pop, QToken(4)).is_ok());
    assert_eq!(t.connect_done(u, true), Err(Fail::InvalidArgument));
}

#[test]
fn failed_handshake_unbinds() {
    let mut t = SocketTable::new();
    let qd = t.socket(SocketKind::Stream).unwrap();
    let qt = QToken(1);
    t.connect(qd, addr(2, 1), qt).unwrap();
    assert_eq!(t.connect_done(qd, false), Ok(()));
    t.complete(qt, Err(Fail::ConnectionRefused));
    assert_eq!(t.wait(qt), Ok(Completion { qd, kind: OpKind::Connect, result: Err(Fail::ConnectionRefused) }));
    assert_eq!(t.listen(qd, 1), Err(Fail::DestinationAddressRequired));
}

#[test]
fn refused_handshake_completes_connect_token() {
    let options = TcpOptions::new(1460, 65535).handshake_retries(3).handshake_timeout(100_000);
    let mut t = SocketTable::new();
    let qd = t.socket(SocketKind::Stream).unwrap();
    let qt = QToken(77);
    t.connect(qd, SocketAddrV4::from_octets(127, 0, 0, 1, 1), qt).unwrap();
    let (mut open, first) = ActiveOpen::new(1, &options);
    assert_eq!(t.finish_connect(qd, qt, first), Ok(()));
    assert_eq!(t.wait(qt), Err(Fail::TimedOut));
    let mut action = open.on_timeout();
    while action == OpenAction::SendSyn {
        assert_eq!(t.finish_connect(qd, qt, action), Ok(()));
        action = open.on_timeout();
    }
    assert_eq!(action, OpenAction::Refused);
    assert_eq!(t.finish_connect(qd, qt, action), Ok(()));
    assert_eq!(t.wait(qt), Ok(Completion { qd, kind: OpKind::Connect, result: Err(Fail::ConnectionRefused) }));
    assert_eq!(t.finish_connect(qd, qt, OpenAction::Refused), Err(Fail::InvalidArgument));
}

#[test]
fn established_handshake_connects_socket() {
    let mut t = SocketTable::new();
    let qd = t.socket(SocketKind::Stream).unwrap();
    t.connect(qd, addr(2, 80), QToken(5)).unwrap();
    assert_eq!(t.finish_connect(qd, QToken(5), OpenAction::Established), Ok(()));
    assert_eq!(t.wait(QToken(5)), Ok(Completion { qd, kind: OpKind::Connect, result: Ok(OpValue::Done) }));
    assert!(t.start_io(qd, OpKind::Push, QToken(6)).is_ok());
}
