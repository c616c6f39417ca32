use demikernel_core::catloop::{
    check_connect_request, cook_magic_connect, extract_port_number, send_port_number, AcceptFuture, ClientState,
    ConnectFuture, PipeAction, PipeCompletion, PopOutcome, PushOutcome, ServerState,
};
use demikernel_core::fail::Fail;
use demikernel_core::pop::{PopFuture, PopPoll};
use demikernel_core::queue::{QDesc, QToken, SocketAddrV4};
use demikernel_core::ring::{SharedRingBuffer, EOF_CELL};

fn ring_with(bytes: &[u8], eof: bool) -> SharedRingBuffer {
    let mut ring = SharedRingBuffer::new(64);
    for b in bytes {
        assert!(ring.try_enqueue(*b as u16));
    }
    if eof {
        assert!(ring.try_enqueue(EOF_CELL));
    }
    ring
}

#[test]
fn pop_waits_on_empty_ring() {
    let mut ring = SharedRingBuffer::new(4);
    let pop = PopFuture::new(QDesc(3), None);
    assert_eq!(pop.get_qd(), QDesc(3));
    assert_eq!(pop.poll(&mut ring), PopPoll::Pending);
}

#[test]
fn pop_reads_up_to_size() {
    let mut ring = ring_with(&[1, 2, 3, 4, 5], false);
    let pop = PopFuture::new(QDesc(0), Some(2));
    assert_eq!(pop.poll(&mut ring), PopPoll::Ready(vec![1, 2], false));
    assert_eq!(pop.poll(&mut ring), PopPoll::Ready(vec![3, 4], false));
    assert_eq!(pop.poll(&mut ring), PopPoll::Ready(vec![5], false));
    assert_eq!(pop.poll(&mut ring), PopPoll::Pending);
}

#[test]
fn pop_stops_at_end_of_stream() {
    let mut ring = ring_with(&[9, 8], true);
    assert!(ring.try_enqueue(7));
    let pop = PopFuture::new(QDesc(0), None);
    assert_eq!(pop.poll(&mut ring), PopPoll::Ready(vec![9, 8], true));
    assert_eq!(pop.poll(&mut ring), PopPoll::Ready(vec![7], false));
}

#[test]
fn pop_end_marker_alone() {
    let mut ring = ring_with(&[], true);
    let pop = PopFuture::new(QDesc(0), Some(10));
    assert_eq!(pop.poll(&mut ring), PopPoll::Ready(vec![], true));
}

#[test]
fn ring_refuses_when_full() {
    let mut ring = SharedRingBuffer::new(1);
    assert!(ring.try_enqueue(1));
    assert!(!ring.try_enqueue(2));
    assert_eq!(ring.try_dequeue(), Some(1));
    assert_eq!(ring.try_dequeue(), None);
}

#[test]
fn port_number_round_trip() {
    let bytes = send_port_number(0x1234);
    assert_eq!(bytes, vec![0x34, 0x12]);
    assert_eq!(extract_port_number(&bytes), Ok(0x1234));
}

#[test]
fn port_number_of_wrong_length_fails() {
    assert_eq!(extract_port_number(&vec![1, 2, 3]), Err(Fail::WouldBlock));
    assert_eq!(extract_port_number(&vec![]), Err(Fail::WouldBlock));
}

#[test]
fn connect_request_is_checked() {
    assert_eq!(check_connect_request(&PopOutcome::Popped(cook_magic_connect())), Ok(true));
    assert_eq!(check_connect_request(&PopOutcome::Popped(vec![0x1b])), Ok(false));
    assert_eq!(check_connect_request(&PopOutcome::Popped(vec![0, 0x1b])), Ok(false));
    assert_eq!(check_connect_request(&PopOutcome::Failed(104)), Err(Fail::Other(104)));
}

#[test]
fn pipe_handshake_end_to_end() {
    let server_ip = SocketAddrV4::from_octets(10, 0, 0, 1, 0).ip;
    let mut client = ConnectFuture::new(SocketAddrV4::new(server_ip, 80));
    let mut server = AcceptFuture::new(server_ip, 4000, Ok(QToken(1))).unwrap();
    assert_eq!(server.state, ServerState::ListenAndAccept { qt_rx: QToken(1) });

    // Client sends its request.
    assert_eq!(client.setup(Ok(QToken(10))), PipeAction::Wait);
    assert_eq!(client.connect_request_sent(None), PipeAction::Wait);
    assert_eq!(client.connect_request_sent(Some(PushOutcome::Pushed)), PipeAction::PopPort);
    assert_eq!(client.port_pop_issued(Ok(QToken(11))), PipeAction::Wait);
    assert_eq!(client.state, ClientState::ConnectAckReceived { attempt: 0, qt_rx: QToken(11) });

    // Server checks it and answers with its port.
    let action = server.listen_and_accept(Some(PopOutcome::Popped(cook_magic_connect())));
    let port_msg = match action {
        PipeAction::CreateDataPipe(bytes) => bytes,
        other => panic!("unexpected {:?}", other),
    };
    assert_eq!(server.port_sent(Ok(QToken(2))), PipeAction::Wait);
    assert_eq!(server.connect(Some(PushOutcome::Pushed)), PipeAction::PopRequest);
    assert_eq!(server.request_pop_issued(Ok(QToken(3))), PipeAction::Wait);

    // Client reads the port and opens the data pipe.
    assert_eq!(client.connect_ack_received(Some(PopOutcome::Popped(port_msg))), PipeAction::OpenDataPipe(4000));
    assert_eq!(client.data_pipe_opened(4000, Ok(QToken(12))), PipeAction::Wait);
    let remote = SocketAddrV4::new(server_ip, 4000);
    assert_eq!(client.connected(Some(PushOutcome::Pushed)), PipeAction::Finish(Ok(remote)));
    assert_eq!(server.connected(Some(PopOutcome::Popped(cook_magic_connect()))), PipeAction::Finish(Ok(remote)));
}

#[test]
fn invalid_request_rearms_listen_pop() {
    let mut server = AcceptFuture::new(1, 5000, Ok(QToken(1))).unwrap();
    assert_eq!(server.listen_and_accept(Some(PopOutcome::Popped(vec![1, 2]))), PipeAction::RearmPop);
    assert_eq!(server.rearmed(Ok(QToken(7))), PipeAction::Wait);
    assert_eq!(server.state, ServerState::ListenAndAccept { qt_rx: QToken(7) });
    assert_eq!(server.listen_and_accept(None), PipeAction::Wait);
}

#[test]
fn accept_fails_when_first_pop_fails() {
    assert_eq!(AcceptFuture::new(1, 5000, Err(Fail::BadDescriptor)).unwrap_err(), Fail::BadDescriptor);
}

#[test]
fn client_retries_after_too_many_polls() {
    let mut client = ConnectFuture::new(SocketAddrV4::new(1, 1));
    client.state = ClientState::ConnectAckReceived { attempt: 0, qt_rx: QToken(5) };
    for _ in 0..1025 {
        assert_eq!(client.connect_ack_received(None), PipeAction::Wait);
    }
    assert_eq!(client.state, ClientState::ConnectAckReceived { attempt: 1025, qt_rx: QToken(5) });
    assert_eq!(client.connect_ack_received(None), PipeAction::Wait);
    assert_eq!(client.state, ClientState::InitiateConnectRequest { qt_rx: Some(QToken(5)) });
    // The pending pop is reused once the request goes out again.
    assert_eq!(client.setup(Ok(QToken(6))), PipeAction::Wait);
    assert_eq!(client.connect_request_sent(Some(PushOutcome::Pushed)), PipeAction::Wait);
    assert_eq!(client.state, ClientState::ConnectAckReceived { attempt: 0, qt_rx: QToken(5) });
}

#[test]
fn client_reports_pipe_errors() {
    let mut client = ConnectFuture::new(SocketAddrV4::new(1, 1));
    assert_eq!(client.setup(Err(Fail::ResourceExhausted)), PipeAction::Finish(Err(Fail::ResourceExhausted)));
    assert_eq!(client.setup(Ok(QToken(1))), PipeAction::Wait);
    assert_eq!(client.connect_request_sent(Some(PushOutcome::Failed(32))), PipeAction::Finish(Err(Fail::Other(32))));
    client.state = ClientState::ConnectAckReceived { attempt: 0, qt_rx: QToken(5) };
    assert_eq!(client.connect_ack_received(Some(PopOutcome::Popped(vec![1]))), PipeAction::Finish(Err(Fail::WouldBlock)));
}

#[test]
fn poll_dispatches_on_state() {
    let mut c = ConnectFuture::new(SocketAddrV4::new(1, 9));
    assert_eq!(c.poll(None), PipeAction::SendRequest);
    assert_eq!(c.setup(Ok(QToken(1))), PipeAction::Wait);
    assert_eq!(c.poll(None), PipeAction::Wait);
    assert_eq!(c.poll(Some(PipeCompletion::Push(PushOutcome::Pushed))), PipeAction::PopPort);
    assert_eq!(c.port_pop_issued(Ok(QToken(2))), PipeAction::Wait);
    let answer = PipeCompletion::Pop(PopOutcome::Popped(vec![0x10, 0x00]));
    assert_eq!(c.poll(Some(answer)), PipeAction::OpenDataPipe(16));
    assert_eq!(c.data_pipe_opened(16, Ok(QToken(3))), PipeAction::Wait);
    let done = PipeCompletion::Push(PushOutcome::Pushed);
    assert_eq!(c.poll(Some(done)), PipeAction::Finish(Ok(SocketAddrV4::new(1, 16))));

    let mut s = AcceptFuture::new(1, 16, Ok(QToken(4))).unwrap();
    assert_eq!(s.poll(None), PipeAction::Wait);
    assert_eq!(s.poll(Some(PipeCompletion::Pop(PopOutcome::Failed(5)))), PipeAction::Finish(Err(Fail::Other(5))));
    let request = PipeCompletion::Pop(PopOutcome::Popped(cook_magic_connect()));
    assert_eq!(s.poll(Some(request)), PipeAction::CreateDataPipe(vec![0x10, 0x00]));
    assert_eq!(s.port_sent(Ok(QToken(5))), PipeAction::Wait);
    assert_eq!(s.poll(Some(PipeCompletion::Push(PushOutcome::Failed(32)))), PipeAction::Finish(Err(Fail::Other(32))));
}

#[test]
fn pop_of_zero_bytes_waits_for_data() {
    let mut ring = ring_with(&[1, 2], false);
    let pop = PopFuture::new(QDesc(0), Some(0));
    assert_eq!(pop.poll(&mut ring), PopPoll::Ready(vec![], false));
    let mut empty = SharedRingBuffer::new(2);
    assert_eq!(pop.poll(&mut empty), PopPoll::Pending);
    let all = PopFuture::new(QDesc(0), None);
    assert_eq!(all.poll(&mut ring), PopPoll::Ready(vec![1, 2], false));
}
