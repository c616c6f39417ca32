use vstd::prelude::*;
use crate::fail::Fail;
use crate::queue::{QToken, SocketAddrV4};

verus! {

/// Times the client looks for the port number before it sends its request
/// again.
pub const MAX_ACK_RECEIVED_ATTEMPTS: usize = 1024;

/// The connection request, as its two bytes on the pipe.
pub const MAGIC_CONNECT_LO: u8 = 0x1b;
pub const MAGIC_CONNECT_HI: u8 = 0x00;

pub open spec fn magic_connect_bytes() -> Seq<u8> {
    seq![MAGIC_CONNECT_LO, MAGIC_CONNECT_HI]
}

/// How a push on a pipe completed.
#[derive(Clone, Copy, Debug, PartialEq, Eq, Structural)]
pub enum PushOutcome {
    Pushed,
    Failed(i32),
}

/// How a pop on a pipe completed.
#[derive(Debug)]
pub enum PopOutcome {
    Popped(Vec<u8>),
    Failed(i32),
}

/// What a step of the handshake asks its driver to do next.
#[derive(Debug, PartialEq, Eq)]
pub enum PipeAction {
    /// Nothing completed; poll again later.
    Wait,
    /// Client: push the connection request on the control pipe.
    SendRequest,
    /// Client: pop two bytes (the port number) from the control pipe.
    PopPort,
    /// Client: shut the control pipe, open the data pipe on this port and
    /// push the connection request on it.
    OpenDataPipe(u16),
    /// Server: create the data pipe and push these bytes (its port number)
    /// on the control pipe.
    CreateDataPipe(Vec<u8>),
    /// Server: the request was not valid; pop the control pipe again.
    RearmPop,
    /// Server: pop the two bytes of the client's request from the data pipe.
    PopRequest,
    /// The handshake is over.
    Finish(Result<SocketAddrV4, Fail>),
}

/// The bytes that carry a port number, low byte first.
pub open spec fn port_bytes(port: u16) -> Seq<u8> {
    seq![(port % 256) as u8, (port / 256) as u8]
}

/// The port number that two bytes carry, low byte first.
pub open spec fn port_of(b: Seq<u8>) -> u16 {
    (b[0] as nat + b[1] as nat * 256) as u16
}

/// The message that tells the client on which port the server listens.
pub fn send_port_number(port: u16) -> (r: Vec<u8>)
    ensures
        r@ == port_bytes(port),
{
    let mut v: Vec<u8> = Vec::new();
    v.push((port % 256) as u8);
    v.push((port / 256) as u8);
    assert(v@ =~= port_bytes(port));
    v
}

/// Reads the port number out of the server's answer; any length but two is
/// a failed handshake that the client may retry.
pub fn extract_port_number(bytes: &Vec<u8>) -> (r: Result<u16, Fail>)
    ensures
        bytes@.len() != 2 ==> r == Err::<u16, Fail>(Fail::WouldBlock),
        bytes@.len() == 2 ==> r == Ok::<u16, Fail>(port_of(bytes@)),
{
    if bytes.len() != 2 {
        return Err(Fail::WouldBlock);
    }
    Ok((bytes[0] as u16) + (bytes[1] as u16) * 256)
}

/// Reading the port back from its bytes gives the port.
pub proof fn lemma_port_round_trip(port: u16)
    ensures
        port_of(port_bytes(port)) == port,
{
}

/// Whether a message is the connection request.
pub fn is_magic_connect(bytes: &Vec<u8>) -> (r: bool)
    ensures
        r == (bytes@ == magic_connect_bytes()),
{
    let r = bytes.len() == 2 && bytes[0] == MAGIC_CONNECT_LO && bytes[1] == MAGIC_CONNECT_HI;
    proof {
        if bytes@.len() == 2 {
            if bytes@ == magic_connect_bytes() {
                assert(bytes@[0] == MAGIC_CONNECT_LO && bytes@[1] == MAGIC_CONNECT_HI);
            }
            if r {
                assert(bytes@ =~= magic_connect_bytes());
            }
        } else {
            assert(magic_connect_bytes().len() == 2);
        }
    }
    r
}

/// The connection request that the client sends.
pub fn cook_magic_connect() -> (r: Vec<u8>)
    ensures
        r@ == magic_connect_bytes(),
{
    let mut v: Vec<u8> = Vec::new();
    v.push(MAGIC_CONNECT_LO);
    v.push(MAGIC_CONNECT_HI);
    assert(v@ =~= magic_connect_bytes());
    v
}

/// Checks a completed pop on a pipe: an error is passed on, a message tells
/// whether it was the connection request.
pub fn check_connect_request(done: &PopOutcome) -> (r: Result<bool, Fail>)
    ensures
        match done {
            PopOutcome::Failed(e) => r == Err::<bool, Fail>(Fail::Other(*e)),
            PopOutcome::Popped(b) => r == Ok::<bool, Fail>(b@ == magic_connect_bytes()),
        },
{
    match done {
        PopOutcome::Failed(e) => Err(Fail::Other(*e)),
        PopOutcome::Popped(b) => Ok(is_magic_connect(b)),
    }
}

/// Client side of the pipe handshake.
#[allow(inconsistent_fields)]
#[derive(Clone, Copy, Debug, PartialEq, Eq, Structural)]
pub enum ClientState {
    InitiateConnectRequest { qt_rx: Option<QToken> },
    ConnectRequestSent { qt_tx: QToken, qt_rx: Option<QToken> },
    ConnectAckReceived { attempt: usize, qt_rx: QToken },
    Connected { qt_tx: QToken, remote: SocketAddrV4 },
}

/// A connect over shared-memory pipes, to the server on `ipv4`.
#[derive(Debug)]
pub struct ConnectFuture {
    pub ipv4: u32,
    pub state: ClientState,
}

impl ConnectFuture {
    /// A connect whose first step is to send the request.
    pub fn new(remote: SocketAddrV4) -> (r: ConnectFuture)
        ensures
            r.ipv4 == remote.ip,
            r.state == (ClientState::InitiateConnectRequest { qt_rx: None }),
    {
        ConnectFuture { ipv4: remote.ip, state: ClientState::InitiateConnectRequest { qt_rx: None } }
    }

    /// The request was pushed on the control pipe (token of the push), or
    /// the push failed.
    pub fn setup(&mut self, pushed: Result<QToken, Fail>) -> (r: PipeAction)
        requires
            old(self).state is InitiateConnectRequest,
        ensures
            final(self).ipv4 == old(self).ipv4,
            match pushed {
                Ok(qt_tx) => r == PipeAction::Wait && final(self).state == (ClientState::ConnectRequestSent {
                    qt_tx,
                    qt_rx: old(self).state->InitiateConnectRequest_qt_rx,
                }),
                Err(e) => r == PipeAction::Finish(Err(e)) && final(self).state == old(self).state,
            },
    {
        let qt_rx = match self.state {
            ClientState::InitiateConnectRequest { qt_rx } => qt_rx,
            _ => None,
        };
        match pushed {
            Ok(qt_tx) => {
                self.state = ClientState::ConnectRequestSent { qt_tx, qt_rx };
                PipeAction::Wait
            },
            Err(e) => PipeAction::Finish(Err(e)),
        }
    }

    /// The push of the request completed, or not yet. Once it has, the pop
    /// for the port number is reused if one is pending, else asked for.
    pub fn connect_request_sent(&mut self, done: Option<PushOutcome>) -> (r: PipeAction)
        requires
            old(self).state is ConnectRequestSent,
        ensures
            request_sent_post(*old(self), done, *final(self), r),
    {
        let qt_rx = match self.state {
            ClientState::ConnectRequestSent { qt_rx, .. } => qt_rx,
            _ => None,
        };
        match done {
            None => PipeAction::Wait,
            Some(PushOutcome::Failed(e)) => PipeAction::Finish(Err(Fail::Other(e))),
            Some(PushOutcome::Pushed) => match qt_rx {
                Some(q) => {
                    self.state = ClientState::ConnectAckReceived { attempt: 0, qt_rx: q };
                    PipeAction::Wait
                },
                None => PipeAction::PopPort,
            },
        }
    }

    /// The pop for the port number was issued (its token), or failed.
    pub fn port_pop_issued(&mut self, popped: Result<QToken, Fail>) -> (r: PipeAction)
        requires
            old(self).state is ConnectRequestSent,
        ensures
            final(self).ipv4 == old(self).ipv4,
            match popped {
                Ok(q) => r == PipeAction::Wait && final(self).state == (ClientState::ConnectAckReceived {
                    attempt: 0,
                    qt_rx: q,
                }),
                Err(e) => r == PipeAction::Finish(Err(e)) && final(self).state == old(self).state,
            },
    {
        match popped {
            Ok(q) => {
                self.state = ClientState::ConnectAckReceived { attempt: 0, qt_rx: q };
                PipeAction::Wait
            },
            Err(e) => PipeAction::Finish(Err(e)),
        }
    }

    /// The pop for the port number completed, or not yet. A port moves on
    /// to the data pipe; too long a wait sends the request again, keeping
    /// the pending pop.
    pub fn connect_ack_received(&mut self, done: Option<PopOutcome>) -> (r: PipeAction)
        requires
            old(self).state is ConnectAckReceived,
        ensures
            ack_received_post(*old(self), done, *final(self), r),
    {
        let (attempt, qt_rx) = match self.state {
            ClientState::ConnectAckReceived { attempt, qt_rx } => (attempt, qt_rx),
            _ => (0, QToken(0)),
        };
        match done {
            None => {
                if attempt > MAX_ACK_RECEIVED_ATTEMPTS {
                    self.state = ClientState::InitiateConnectRequest { qt_rx: Some(qt_rx) };
                } else {
                    self.state = ClientState::ConnectAckReceived { attempt: attempt + 1, qt_rx };
                }
                PipeAction::Wait
            },
            Some(PopOutcome::Failed(e)) => PipeAction::Finish(Err(Fail::Other(e))),
            Some(PopOutcome::Popped(b)) => match extract_port_number(&b) {
                Ok(port) => PipeAction::OpenDataPipe(port),
                Err(e) => PipeAction::Finish(Err(e)),
            },
        }
    }

    /// The data pipe on `port` was opened and the request pushed on it (its
    /// token), or one of those failed.
    pub fn data_pipe_opened(&mut self, port: u16, pushed: Result<QToken, Fail>) -> (r: PipeAction)
        requires
            old(self).state is ConnectAckReceived,
        ensures
            final(self).ipv4 == old(self).ipv4,
            match pushed {
                Ok(qt_tx) => r == PipeAction::Wait && final(self).state == (ClientState::Connected {
                    qt_tx,
                    remote: SocketAddrV4 { ip: old(self).ipv4, port },
                }),
                Err(e) => r == PipeAction::Finish(Err(e)) && final(self).state == old(self).state,
            },
    {
        match pushed {
            Ok(qt_tx) => {
                self.state = ClientState::Connected { qt_tx, remote: SocketAddrV4 { ip: self.ipv4, port } };
                PipeAction::Wait
            },
            Err(e) => PipeAction::Finish(Err(e)),
        }
    }

    /// The push of the request on the data pipe completed, or not yet.
    pub fn connected(&self, done: Option<PushOutcome>) -> (r: PipeAction)
        requires
            self.state is Connected,
        ensures
            client_connected_post(*self, done, r),
    {
        let remote = match self.state {
            ClientState::Connected { remote, .. } => remote,
            _ => SocketAddrV4 { ip: 0, port: 0 },
        };
        match done {
            None => PipeAction::Wait,
            Some(PushOutcome::Failed(e)) => PipeAction::Finish(Err(Fail::Other(e))),
            Some(PushOutcome::Pushed) => PipeAction::Finish(Ok(remote)),
        }
    }
}

/// Server side of the pipe handshake.
#[derive(Clone, Copy, Debug, PartialEq, Eq, Structural)]
pub enum ServerState {
    ListenAndAccept { qt_rx: QToken },
    Connect { qt_tx: QToken },
    Connected { qt_close: QToken, remote: SocketAddrV4 },
}

/// An accept over shared-memory pipes: one request at a time on the
/// control pipe, answered with the port of a fresh data pipe.
#[derive(Debug)]
pub struct AcceptFuture {
    pub ipv4: u32,
    pub new_port: u16,
    pub state: ServerState,
}

impl AcceptFuture {
    /// An accept whose first pop on the control pipe was issued (its token),
    /// or failed.
    pub fn new(ipv4: u32, new_port: u16, popped: Result<QToken, Fail>) -> (r: Result<AcceptFuture, Fail>)
        ensures
            match popped {
                Ok(qt_rx) => r is Ok && r->Ok_0.ipv4 == ipv4 && r->Ok_0.new_port == new_port
                    && r->Ok_0.state == (ServerState::ListenAndAccept { qt_rx }),
                Err(e) => r == Err::<AcceptFuture, Fail>(e),
            },
    {
        match popped {
            Ok(qt_rx) => Ok(AcceptFuture { ipv4, new_port, state: ServerState::ListenAndAccept { qt_rx } }),
            Err(e) => Err(e),
        }
    }

    /// A pop on the control pipe completed, or not yet. A valid request
    /// asks for the data pipe and the port message; an invalid one rearms
    /// the pop.
    pub fn listen_and_accept(&self, done: Option<PopOutcome>) -> (r: PipeAction)
        requires
            self.state is ListenAndAccept,
        ensures
            listen_post(*self, done, r),
    {
        match done {
            None => PipeAction::Wait,
            Some(d) => match check_connect_request(&d) {
                Ok(true) => PipeAction::CreateDataPipe(send_port_number(self.new_port)),
                Ok(false) => PipeAction::RearmPop,
                Err(e) => PipeAction::Finish(Err(e)),
            },
        }
    }

    /// The control pipe was popped again (its token), or that failed.
    pub fn rearmed(&mut self, popped: Result<QToken, Fail>) -> (r: PipeAction)
        requires
            old(self).state is ListenAndAccept,
        ensures
            final(self).ipv4 == old(self).ipv4,
            final(self).new_port == old(self).new_port,
            match popped {
                Ok(qt_rx) => r == PipeAction::Wait && final(self).state == (ServerState::ListenAndAccept { qt_rx }),
                Err(e) => r == PipeAction::Finish(Err(e)) && final(self).state == old(self).state,
            },
    {
        match popped {
            Ok(qt_rx) => {
                self.state = ServerState::ListenAndAccept { qt_rx };
                PipeAction::Wait
            },
            Err(e) => PipeAction::Finish(Err(e)),
        }
    }

    /// The data pipe was made and the port message pushed (its token), or
    /// one of those failed.
    pub fn port_sent(&mut self, pushed: Result<QToken, Fail>) -> (r: PipeAction)
        requires
            old(self).state is ListenAndAccept,
        ensures
            final(self).ipv4 == old(self).ipv4,
            final(self).new_port == old(self).new_port,
            match pushed {
                Ok(qt_tx) => r == PipeAction::Wait && final(self).state == (ServerState::Connect { qt_tx }),
                Err(e) => r == PipeAction::Finish(Err(e)) && final(self).state == old(self).state,
            },
    {
        match pushed {
            Ok(qt_tx) => {
                self.state = ServerState::Connect { qt_tx };
                PipeAction::Wait
            },
            Err(e) => PipeAction::Finish(Err(e)),
        }
    }

    /// The push of the port message completed, or not yet; once it has, the
    /// request is awaited on the data pipe.
    pub fn connect(&self, done: Option<PushOutcome>) -> (r: PipeAction)
        requires
            self.state is Connect,
        ensures
            port_pushed_post(done, r),
    {
        match done {
            None => PipeAction::Wait,
            Some(PushOutcome::Failed(e)) => PipeAction::Finish(Err(Fail::Other(e))),
            Some(PushOutcome::Pushed) => PipeAction::PopRequest,
        }
    }

    /// The pop of the request on the data pipe was issued (its token), or
    /// failed.
    pub fn request_pop_issued(&mut self, popped: Result<QToken, Fail>) -> (r: PipeAction)
        requires
            old(self).state is Connect,
        ensures
            final(self).ipv4 == old(self).ipv4,
            final(self).new_port == old(self).new_port,
            match popped {
                Ok(qt_close) => r == PipeAction::Wait && final(self).state == (ServerState::Connected {
                    qt_close,
                    remote: SocketAddrV4 { ip: old(self).ipv4, port: old(self).new_port },
                }),
                Err(e) => r == PipeAction::Finish(Err(e)) && final(self).state == old(self).state,
            },
    {
        match popped {
            Ok(qt_close) => {
                self.state = ServerState::Connected {
                    qt_close,
                    remote: SocketAddrV4 { ip: self.ipv4, port: self.new_port },
                };
                PipeAction::Wait
            },
            Err(e) => PipeAction::Finish(Err(e)),
        }
    }

    /// The request arrived on the data pipe, or not yet: the connection is
    /// accepted whatever the message held, unless the pop failed.
    pub fn connected(&self, done: Option<PopOutcome>) -> (r: PipeAction)
        requires
            self.state is Connected,
        ensures
            server_connected_post(*self, done, r),
    {
        let remote = match self.state {
            ServerState::Connected { remote, .. } => remote,
            _ => SocketAddrV4 { ip: 0, port: 0 },
        };
        match done {
            None => PipeAction::Wait,
            Some(d) => match check_connect_request(&d) {
                Ok(_) => PipeAction::Finish(Ok(remote)),
                Err(e) => PipeAction::Finish(Err(e)),
            },
        }
    }
}

/// What `ConnectFuture::connect_request_sent` does: once the request was
/// pushed, the pending pop for the port number is reused, else asked for.
pub open spec fn request_sent_post(f: ConnectFuture, done: Option<PushOutcome>, g: ConnectFuture, r: PipeAction) -> bool {
    &&& g.ipv4 == f.ipv4
    &&& match done {
        None => r == PipeAction::Wait && g.state == f.state,
        Some(PushOutcome::Failed(e)) => r == PipeAction::Finish(Err(Fail::Other(e))) && g.state == f.state,
        Some(PushOutcome::Pushed) => match f.state->ConnectRequestSent_qt_rx {
            Some(q) => r == PipeAction::Wait && g.state == (ClientState::ConnectAckReceived { attempt: 0, qt_rx: q }),
            None => r == PipeAction::PopPort && g.state == f.state,
        },
    }
}

/// What `ConnectFuture::connect_ack_received` does: a port moves on to the
/// data pipe; a wait longer than `MAX_ACK_RECEIVED_ATTEMPTS` polls sends
/// the request again, keeping the pending pop.
pub open spec fn ack_received_post(f: ConnectFuture, done: Option<PopOutcome>, g: ConnectFuture, r: PipeAction) -> bool {
    let attempt = f.state->ConnectAckReceived_attempt;
    let qt_rx = f.state->ConnectAckReceived_qt_rx;
    &&& g.ipv4 == f.ipv4
    &&& match done {
        None => r == PipeAction::Wait && if attempt > MAX_ACK_RECEIVED_ATTEMPTS {
            g.state == (ClientState::InitiateConnectRequest { qt_rx: Some(qt_rx) })
        } else {
            g.state == (ClientState::ConnectAckReceived { attempt: (attempt + 1) as usize, qt_rx })
        },
        Some(PopOutcome::Failed(e)) => r == PipeAction::Finish(Err(Fail::Other(e))) && g.state == f.state,
        Some(PopOutcome::Popped(b)) => g.state == f.state && if b@.len() == 2 {
            r == PipeAction::OpenDataPipe(port_of(b@))
        } else {
            r == PipeAction::Finish(Err(Fail::WouldBlock))
        },
    }
}

/// What `ConnectFuture::connected` does: the connection is up once the
/// request went out on the data pipe.
pub open spec fn client_connected_post(f: ConnectFuture, done: Option<PushOutcome>, r: PipeAction) -> bool {
    match done {
        None => r == PipeAction::Wait,
        Some(PushOutcome::Failed(e)) => r == PipeAction::Finish(Err(Fail::Other(e))),
        Some(PushOutcome::Pushed) => r == PipeAction::Finish(Ok(f.state->Connected_remote)),
    }
}

/// What `AcceptFuture::listen_and_accept` does: a valid request asks for
/// the data pipe and the port message; an invalid one rearms the pop.
pub open spec fn listen_post(a: AcceptFuture, done: Option<PopOutcome>, r: PipeAction) -> bool {
    match done {
        None => r == PipeAction::Wait,
        Some(PopOutcome::Failed(e)) => r == PipeAction::Finish(Err(Fail::Other(e))),
        Some(PopOutcome::Popped(b)) => if b@ == magic_connect_bytes() {
            r is CreateDataPipe && r->CreateDataPipe_0@ == port_bytes(a.new_port)
        } else {
            r == PipeAction::RearmPop
        },
    }
}

/// What `AcceptFuture::connect` does: once the port went out, the request
/// is awaited on the data pipe.
pub open spec fn port_pushed_post(done: Option<PushOutcome>, r: PipeAction) -> bool {
    match done {
        None => r == PipeAction::Wait,
        Some(PushOutcome::Failed(e)) => r == PipeAction::Finish(Err(Fail::Other(e))),
        Some(PushOutcome::Pushed) => r == PipeAction::PopRequest,
    }
}

/// What `AcceptFuture::connected` does: the connection is accepted once
/// anything arrives on the data pipe, unless the pop failed.
pub open spec fn server_connected_post(a: AcceptFuture, done: Option<PopOutcome>, r: PipeAction) -> bool {
    match done {
        None => r == PipeAction::Wait,
        Some(PopOutcome::Failed(e)) => r == PipeAction::Finish(Err(Fail::Other(e))),
        Some(PopOutcome::Popped(_)) => r == PipeAction::Finish(Ok(a.state->Connected_remote)),
    }
}

/// The completion of the operation that a handshake state waits on.
#[derive(Debug)]
pub enum PipeCompletion {
    Push(PushOutcome),
    Pop(PopOutcome),
}

pub open spec fn push_of(done: Option<PipeCompletion>) -> Option<PushOutcome> {
    match done {
        Some(PipeCompletion::Push(p)) => Some(p),
        _ => None,
    }
}

pub open spec fn pop_of(done: Option<PipeCompletion>) -> Option<PopOutcome> {
    match done {
        Some(PipeCompletion::Pop(p)) => Some(p),
        _ => None,
    }
}

fn take_push(done: Option<PipeCompletion>) -> (r: Option<PushOutcome>)
    ensures
        r == push_of(done),
{
    match done {
        Some(PipeCompletion::Push(p)) => Some(p),
        _ => None,
    }
}

fn take_pop(done: Option<PipeCompletion>) -> (r: Option<PopOutcome>)
    ensures
        r == pop_of(done),
{
    match done {
        Some(PipeCompletion::Pop(p)) => Some(p),
        _ => None,
    }
}

pub open spec fn is_push(done: Option<PipeCompletion>) -> bool {
    done is None || done->Some_0 is Push
}

pub open spec fn is_pop(done: Option<PipeCompletion>) -> bool {
    done is None || done->Some_0 is Pop
}

impl ConnectFuture {
    /// The kind of completion that the current state waits on.
    pub open spec fn expects(&self, done: Option<PipeCompletion>) -> bool {
        match self.state {
            ClientState::InitiateConnectRequest { .. } => done is None,
            ClientState::ConnectRequestSent { .. } => is_push(done),
            ClientState::ConnectAckReceived { .. } => is_pop(done),
            ClientState::Connected { .. } => is_push(done),
        }
    }

    /// Runs the step of the current state with the completion it waits on,
    /// if that completed. In the first state the request is yet to be sent.
    pub fn poll(&mut self, done: Option<PipeCompletion>) -> (r: PipeAction)
        requires
            old(self).expects(done),
        ensures
            match old(self).state {
                ClientState::InitiateConnectRequest { .. } => r == PipeAction::SendRequest && *final(self) == *old(self),
                ClientState::ConnectRequestSent { .. } => request_sent_post(*old(self), push_of(done), *final(self), r),
                ClientState::ConnectAckReceived { .. } => ack_received_post(*old(self), pop_of(done), *final(self), r),
                ClientState::Connected { .. } => client_connected_post(*old(self), push_of(done), r)
                    && *final(self) == *old(self),
            },
    {
        match self.state {
            ClientState::InitiateConnectRequest { .. } => PipeAction::SendRequest,
            ClientState::ConnectRequestSent { .. } => self.connect_request_sent(take_push(done)),
            ClientState::ConnectAckReceived { .. } => self.connect_ack_received(take_pop(done)),
            ClientState::Connected { .. } => self.connected(take_push(done)),
        }
    }
}

impl AcceptFuture {
    /// The kind of completion that the current state waits on.
    pub open spec fn expects(&self, done: Option<PipeCompletion>) -> bool {
        match self.state {
            ServerState::ListenAndAccept { .. } => is_pop(done),
            ServerState::Connect { .. } => is_push(done),
            ServerState::Connected { .. } => is_pop(done),
        }
    }

    /// Runs the step of the current state with the completion it waits on,
    /// if that completed.
    pub fn poll(&self, done: Option<PipeCompletion>) -> (r: PipeAction)
        requires
            self.expects(done),
        ensures
            match self.state {
                ServerState::ListenAndAccept { .. } => listen_post(*self, pop_of(done), r),
                ServerState::Connect { .. } => port_pushed_post(push_of(done), r),
                ServerState::Connected { .. } => server_connected_post(*self, pop_of(done), r),
            },
    {
        match self.state {
            ServerState::ListenAndAccept { .. } => self.listen_and_accept(take_pop(done)),
            ServerState::Connect { .. } => self.connect(take_push(done)),
            ServerState::Connected { .. } => self.connected(take_pop(done)),
        }
    }
}

} // verus!
