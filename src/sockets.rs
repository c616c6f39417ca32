use vstd::prelude::*;
use crate::fail::Fail;
use crate::handshake::OpenAction;
use crate::queue::{QDesc, QToken, SocketAddrV4};

verus! {

/// Largest accept backlog; larger requests are capped to it.
pub const MAX_BACKLOG: usize = 4096;

#[derive(Clone, Copy, Debug, PartialEq, Eq, Structural)]
pub enum SocketKind {
    Stream,
    Datagram,
}

/// Where a socket stands.
#[derive(Clone, Copy, Debug, PartialEq, Eq, Structural)]
pub enum SocketState {
    Unbound,
    Bound { local: SocketAddrV4 },
    Listening { local: SocketAddrV4, backlog: usize },
    Connecting { remote: SocketAddrV4 },
    Connected { remote: SocketAddrV4 },
}

#[derive(Clone, Copy, Debug, PartialEq, Eq, Structural)]
pub struct Socket {
    pub kind: SocketKind,
    pub state: SocketState,
}

#[derive(Clone, Copy, Debug, PartialEq, Eq, Structural)]
pub enum OpKind {
    Connect,
    Accept,
    Push,
    Pop,
}

/// What a finished operation yields.
#[derive(Clone, Copy, Debug, PartialEq, Eq, Structural)]
pub enum OpValue {
    Done,
    Accepted { qd: QDesc, remote: SocketAddrV4 },
}

#[derive(Clone, Copy, Debug, PartialEq, Eq)]
pub enum OpStatus {
    Pending,
    Finished(Result<OpValue, Fail>),
}

/// An operation in flight, named by its token.
#[derive(Clone, Copy, Debug, PartialEq, Eq)]
pub struct Operation {
    pub qt: QToken,
    pub qd: QDesc,
    pub kind: OpKind,
    pub status: OpStatus,
}

/// What `wait` hands back: the operation's descriptor, kind and result.
#[derive(Clone, Copy, Debug, PartialEq, Eq)]
pub struct Completion {
    pub qd: QDesc,
    pub kind: OpKind,
    pub result: Result<OpValue, Fail>,
}

/// The descriptor table, the live operations, and the next token.
pub struct TableView {
    pub sockets: Seq<Option<Socket>>,
    pub ops: Seq<Operation>,
}

impl TableView {
    pub open spec fn is_open(self, qd: QDesc) -> bool {
        qd.0 < self.sockets.len() && self.sockets[qd.0 as int] is Some
    }

    pub open spec fn socket(self, qd: QDesc) -> Socket {
        self.sockets[qd.0 as int]->Some_0
    }

    pub open spec fn with_socket(self, qd: QDesc, s: Socket) -> TableView {
        TableView { sockets: self.sockets.update(qd.0 as int, Some(s)), ..self }
    }

    /// Some operation is under token `qt`.
    pub open spec fn has_token(self, qt: QToken) -> bool {
        exists|i: int| 0 <= i < self.ops.len() && (#[trigger] self.ops[i]).qt == qt
    }

    /// A new pending operation under token `qt`.
    pub open spec fn with_op(self, qd: QDesc, kind: OpKind, qt: QToken) -> TableView {
        TableView { ops: self.ops.push(Operation { qt, qd, kind, status: OpStatus::Pending }), ..self }
    }
}

/// The backlog that `listen(_, backlog)` gives: at least one, at most
/// `MAX_BACKLOG`.
pub open spec fn effective_backlog(backlog: usize) -> usize {
    if backlog == 0 {
        1
    } else if backlog > MAX_BACKLOG {
        MAX_BACKLOG
    } else {
        backlog
    }
}

/// What `listen` does.
pub open spec fn listen_result(t: TableView, qd: QDesc, backlog: usize) -> (TableView, Result<(), Fail>) {
    if !t.is_open(qd) {
        (t, Err(Fail::BadDescriptor))
    } else {
        match t.socket(qd).state {
            SocketState::Unbound => (t, Err(Fail::DestinationAddressRequired)),
            SocketState::Bound { local } => (
                t.with_socket(
                    qd,
                    Socket { state: SocketState::Listening { local, backlog: effective_backlog(backlog) }, ..t.socket(qd) },
                ),
                Ok(()),
            ),
            _ => (t, Err(Fail::AddressInUse)),
        }
    }
}

/// Some open socket of `kind` other than `qd` is bound to `addr`.
pub open spec fn addr_taken(t: TableView, qd: QDesc, kind: SocketKind, addr: SocketAddrV4) -> bool {
    exists|i: int|
        0 <= i < t.sockets.len() && i != qd.0 && #[trigger] t.sockets[i] is Some && t.sockets[i]->Some_0.kind == kind
            && local_of(t.sockets[i]->Some_0.state) == Some(addr)
}

pub open spec fn local_of(s: SocketState) -> Option<SocketAddrV4> {
    match s {
        SocketState::Bound { local } => Some(local),
        SocketState::Listening { local, .. } => Some(local),
        _ => None,
    }
}

/// What `bind` does.
pub open spec fn bind_result(t: TableView, qd: QDesc, addr: SocketAddrV4) -> (TableView, Result<(), Fail>) {
    if !t.is_open(qd) {
        (t, Err(Fail::BadDescriptor))
    } else if !(t.socket(qd).state is Unbound) {
        (t, Err(Fail::InvalidArgument))
    } else if addr_taken(t, qd, t.socket(qd).kind, addr) {
        (t, Err(Fail::AddressInUse))
    } else {
        (t.with_socket(qd, Socket { state: SocketState::Bound { local: addr }, ..t.socket(qd) }), Ok(()))
    }
}

/// The operations after each pending one of `qd` finishes with `f`.
pub open spec fn failed_ops(ops: Seq<Operation>, qd: QDesc, f: Fail) -> Seq<Operation> {
    Seq::new(
        ops.len(),
        |i: int|
            if ops[i].qd == qd && ops[i].status is Pending {
                Operation { status: OpStatus::Finished(Err(f)), ..ops[i] }
            } else {
                ops[i]
            },
    )
}

/// The operations after the pending one under `qt` finishes with `result`.
pub open spec fn completed_ops(ops: Seq<Operation>, qt: QToken, result: Result<OpValue, Fail>) -> Seq<Operation> {
    Seq::new(
        ops.len(),
        |i: int|
            if ops[i].qt == qt && ops[i].status is Pending {
                Operation { status: OpStatus::Finished(result), ..ops[i] }
            } else {
                ops[i]
            },
    )
}

/// What the end of a connect's handshake does: an established connection
/// connects the socket and completes the token; a refused one unbinds the
/// socket and completes the token with connection-refused. Other steps of
/// the handshake change nothing.
pub open spec fn finish_connect_result(t: TableView, qd: QDesc, qt: QToken, action: OpenAction) -> (
    TableView,
    Result<(), Fail>,
) {
    if !(action is Established || action is Refused) {
        (t, Ok(()))
    } else if !(t.is_open(qd) && t.socket(qd).state is Connecting) {
        (t, Err(Fail::InvalidArgument))
    } else {
        let ok = action is Established;
        let state = if ok {
            SocketState::Connected { remote: t.socket(qd).state->Connecting_remote }
        } else {
            SocketState::Unbound
        };
        let result = if ok { Ok(OpValue::Done) } else { Err(Fail::ConnectionRefused) };
        (
            TableView {
                sockets: t.with_socket(qd, Socket { state, ..t.socket(qd) }).sockets,
                ops: completed_ops(t.ops, qt, result),
            },
            Ok(()),
        )
    }
}

/// Why a connect on `qd` cannot start, if it cannot.
pub open spec fn connect_error(t: TableView, qd: QDesc) -> Option<Fail> {
    if !t.is_open(qd) {
        Some(Fail::BadDescriptor)
    } else if t.socket(qd).kind != SocketKind::Stream {
        Some(Fail::InvalidArgument)
    } else if !(t.socket(qd).state is Unbound || t.socket(qd).state is Bound) {
        Some(Fail::AddressInUse)
    } else {
        None
    }
}

/// What `close` does: the descriptor is freed and each of its pending
/// operations finishes as cancelled.
pub open spec fn close_result(t: TableView, qd: QDesc) -> (TableView, Result<(), Fail>) {
    if !t.is_open(qd) {
        (t, Err(Fail::BadDescriptor))
    } else {
        (
            TableView {
                sockets: t.sockets.update(qd.0 as int, None),
                ops: failed_ops(t.ops, qd, Fail::Cancelled),
                ..t
            },
            Ok(()),
        )
    }
}

/// The host-facing queue layer: descriptors, their sockets, and the
/// operations under their tokens.
pub struct SocketTable {
    sockets: Vec<Option<Socket>>,
    ops: Vec<Operation>,
}

impl View for SocketTable {
    type V = TableView;

    closed spec fn view(&self) -> TableView {
        TableView { sockets: self.sockets@, ops: self.ops@ }
    }
}

impl SocketTable {
    /// No two operations share a token.
    pub closed spec fn wf(&self) -> bool {
        &&& self.sockets.len() <= u32::MAX
        &&& forall|i: int, j: int| 0 <= i < j < self.ops.len() ==> (#[trigger] self.ops[i]).qt.0 != (#[trigger] self.ops[j]).qt.0
    }

    pub fn new() -> (r: SocketTable)
        ensures
            r.wf(),
            r@.sockets.len() == 0,
            r@.ops.len() == 0,
    {
        SocketTable { sockets: Vec::new(), ops: Vec::new() }
    }

    /// No two live operations share a token.
    pub proof fn lemma_tokens_unique(&self, i: int, j: int)
        requires
            self.wf(),
            0 <= i < self@.ops.len(),
            0 <= j < self@.ops.len(),
            i != j,
        ensures
            self@.ops[i].qt != self@.ops[j].qt,
    {
        if i < j {
            assert(self.ops[i].qt.0 != self.ops[j].qt.0);
        } else {
            assert(self.ops[j].qt.0 != self.ops[i].qt.0);
        }
    }

    /// Opens a socket on the lowest free descriptor.
    pub fn socket(&mut self, kind: SocketKind) -> (r: Result<QDesc, Fail>)
        requires
            old(self).wf(),
        ensures
            final(self).wf(),
            final(self)@.ops == old(self)@.ops,
            r is Ok ==> {
                let qd = r->Ok_0;
                &&& !old(self)@.is_open(qd)
                &&& forall|i: int| 0 <= i < qd.0 ==> #[trigger] old(self)@.sockets[i] is Some
                &&& final(self)@.is_open(qd)
                &&& final(self)@.socket(qd) == (Socket { kind, state: SocketState::Unbound })
                &&& forall|q: QDesc| q != qd ==> (#[trigger] final(self)@.is_open(q) == old(self)@.is_open(q)
                    && (old(self)@.is_open(q) ==> final(self)@.socket(q) == old(self)@.socket(q)))
            },
            r is Err ==> r == Err::<QDesc, Fail>(Fail::ResourceExhausted) && final(self)@ == old(self)@
                && old(self)@.sockets.len() == u32::MAX,
    {
        let n = self.sockets.len();
        let mut i: usize = 0;
        while i < n
            invariant
                n == self.sockets.len(),
                i <= n,
                self@ == old(self)@,
                self.wf(),
                forall|j: int| 0 <= j < i ==> #[trigger] self.sockets[j] is Some,
            decreases n - i,
        {
            if self.sockets[i].is_none() {
                self.sockets.set(i, Some(Socket { kind, state: SocketState::Unbound }));
                let qd = QDesc(i as u32);
                proof {
                    assert forall|q: QDesc| q != qd implies (#[trigger] self@.is_open(q) == old(self)@.is_open(q)
                        && (old(self)@.is_open(q) ==> self@.socket(q) == old(self)@.socket(q))) by {
                        if q.0 < n {
                            assert(q.0 != i);
                        }
                    }
                }
                return Ok(qd);
            }
            i = i + 1;
        }
        if n >= u32::MAX as usize {
            return Err(Fail::ResourceExhausted);
        }
        self.sockets.push(Some(Socket { kind, state: SocketState::Unbound }));
        let qd = QDesc(n as u32);
        proof {
            assert forall|q: QDesc| q != qd implies (#[trigger] self@.is_open(q) == old(self)@.is_open(q)
                && (old(self)@.is_open(q) ==> self@.socket(q) == old(self)@.socket(q))) by {
                if q.0 < n {
                    assert(self.sockets[q.0 as int] == old(self).sockets[q.0 as int]);
                }
            }
            assert(self@.ops == old(self)@.ops);
        }
        Ok(qd)
    }

    fn get(&self, qd: QDesc) -> (r: Option<Socket>)
        ensures
            self@.is_open(qd) ==> r == Some(self@.socket(qd)),
            !self@.is_open(qd) ==> r is None,
    {
        if (qd.0 as usize) < self.sockets.len() {
            self.sockets[qd.0 as usize]
        } else {
            None
        }
    }

    fn put(&mut self, qd: QDesc, s: Socket)
        requires
            old(self).wf(),
            old(self)@.is_open(qd),
        ensures
            final(self).wf(),
            final(self)@ == old(self)@.with_socket(qd, s),
    {
        self.sockets.set(qd.0 as usize, Some(s));
    }

    /// Binds a socket to a local address.
    pub fn bind(&mut self, qd: QDesc, addr: SocketAddrV4) -> (r: Result<(), Fail>)
        requires
            old(self).wf(),
        ensures
            final(self).wf(),
            (final(self)@, r) == bind_result(old(self)@, qd, addr),
    {
        let s = match self.get(qd) {
            None => return Err(Fail::BadDescriptor),
            Some(s) => s,
        };
        match s.state {
            SocketState::Unbound => {},
            _ => return Err(Fail::InvalidArgument),
        }
        let n = self.sockets.len();
        let mut i: usize = 0;
        while i < n
            invariant
                n == self.sockets.len(),
                i <= n,
                self@ == old(self)@,
                self.wf(),
                old(self)@.is_open(qd),
                s == old(self)@.socket(qd),
                s.state is Unbound,
                forall|j: int|
                    0 <= j < i && j != qd.0 && #[trigger] self.sockets[j] is Some ==> !(self.sockets[j]->Some_0.kind
                        == s.kind && local_of(self.sockets[j]->Some_0.state) == Some(addr)),
            decreases n - i,
        {
            if i != qd.0 as usize {
                match self.sockets[i] {
                    Some(o) => {
                        let local = match o.state {
                            SocketState::Bound { local } => Some(local),
                            SocketState::Listening { local, .. } => Some(local),
                            _ => None,
                        };
                        let same_kind = match (o.kind, s.kind) {
                            (SocketKind::Stream, SocketKind::Stream) => true,
                            (SocketKind::Datagram, SocketKind::Datagram) => true,
                            _ => false,
                        };
                        match local {
                            Some(l) => {
                                if same_kind && l.ip == addr.ip && l.port == addr.port {
                                    proof {
                                        assert(self.sockets[i as int] == Some(o));
                                        assert(l == addr);
                                        assert(local_of(o.state) == Some(addr));
                                        assert(o.kind == s.kind);
                                        assert(self@.sockets[i as int] is Some);
                                        assert(addr_taken(old(self)@, qd, s.kind, addr));
                                    }
                                    return Err(Fail::AddressInUse);
                                }
                            },
                            None => {},
                        }
                    },
                    None => {},
                }
            }
            i = i + 1;
        }
        proof {
            assert(!addr_taken(old(self)@, qd, s.kind, addr)) by {
                if addr_taken(old(self)@, qd, s.kind, addr) {
                    let j = choose|j: int|
                        0 <= j < old(self)@.sockets.len() && j != qd.0 && #[trigger] old(self)@.sockets[j] is Some
                            && old(self)@.sockets[j]->Some_0.kind == s.kind && local_of(
                            old(self)@.sockets[j]->Some_0.state,
                        ) == Some(addr);
                    assert(self.sockets[j] is Some);
                }
            }
        }
        self.put(qd, Socket { state: SocketState::Bound { local: addr }, ..s });
        Ok(())
    }

    /// Turns a bound socket into a listener.
    pub fn listen(&mut self, qd: QDesc, backlog: usize) -> (r: Result<(), Fail>)
        requires
            old(self).wf(),
        ensures
            final(self).wf(),
            (final(self)@, r) == listen_result(old(self)@, qd, backlog),
    {
        let s = match self.get(qd) {
            None => return Err(Fail::BadDescriptor),
            Some(s) => s,
        };
        match s.state {
            SocketState::Unbound => Err(Fail::DestinationAddressRequired),
            SocketState::Bound { local } => {
                let b = if backlog == 0 { 1 } else if backlog > MAX_BACKLOG { MAX_BACKLOG } else { backlog };
                self.put(qd, Socket { state: SocketState::Listening { local, backlog: b }, ..s });
                Ok(())
            },
            _ => Err(Fail::AddressInUse),
        }
    }

    /// Whether an operation is under token `qt`.
    pub fn has_token(&self, qt: QToken) -> (r: bool)
        ensures
            r == self@.has_token(qt),
    {
        let mut i: usize = 0;
        while i < self.ops.len()
            invariant
                i <= self.ops.len(),
                forall|j: int| 0 <= j < i ==> (#[trigger] self.ops@[j]).qt != qt,
            decreases self.ops.len() - i,
        {
            if self.ops[i].qt.0 == qt.0 {
                assert(self@.ops[i as int].qt == qt);
                return true;
            }
            i = i + 1;
        }
        false
    }

    fn add_op(&mut self, qd: QDesc, kind: OpKind, qt: QToken)
        requires
            old(self).wf(),
            !old(self)@.has_token(qt),
        ensures
            final(self).wf(),
            final(self)@ == old(self)@.with_op(qd, kind, qt),
    {
        self.ops.push(Operation { qt, qd, kind, status: OpStatus::Pending });
        proof {
            assert forall|i: int, j: int| 0 <= i < j < self.ops.len() implies (#[trigger] self.ops[i]).qt.0
                != (#[trigger] self.ops[j]).qt.0 by {
                if j < old(self).ops.len() {
                    assert(old(self).ops[i] == self.ops[i] && old(self).ops[j] == self.ops[j]);
                } else {
                    assert(old(self).ops[i] == self.ops[i]);
                    assert(old(self)@.ops[i].qt != qt);
                }
            }
        }
    }

    /// Starts a connect on a stream socket under token `qt` (the raw form
    /// of its step's handle); the token completes when the handshake ends.
    pub fn connect(&mut self, qd: QDesc, remote: SocketAddrV4, qt: QToken) -> (r: Result<(), Fail>)
        requires
            old(self).wf(),
            !old(self)@.has_token(qt),
        ensures
            final(self).wf(),
            !old(self)@.is_open(qd) ==> r == Err::<(), Fail>(Fail::BadDescriptor) && final(self)@ == old(self)@,
            old(self)@.is_open(qd) && old(self)@.socket(qd).kind != SocketKind::Stream
                ==> r == Err::<(), Fail>(Fail::InvalidArgument) && final(self)@ == old(self)@,
            old(self)@.is_open(qd) && old(self)@.socket(qd).kind == SocketKind::Stream && !(old(self)@.socket(qd).state is Unbound
                || old(self)@.socket(qd).state is Bound) ==> r == Err::<(), Fail>(Fail::AddressInUse)
                && final(self)@ == old(self)@,
            old(self)@.is_open(qd) && old(self)@.socket(qd).kind == SocketKind::Stream && (old(self)@.socket(qd).state is Unbound
                || old(self)@.socket(qd).state is Bound) ==> r == Ok::<(), Fail>(()) && final(self)@ == old(self)@.with_socket(
                qd,
                Socket { kind: SocketKind::Stream, state: SocketState::Connecting { remote } },
            ).with_op(qd, OpKind::Connect, qt),
    {
        let s = match self.get(qd) {
            None => return Err(Fail::BadDescriptor),
            Some(s) => s,
        };
        match s.kind {
            SocketKind::Stream => {},
            SocketKind::Datagram => return Err(Fail::InvalidArgument),
        }
        match s.state {
            SocketState::Unbound => {},
            SocketState::Bound { .. } => {},
            _ => return Err(Fail::AddressInUse),
        }
        self.put(qd, Socket { kind: SocketKind::Stream, state: SocketState::Connecting { remote } });
        self.add_op(qd, OpKind::Connect, qt);
        Ok(())
    }

    /// Whether a connect on `qd` may start: an open stream socket that is
    /// unbound or bound; the errors are those of `connect`.
    pub fn can_connect(&self, qd: QDesc) -> (r: Result<(), Fail>)
        ensures
            r == match connect_error(self@, qd) {
                Some(e) => Err::<(), Fail>(e),
                None => Ok::<(), Fail>(()),
            },
    {
        let s = match self.get(qd) {
            None => return Err(Fail::BadDescriptor),
            Some(s) => s,
        };
        match s.kind {
            SocketKind::Stream => {},
            SocketKind::Datagram => return Err(Fail::InvalidArgument),
        }
        match s.state {
            SocketState::Unbound => Ok(()),
            SocketState::Bound { .. } => Ok(()),
            _ => Err(Fail::AddressInUse),
        }
    }

    /// Starts an accept on a listener under token `qt`.
    pub fn accept(&mut self, qd: QDesc, qt: QToken) -> (r: Result<(), Fail>)
        requires
            old(self).wf(),
            !old(self)@.has_token(qt),
        ensures
            final(self).wf(),
            !old(self)@.is_open(qd) ==> r == Err::<(), Fail>(Fail::BadDescriptor) && final(self)@ == old(self)@,
            old(self)@.is_open(qd) && !(old(self)@.socket(qd).state is Listening)
                ==> r == Err::<(), Fail>(Fail::InvalidArgument) && final(self)@ == old(self)@,
            old(self)@.is_open(qd) && old(self)@.socket(qd).state is Listening ==> r == Ok::<(), Fail>(())
                && final(self)@ == old(self)@.with_op(qd, OpKind::Accept, qt),
    {
        let s = match self.get(qd) {
            None => return Err(Fail::BadDescriptor),
            Some(s) => s,
        };
        match s.state {
            SocketState::Listening { .. } => {
                self.add_op(qd, OpKind::Accept, qt);
                Ok(())
            },
            _ => Err(Fail::InvalidArgument),
        }
    }

    /// Starts a push or a pop on an open descriptor. A stream socket must
    /// be connected.
    pub fn start_io(&mut self, qd: QDesc, kind: OpKind, qt: QToken) -> (r: Result<(), Fail>)
        requires
            old(self).wf(),
            !old(self)@.has_token(qt),
            kind is Push || kind is Pop,
        ensures
            final(self).wf(),
            !old(self)@.is_open(qd) ==> r == Err::<(), Fail>(Fail::BadDescriptor) && final(self)@ == old(self)@,
            old(self)@.is_open(qd) && old(self)@.socket(qd).kind == SocketKind::Stream
                && !(old(self)@.socket(qd).state is Connected) ==> r == Err::<(), Fail>(Fail::NotConnected)
                && final(self)@ == old(self)@,
            old(self)@.is_open(qd) && (old(self)@.socket(qd).kind == SocketKind::Datagram
                || old(self)@.socket(qd).state is Connected) ==> r == Ok::<(), Fail>(()) && final(self)@ == old(self)@.with_op(
                qd,
                kind,
                qt,
            ),
    {
        let s = match self.get(qd) {
            None => return Err(Fail::BadDescriptor),
            Some(s) => s,
        };
        match (s.kind, s.state) {
            (SocketKind::Stream, SocketState::Connected { .. }) => {},
            (SocketKind::Stream, _) => return Err(Fail::NotConnected),
            (SocketKind::Datagram, _) => {},
        }
        self.add_op(qd, kind, qt);
        Ok(())
    }

    /// The handshake of a connecting socket ended: on success the socket
    /// is connected; on failure it goes back to unbound.
    pub fn connect_done(&mut self, qd: QDesc, ok: bool) -> (r: Result<(), Fail>)
        requires
            old(self).wf(),
        ensures
            final(self).wf(),
            !(old(self)@.is_open(qd) && old(self)@.socket(qd).state is Connecting) ==> r == Err::<(), Fail>(
                Fail::InvalidArgument,
            ) && final(self)@ == old(self)@,
            old(self)@.is_open(qd) && old(self)@.socket(qd).state is Connecting ==> r == Ok::<(), Fail>(())
                && final(self)@ == old(self)@.with_socket(
                qd,
                Socket {
                    state: if ok {
                        SocketState::Connected { remote: old(self)@.socket(qd).state->Connecting_remote }
                    } else {
                        SocketState::Unbound
                    },
                    ..old(self)@.socket(qd)
                },
            ),
    {
        let s = match self.get(qd) {
            None => return Err(Fail::InvalidArgument),
            Some(s) => s,
        };
        match s.state {
            SocketState::Connecting { remote } => {
                let state = if ok { SocketState::Connected { remote } } else { SocketState::Unbound };
                self.put(qd, Socket { state, ..s });
                Ok(())
            },
            _ => Err(Fail::InvalidArgument),
        }
    }

    /// Applies the outcome of a connect's handshake step to the socket `qd`
    /// and its token `qt`.
    pub fn finish_connect(&mut self, qd: QDesc, qt: QToken, action: OpenAction) -> (r: Result<(), Fail>)
        requires
            old(self).wf(),
        ensures
            final(self).wf(),
            (final(self)@, r) == finish_connect_result(old(self)@, qd, qt, action),
    {
        let (ok, result) = match action {
            OpenAction::Established => (true, Ok(OpValue::Done)),
            OpenAction::Refused => (false, Err(Fail::ConnectionRefused)),
            _ => return Ok(()),
        };
        match self.connect_done(qd, ok) {
            Err(e) => Err(e),
            Ok(()) => {
                self.complete(qt, result);
                Ok(())
            },
        }
    }

    /// Closes a descriptor; its pending operations finish as cancelled.
    pub fn close(&mut self, qd: QDesc) -> (r: Result<(), Fail>)
        requires
            old(self).wf(),
        ensures
            final(self).wf(),
            (final(self)@, r) == close_result(old(self)@, qd),
    {
        if self.get(qd).is_none() {
            return Err(Fail::BadDescriptor);
        }
        self.sockets.set(qd.0 as usize, None);
        self.fail_pending(qd, Fail::Cancelled);
        Ok(())
    }

    /// The connection of `qd` was reset (or failed otherwise): each of its
    /// pending operations finishes with `f`; the descriptor stays open.
    pub fn fail_pending(&mut self, qd: QDesc, f: Fail)
        requires
            old(self).wf(),
        ensures
            final(self).wf(),
            final(self)@.sockets == old(self)@.sockets,
            final(self)@.ops == failed_ops(old(self)@.ops, qd, f),
    {
        let n = self.ops.len();
        let mut i: usize = 0;
        while i < n
            invariant
                n == self.ops.len(),
                n == old(self).ops.len(),
                i <= n,
                self.sockets@ == old(self).sockets@,
                forall|j: int| 0 <= j < n ==> (#[trigger] self.ops[j]).qt == old(self).ops[j].qt,
                forall|j: int| 0 <= j < i ==> #[trigger] self.ops[j] == (if old(self).ops[j].qd == qd && old(self).ops[j].status is Pending {
                    Operation { status: OpStatus::Finished(Err(f)), ..old(self).ops[j] }
                } else {
                    old(self).ops[j]
                }),
                forall|j: int| i <= j < n ==> #[trigger] self.ops[j] == old(self).ops[j],
            decreases n - i,
        {
            let op = self.ops[i];
            let pending = match op.status {
                OpStatus::Pending => true,
                _ => false,
            };
            if op.qd.0 == qd.0 && pending {
                self.ops.set(i, Operation { status: OpStatus::Finished(Err(f)), ..op });
            }
            i = i + 1;
        }
        proof {
            assert(self@.ops =~= failed_ops(old(self)@.ops, qd, f));
            assert forall|a: int, b: int| 0 <= a < b < self.ops.len() implies (#[trigger] self.ops[a]).qt.0
                != (#[trigger] self.ops[b]).qt.0 by {
                assert(old(self).ops[a].qt.0 != old(self).ops[b].qt.0);
            }
        }
    }

    /// Finishes a pending operation with `result`; anything else is left
    /// as it is.
    pub fn complete(&mut self, qt: QToken, result: Result<OpValue, Fail>)
        requires
            old(self).wf(),
        ensures
            final(self).wf(),
            final(self)@.sockets == old(self)@.sockets,
            final(self)@.ops == completed_ops(old(self)@.ops, qt, result),
    {
        let n = self.ops.len();
        let mut i: usize = 0;
        while i < n
            invariant
                n == self.ops.len(),
                n == old(self).ops.len(),
                i <= n,
                self.sockets@ == old(self).sockets@,
                forall|j: int| 0 <= j < n ==> (#[trigger] self.ops[j]).qt == old(self).ops[j].qt,
                forall|j: int| 0 <= j < i ==> #[trigger] self.ops[j] == (if old(self).ops[j].qt == qt && old(self).ops[j].status is Pending {
                    Operation { status: OpStatus::Finished(result), ..old(self).ops[j] }
                } else {
                    old(self).ops[j]
                }),
                forall|j: int| i <= j < n ==> #[trigger] self.ops[j] == old(self).ops[j],
            decreases n - i,
        {
            let op = self.ops[i];
            let pending = match op.status {
                OpStatus::Pending => true,
                _ => false,
            };
            if op.qt.0 == qt.0 && pending {
                self.ops.set(i, Operation { status: OpStatus::Finished(result), ..op });
            }
            i = i + 1;
        }
        proof {
            assert forall|a: int, b: int| 0 <= a < b < self.ops.len() implies (#[trigger] self.ops[a]).qt.0
                != (#[trigger] self.ops[b]).qt.0 by {
                assert(old(self).ops[a].qt.0 != old(self).ops[b].qt.0);
            }
            assert(self@.ops =~= completed_ops(old(self)@.ops, qt, result));
        }
    }

    /// Reaps a finished operation: its completion is handed back and its
    /// token retired. A pending one times out and stays; an unknown token
    /// is an invalid argument.
    pub fn wait(&mut self, qt: QToken) -> (r: Result<Completion, Fail>)
        requires
            old(self).wf(),
        ensures
            final(self).wf(),
            final(self)@.sockets == old(self)@.sockets,
            (forall|i: int| 0 <= i < old(self)@.ops.len() ==> (#[trigger] old(self)@.ops[i]).qt != qt)
                ==> r == Err::<Completion, Fail>(Fail::InvalidArgument) && final(self)@ == old(self)@,
            forall|i: int| 0 <= i < old(self)@.ops.len() && (#[trigger] old(self)@.ops[i]).qt == qt ==> match old(self)@.ops[i].status {
                OpStatus::Pending => r == Err::<Completion, Fail>(Fail::TimedOut) && final(self)@ == old(self)@,
                OpStatus::Finished(res) => r == Ok::<Completion, Fail>(Completion {
                    qd: old(self)@.ops[i].qd,
                    kind: old(self)@.ops[i].kind,
                    result: res,
                }) && final(self)@.ops == old(self)@.ops.remove(i),
            },
    {
        let n = self.ops.len();
        let mut i: usize = 0;
        while i < n
            invariant
                n == self.ops.len(),
                i <= n,
                self@ == old(self)@,
                self.wf(),
                forall|j: int| 0 <= j < i ==> (#[trigger] self.ops[j]).qt != qt,
            decreases n - i,
        {
            let op = self.ops[i];
            if op.qt.0 == qt.0 {
                proof {
                    assert forall|j: int| 0 <= j < n && (#[trigger] self.ops[j]).qt == qt implies j == i by {
                        if j != i {
                            self.lemma_tokens_unique(i as int, j);
                        }
                    }
                }
                match op.status {
                    OpStatus::Pending => return Err(Fail::TimedOut),
                    OpStatus::Finished(res) => {
                        self.ops.remove(i);
                        proof {
                            assert forall|a: int, b: int| 0 <= a < b < self.ops.len() implies (#[trigger] self.ops[a]).qt.0
                                != (#[trigger] self.ops[b]).qt.0 by {
                                let a2 = if a < i { a } else { a + 1 };
                                let b2 = if b < i { b } else { b + 1 };
                                assert(self.ops[a] == old(self).ops[a2]);
                                assert(self.ops[b] == old(self).ops[b2]);
                                assert(old(self).ops[a2].qt.0 != old(self).ops[b2].qt.0);
                            }
                        }
                        return Ok(Completion { qd: op.qd, kind: op.kind, result: res });
                    },
                }
            }
            i = i + 1;
        }
        Err(Fail::InvalidArgument)
    }
}

/// A second `listen` on a descriptor that the first made a listener fails
/// with address-in-use.
pub proof fn lemma_listen_twice(t: TableView, qd: QDesc, first: usize, second: usize)
    requires
        listen_result(t, qd, first).1 is Ok,
    ensures
        listen_result(listen_result(t, qd, first).0, qd, second).1 == Err::<(), Fail>(Fail::AddressInUse),
{
}

} // verus!
