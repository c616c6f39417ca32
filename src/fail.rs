use vstd::prelude::*;

verus! {

/// Errors that the stack reports to its users.
#[derive(Clone, Copy, Debug, PartialEq, Eq, Structural)]
pub enum Fail {
    /// The queue descriptor is not open.
    BadDescriptor,
    /// The address or the socket is already in use.
    AddressInUse,
    /// The operation needs a local address that the socket does not have.
    DestinationAddressRequired,
    /// The peer did not answer the handshake.
    ConnectionRefused,
    /// The operation was cancelled by a close.
    Cancelled,
    /// The peer reset the connection.
    ConnectionReset,
    /// Out of buffers or descriptors; retriable.
    ResourceExhausted,
    /// An argument is out of range.
    InvalidArgument,
    /// A wait ran out of time; the token stays valid.
    TimedOut,
    /// The socket has no peer.
    NotConnected,
    /// The connection can no longer send.
    BrokenPipe,
    /// The operation would block; retry later.
    WouldBlock,
    /// An error reported by a peer component, with its POSIX code.
    Other(i32),
}

} // verus!
