//! Core of a user-space networking stack: buffer pool and scatter-gather
//! bridge, timer, cooperative scheduler, TCP control blocks, queue layer and
//! the shared-memory pipe handshake, each with machine-checked contracts.

pub mod catloop;
pub mod checksum;
pub mod fail;
pub mod handshake;
pub mod ioqueue;
pub mod kernel;
pub mod libos;
pub mod manager;
pub mod memory;
pub mod network;
pub mod options;
pub mod pop;
pub mod queue;
pub mod reassembly;
pub mod ring;
pub mod runtime;
pub mod scheduler;
pub mod send;
pub mod sockets;
pub mod tcb;
pub mod tcp;
pub mod timer;
pub mod udp;

pub use catloop::{AcceptFuture, ConnectFuture};
pub use fail::Fail;
pub use libos::CatnipLibos;
pub use options::TcpOptions;
pub use pop::PopFuture;
pub use queue::{QDesc, QToken, SocketAddrV4};
pub use runtime::DPDKRuntime;
pub use timer::TimerRc;
