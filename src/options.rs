use vstd::prelude::*;

verus! {

/// Smallest maximum segment size that a connection may advertise.
pub const MIN_MSS: usize = 536;

/// Largest maximum segment size that a connection may advertise.
pub const MAX_MSS: usize = 65535;

/// Maximum segment size used where none is configured.
pub const DEFAULT_MSS: usize = 1450;

/// Handshake attempts made before a connect is refused, by default.
pub const DEFAULT_HANDSHAKE_RETRIES: usize = 5;

/// Time allowed to each handshake attempt by default, in microseconds.
pub const DEFAULT_HANDSHAKE_TIMEOUT_US: u64 = 3_000_000;

/// Retransmissions made before a connection is dropped, by default.
pub const DEFAULT_RETRIES: usize = 5;

/// Longest delay of a trailing acknowledgement by default, in microseconds.
pub const DEFAULT_TRAILING_ACK_DELAY_US: u64 = 1;

/// Per-stack TCP configuration. Durations are in microseconds.
#[derive(Clone, Copy, Debug)]
pub struct TcpOptions {
    pub advertised_mss: usize,
    pub handshake_retries: usize,
    pub handshake_timeout: u64,
    pub receive_window_size: usize,
    pub retries: usize,
    pub trailing_ack_delay: u64,
}

impl TcpOptions {
    /// Settings that every connection may rely on.
    pub open spec fn wf(&self) -> bool {
        &&& MIN_MSS <= self.advertised_mss <= MAX_MSS
        &&& self.handshake_retries > 0
        &&& self.handshake_timeout > 0
        &&& self.receive_window_size > 0
        &&& self.retries > 0
    }

    /// The defaults, with the segment size and receive window that the
    /// environment gives.
    pub fn new(mss: usize, receive_window_size: usize) -> (r: TcpOptions)
        ensures
            r.advertised_mss == mss,
            r.receive_window_size == receive_window_size,
            r.handshake_retries == DEFAULT_HANDSHAKE_RETRIES,
            r.handshake_timeout == DEFAULT_HANDSHAKE_TIMEOUT_US,
            r.retries == DEFAULT_RETRIES,
            r.trailing_ack_delay == DEFAULT_TRAILING_ACK_DELAY_US,
    {
        TcpOptions {
            advertised_mss: mss,
            handshake_retries: DEFAULT_HANDSHAKE_RETRIES,
            handshake_timeout: DEFAULT_HANDSHAKE_TIMEOUT_US,
            receive_window_size,
            retries: DEFAULT_RETRIES,
            trailing_ack_delay: DEFAULT_TRAILING_ACK_DELAY_US,
        }
    }

    pub fn advertised_mss(self, value: usize) -> (r: TcpOptions)
        requires
            MIN_MSS <= value <= MAX_MSS,
        ensures
            r == (TcpOptions { advertised_mss: value, ..self }),
    {
        TcpOptions { advertised_mss: value, ..self }
    }

    pub fn handshake_retries(self, value: usize) -> (r: TcpOptions)
        requires
            value > 0,
        ensures
            r == (TcpOptions { handshake_retries: value, ..self }),
    {
        TcpOptions { handshake_retries: value, ..self }
    }

    pub fn handshake_timeout(self, value: u64) -> (r: TcpOptions)
        requires
            value > 0,
        ensures
            r == (TcpOptions { handshake_timeout: value, ..self }),
    {
        TcpOptions { handshake_timeout: value, ..self }
    }

    pub fn receive_window_size(self, value: usize) -> (r: TcpOptions)
        requires
            value > 0,
        ensures
            r == (TcpOptions { receive_window_size: value, ..self }),
    {
        TcpOptions { receive_window_size: value, ..self }
    }

    pub fn retries(self, value: usize) -> (r: TcpOptions)
        requires
            value > 0,
        ensures
            r == (TcpOptions { retries: value, ..self }),
    {
        TcpOptions { retries: value, ..self }
    }

    pub fn trailing_ack_delay(self, value: u64) -> (r: TcpOptions)
        ensures
            r == (TcpOptions { trailing_ack_delay: value, ..self }),
    {
        TcpOptions { trailing_ack_delay: value, ..self }
    }
}

} // verus!
