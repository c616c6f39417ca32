use vstd::prelude::*;

verus! {

/// A queue descriptor: a small integer that names an open queue.
#[derive(Clone, Copy, Debug, PartialEq, Eq, Structural)]
pub struct QDesc(pub u32);

/// A queue token: the raw form of the scheduler handle of an operation.
#[derive(Clone, Copy, Debug, PartialEq, Eq, Structural)]
pub struct QToken(pub u64);

/// An IPv4 endpoint; the address is held in network order as one integer.
#[derive(Clone, Copy, Debug, PartialEq, Eq, Structural)]
pub struct SocketAddrV4 {
    pub ip: u32,
    pub port: u16,
}

impl SocketAddrV4 {
    pub fn new(ip: u32, port: u16) -> (r: SocketAddrV4)
        ensures
            r == (SocketAddrV4 { ip, port }),
    {
        SocketAddrV4 { ip, port }
    }

    /// The endpoint `a.b.c.d:port`.
    pub fn from_octets(a: u8, b: u8, c: u8, d: u8, port: u16) -> (r: SocketAddrV4)
        ensures
            r.ip == a as nat * 0x100_0000 + b as nat * 0x1_0000 + c as nat * 0x100 + d as nat,
            r.port == port,
    {
        let ip: u32 = (a as u32) * 0x100_0000 + (b as u32) * 0x1_0000 + (c as u32) * 0x100 + d as u32;
        SocketAddrV4 { ip, port }
    }
}

} // verus!
