use vstd::prelude::*;
use arrayvec::ArrayVec;
use std::collections::HashMap;
use rand::rngs::SmallRng;
use rand::{RngCore, SeedableRng};
use crate::fail::Fail;
use crate::manager::{
    alloc_sga_effect, clone_sga_post, free_sga_effect, into_sga_post, valid_buffer, valid_sga, Buffer, MemoryManager, Sga,
};
use crate::options::TcpOptions;
use crate::timer::Timer;

verus! {

#[verifier::external_type_specification]
#[verifier::external_body]
pub struct ExSmallRng(SmallRng);

#[verifier::external_type_specification]
#[verifier::external_body]
#[verifier::reject_recursive_types(T)]
pub struct ExArrayVec<T, const CAP: usize>(ArrayVec<T, CAP>);

/// Frames taken from the device in one receive.
pub const RECEIVE_BATCH_SIZE: usize = 4;

/// What a receive batch holds, in order.
pub uninterp spec fn batch_items(b: ArrayVec<Buffer, 4>) -> Seq<Buffer>;

/// Relies on `ArrayVec::new`: an empty vector (a capacity of 4 is within
/// its limit).
#[verifier::external_body]
fn batch_new() -> (r: ArrayVec<Buffer, 4>)
    ensures
        batch_items(r) == Seq::<Buffer>::empty(),
{
    ArrayVec::new()
}

/// Relies on `ArrayVec::push`: appends at the end; it panics only when the
/// vector is full, which `requires` rules out.
#[verifier::external_body]
fn batch_push(b: &mut ArrayVec<Buffer, 4>, x: Buffer)
    requires
        batch_items(*old(b)).len() < 4,
    ensures
        batch_items(*final(b)) == batch_items(*old(b)).push(x),
{
    b.push(x)
}

/// Relies on `SeedableRng::seed_from_u64` for `SmallRng`: a generator
/// seeded from `seed`.
#[verifier::external_body]
fn rng_from_seed(seed: u64) -> (r: SmallRng) {
    SmallRng::seed_from_u64(seed)
}

/// Relies on `RngCore::next_u32` for `SmallRng`: any 32-bit value.
#[verifier::external_body]
fn rng_next_u32(rng: &mut SmallRng) -> (r: u32) {
    rng.next_u32()
}

/// ARP settings; durations in microseconds.
#[derive(Debug)]
pub struct ArpOptions {
    pub cache_ttl: u64,
    pub request_timeout: u64,
    pub retry_count: usize,
    pub table: HashMap<u32, [u8; 6]>,
    pub disable_arp: bool,
}

impl ArpOptions {
    /// The link address that the static table gives for `ip`.
    pub fn lookup(&self, ip: u32) -> (r: Option<[u8; 6]>)
        ensures
            r is Some <==> self.table@.contains_key(ip),
            r is Some ==> r->Some_0 == self.table@[ip],
    {
        broadcast use vstd::std_specs::hash::group_hash_axioms;
        match self.table.get(&ip) {
            Some(mac) => Some(*mac),
            None => None,
        }
    }
}

/// UDP checksum offload settings.
#[derive(Clone, Copy, Debug)]
pub struct UdpOptions {
    pub rx_checksum_offload: bool,
    pub tx_checksum_offload: bool,
}

/// Receive window advertised by the device runtime.
pub const RUNTIME_RECEIVE_WINDOW: usize = 0xffff;

/// The runtime that binds the stack to one poll-mode device: its buffers,
/// clock, random source, addresses and protocol settings.
pub struct DPDKRuntime {
    pub rng: SmallRng,
    pub memory_manager: MemoryManager,
    pub timer: Timer,
    pub port_id: u16,
    pub link_addr: [u8; 6],
    pub ipv4_addr: u32,
    pub arp_options: ArpOptions,
    pub tcp_options: TcpOptions,
    pub tcp_checksum_offload: bool,
    pub udp_options: UdpOptions,
}

impl DPDKRuntime {
    /// A runtime on device port `port_id`, its clock at `now` and its random
    /// source seeded from `seed`. ARP entries live 15 s, requests time out
    /// after 20 s and are retried 5 times.
    pub fn new(
        link_addr: [u8; 6],
        ipv4_addr: u32,
        port_id: u16,
        memory_manager: MemoryManager,
        arp_table: HashMap<u32, [u8; 6]>,
        disable_arp: bool,
        mss: usize,
        tcp_checksum_offload: bool,
        udp_checksum_offload: bool,
        now: u64,
        seed: u64,
    ) -> (r: DPDKRuntime)
        ensures
            r.memory_manager == memory_manager,
            r.timer.now_spec() == now,
            r.timer.entries().len() == 0,
            r.port_id == port_id,
            r.link_addr == link_addr,
            r.ipv4_addr == ipv4_addr,
            r.arp_options.cache_ttl == 15_000_000,
            r.arp_options.request_timeout == 20_000_000,
            r.arp_options.retry_count == 5,
            r.arp_options.table == arp_table,
            r.arp_options.disable_arp == disable_arp,
            r.tcp_options.advertised_mss == mss,
            r.tcp_options.receive_window_size == RUNTIME_RECEIVE_WINDOW,
            r.tcp_options.handshake_retries == crate::options::DEFAULT_HANDSHAKE_RETRIES,
            r.tcp_options.handshake_timeout == crate::options::DEFAULT_HANDSHAKE_TIMEOUT_US,
            r.tcp_options.retries == crate::options::DEFAULT_RETRIES,
            r.tcp_options.trailing_ack_delay == crate::options::DEFAULT_TRAILING_ACK_DELAY_US,
            r.tcp_checksum_offload == tcp_checksum_offload,
            r.udp_options == (UdpOptions {
                rx_checksum_offload: udp_checksum_offload,
                tx_checksum_offload: udp_checksum_offload,
            }),
    {
        let rng = rng_from_seed(seed);
        let arp_options = ArpOptions {
            cache_ttl: 15_000_000,
            request_timeout: 20_000_000,
            retry_count: 5,
            table: arp_table,
            disable_arp,
        };
        DPDKRuntime {
            rng,
            memory_manager,
            timer: Timer::new(now),
            port_id,
            link_addr,
            ipv4_addr,
            arp_options,
            tcp_options: TcpOptions::new(mss, RUNTIME_RECEIVE_WINDOW),
            tcp_checksum_offload,
            udp_options: UdpOptions {
                rx_checksum_offload: udp_checksum_offload,
                tx_checksum_offload: udp_checksum_offload,
            },
        }
    }

    /// A scatter-gather array of `size` bytes from the pools.
    pub fn alloc_sgarray(&mut self, size: usize) -> (r: Result<Sga, Fail>)
        requires
            old(self).memory_manager.wf(),
        ensures
            final(self).memory_manager.wf(),
            alloc_sga_effect(old(self).memory_manager@, size as nat, final(self).memory_manager@, r),
    {
        self.memory_manager.alloc_sga(size)
    }

    /// Gives a scatter-gather array back to the pools.
    pub fn free_sgarray(&mut self, sga: Sga)
        requires
            old(self).memory_manager.wf(),
            valid_sga(old(self).memory_manager@, sga),
        ensures
            final(self).memory_manager.wf(),
            free_sga_effect(old(self).memory_manager@, sga, final(self).memory_manager@),
    {
        self.memory_manager.free_sga(sga)
    }

    /// Hands a buffer to the user as a scatter-gather array.
    pub fn into_sgarray(&mut self, buf: Buffer) -> (r: Result<Sga, Fail>)
        requires
            old(self).memory_manager.wf(),
            valid_buffer(old(self).memory_manager@, buf),
        ensures
            final(self).memory_manager.wf(),
            into_sga_post(old(self).memory_manager@, buf, final(self).memory_manager@, r),
    {
        self.memory_manager.into_sga(buf)
    }

    /// Takes a user's scatter-gather array onto the transmit path.
    pub fn clone_sgarray(&mut self, sga: &Sga) -> (r: Result<Buffer, Fail>)
        requires
            old(self).memory_manager.wf(),
            valid_sga(old(self).memory_manager@, *sga),
        ensures
            final(self).memory_manager.wf(),
            clone_sga_post(old(self).memory_manager@, *sga, final(self).memory_manager@, r),
    {
        self.memory_manager.clone_sga(sga)
    }

    /// A fresh initial sequence number for a connection.
    pub fn next_iss(&mut self) -> (r: u32) {
        rng_next_u32(&mut self.rng)
    }

    /// Wraps the frames that one device receive burst returned, in order.
    pub fn receive(&self, frames: Vec<Vec<u8>>) -> (r: ArrayVec<Buffer, 4>)
        requires
            frames@.len() <= RECEIVE_BATCH_SIZE,
        ensures
            batch_items(r).len() == frames@.len(),
            forall|i: int| 0 <= i < frames@.len() ==> #[trigger] batch_items(r)[i] == Buffer::External(frames@[i]),
    {
        let mut out = batch_new();
        let mut frames = frames;
        let ghost all = frames@;
        let mut i: usize = 0;
        while frames.len() > 0
            invariant
                all.len() <= RECEIVE_BATCH_SIZE,
                i <= all.len(),
                frames@ == all.skip(i as int),
                batch_items(out).len() == i,
                forall|k: int| 0 <= k < i ==> #[trigger] batch_items(out)[k] == Buffer::External(all[k]),
            decreases frames@.len(),
        {
            let f = frames.remove(0);
            proof {
                assert(all.skip(i as int)[0] == all[i as int]);
                assert(all.skip(i as int).subrange(1, all.skip(i as int).len() as int) =~= all.skip(i + 1));
            }
            batch_push(&mut out, Buffer::External(f));
            i = i + 1;
        }
        out
    }
}

} // verus!
