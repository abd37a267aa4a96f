use vstd::prelude::*;

verus! {

/// A point in time, as the kernel stamps it on a ring.
#[allow(non_camel_case_types)]
#[derive(Clone, Copy, Debug)]
pub struct timeval {
    pub tv_sec: i64,
    pub tv_usec: i64,
}

/// The header of a ring.
///
/// `head` and `cur` belong to the user side, `tail` to the kernel. The slots of the ring
/// follow the header in memory and are not part of it.
#[allow(non_camel_case_types)]
#[derive(Clone, Copy, Debug)]
pub struct netmap_ring {
    /// Distance from the ring to the first packet buffer.
    pub buf_ofs: i64,
    /// Number of slots.
    pub num_slots: u32,
    /// Size of one packet buffer.
    pub nr_buf_size: u32,
    pub ringid: u16,
    pub dir: u16,
    /// First slot that the user side owns.
    pub head: u32,
    /// Wakeup point.
    pub cur: u32,
    /// First slot that the kernel owns.
    pub tail: u32,
    pub flags: u32,
    pub ts: timeval,
    /// Room that the kernel keeps for itself.
    pub sem: [u8; 72],
}

/// One slot of a ring: which buffer it refers to and how much of it is a packet.
#[allow(non_camel_case_types)]
#[derive(Clone, Copy, Debug, PartialEq, Eq, Structural)]
pub struct netmap_slot {
    pub buf_idx: u32,
    pub len: u16,
    pub flags: u16,
    pub ptr: u64,
}

/// The descriptor of an interface: how many rings it has and where they lie.
///
/// `ring_ofs` holds the distance from the descriptor, which lies at `addr`, to each ring.
#[allow(non_camel_case_types)]
#[derive(Debug)]
pub struct netmap_if {
    pub addr: usize,
    pub ni_tx_rings: u32,
    pub ni_rx_rings: u32,
    pub ni_host_tx_rings: u32,
    pub ni_host_rx_rings: u32,
    pub ring_ofs: Vec<isize>,
}

/// A request to open an interface.
#[allow(non_camel_case_types)]
#[derive(Clone, Copy, Debug)]
pub struct nmreq {
    pub nr_name: [i8; 16],
    pub nr_version: u32,
    pub nr_offset: u32,
    pub nr_memsize: u32,
    pub nr_tx_slots: u32,
    pub nr_rx_slots: u32,
    pub nr_tx_rings: u16,
    pub nr_rx_rings: u16,
    pub nr_ringid: u16,
    pub nr_cmd: u16,
    pub nr_arg1: u16,
    pub nr_arg2: u16,
    pub nr_arg3: u32,
    pub nr_flags: u32,
    pub spare2: [u32; 1],
}

/// Room for the name of an interface, with the NUL at its end.
pub const IFNAMSIZ: usize = 16;

/// The version of the interface to the kernel.
pub const NETMAP_API: u32 = 14;

/// Registers all rings of the network card.
pub const NR_REG_ALL_NIC: u32 = 1;

/// Registers the rings of the host stack.
pub const NR_REG_SW: u32 = 2;

} // verus!
