//! Rings of packets shared with a network interface.
//!
//! An interface is opened from a request that [`NetmapBuilder`] makes. It has rings of slots,
//! each of which refers to a buffer in memory that the kernel shares: packets are sent on
//! [`TxRing`] and received on [`RxRing`] by moving through the slots. The rings of [`fallback`]
//! pass packets within the process instead.
/// What can go wrong.
pub mod error;
/// Rings within the process.
pub mod fallback;
/// What the kernel shares with the process, as plain values.
pub mod ffi;
/// Received packets.
pub mod frame;
/// Opening an interface and finding its rings.
pub mod netmap;
/// What holds of names, requests and tables of rings.
pub mod netmap_laws;
/// The names that most programs need.
pub mod prelude;
/// Sending and receiving.
pub mod ring;
/// What holds of sending and receiving together.
pub mod ring_laws;
/// Text of messages.
pub mod text;
/// The decisions behind asynchronous reading and writing.
pub mod tokio_async;
/// A stream of test packets.
pub mod traffic;
/// What holds of the stream of test packets.
pub mod traffic_laws;

pub use crate::error::Error;
pub use crate::ffi::{
    netmap_if, netmap_ring, netmap_slot, nmreq, timeval, IFNAMSIZ, NETMAP_API, NR_REG_ALL_NIC,
    NR_REG_SW,
};
pub use crate::frame::Frame;
pub use crate::netmap::{Netmap, NetmapBuilder};
pub use crate::ring::{Ring, RxRing, TxRing};
