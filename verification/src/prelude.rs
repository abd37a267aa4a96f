//! The names that most programs need.
pub use crate::error::Error;
pub use crate::frame::Frame;
pub use crate::netmap::{Netmap, NetmapBuilder};
pub use crate::ring::{Ring, RxRing, TxRing};
