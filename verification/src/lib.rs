//! The rules of a disk write throughput benchmark, verified.

pub mod args;
pub mod buffer;
pub mod buffered;
pub mod mode;
pub mod mounts;
pub mod number;
pub mod option_order;
pub mod path;
pub mod ring_laws;
pub mod session;
pub mod size;
pub mod split;
pub mod stats;
pub mod text;
pub mod uring;
pub mod usage;
