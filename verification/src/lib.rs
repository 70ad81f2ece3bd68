//! Host-side agent core: distributed task claiming, slot accounting,
//! per-VM lifecycle tracking, and the guest/host wire protocol.

pub mod claim;
pub mod config;
pub mod decimal;
pub mod error;
pub mod json;
pub mod lifecycle;
pub mod protocol;
pub mod sentinel;
pub mod text;
pub mod vm;

pub use config::{NetworkMode, SentinelConfig, VmProfile};
pub use error::SentinelError;
pub use sentinel::{Sentinel, SlotTracker};
