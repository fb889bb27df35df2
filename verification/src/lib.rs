//! Verified core of a small serial bootloader for resource-constrained
//! microcontrollers: wire-protocol values, CRC16, version packing, the
//! write-buffering ring buffer and the boot-state logic.

pub mod crc;
pub mod protocol;
pub mod sync;
pub mod ringbuf;
pub mod boot;
pub mod meta;
pub mod traits;
pub mod dispatcher;
pub mod app;
pub mod ob_state;
pub mod platform;
