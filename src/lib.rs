//! Firmware-update engine for microcontroller flash memory.
//!
//! The device abstraction, its composite region operations, the update
//! session that drives a multi-chunk transfer, and the boot-time hardware
//! bring-up record.

pub mod flash;
pub mod mock;
pub mod verify;
pub mod updater;
pub mod internal;
pub mod init;
