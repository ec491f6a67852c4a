//! Building blocks for A/B firmware bootloaders on microcontrollers.
//!
//! The crate partitions a device's flash into banks, lets the running
//! application stage a firmware update, and lets a small resident bootloader
//! exchange the contents of two banks page by page in a way that can be
//! resumed after a power loss.  A shared state record, guarded by a CRC,
//! carries the decision of the bootloader's state machine across resets.

pub mod boot;
pub mod exchange;
pub mod hardware;
pub mod linker;
pub mod manager;
pub mod state;
pub mod storage;

/// Implementations for use in the bootloader.
pub use boot::MoonbootBoot;
/// Implementations for use in the firmware.
pub use manager::MoonbootManager;

use vstd::prelude::*;

verus! {

/// Address type in RAM or ROM.
pub type Address = u32;

/// Result type for operations that transfer control to another firmware
/// image and therefore never return normally.  No code outside this crate
/// can construct a value of it, and this crate never does, so an
/// implementation of such an operation can only diverge.
#[allow(dead_code)]
#[derive(Debug)]
pub struct Never {
    no_value: (),
}

/// The default hook run immediately before jumping to another image: it does
/// nothing.  Applications that need to de-initialize peripherals provide
/// their own hook instead.
pub fn default_pre_jump() {
}

} // verus!
