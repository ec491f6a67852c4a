//! Description of the device's memory layout: banks, the static partitioning
//! of flash, and the inputs of linker text derivation.

pub mod processor;

use vstd::prelude::*;
use crate::Address;

verus! {

/// Identifier for multiple memory instances.  Currently only internal memory
/// is supported.
#[derive(Debug, PartialEq, Eq, Copy, Clone, Structural)]
pub enum MemoryUnit {
    /// On-chip memory of the SoC.
    Internal,
}

/// Description of a contiguous memory bank in a specific memory unit.
#[derive(Debug, PartialEq, Eq, Copy, Clone, Structural)]
pub struct Bank {
    /// Starting address of this bank.
    pub location: Address,
    /// Size of this bank in bytes.
    pub size: Address,
    /// In which memory unit this bank is stored.
    pub memory_unit: MemoryUnit,
}

impl Bank {
    /// A bank is well formed when its end address does not overflow the
    /// address type.
    pub open spec fn wf(self) -> bool {
        self.location + self.size <= u32::MAX + 1
    }

    /// The set of addresses covered by this bank, as an interval test.
    pub open spec fn spec_contains(self, addr: int) -> bool {
        self.location <= addr < self.location + self.size
    }

    /// The end address (one past the last byte) of this bank.
    pub open spec fn spec_end(self) -> int {
        self.location + self.size
    }
}

/// Two banks are disjoint when no address lies in both.
pub open spec fn banks_disjoint(a: Bank, b: Bank) -> bool {
    a.spec_end() <= b.location || b.spec_end() <= a.location
}

/// Configuration of the SoC's partitioning.
#[derive(Debug, PartialEq, Eq, Copy, Clone, Structural)]
pub struct Config {
    /// Bank this bootloader jumps to; holds the main firmware.
    pub boot_bank: Bank,
    /// Alternative bank the new firmware image is written to.
    pub update_bank: Bank,
    /// Bank the bootloader itself is contained in.
    pub bootloader_bank: Bank,
    /// Bank whose pages are used as temporary storage by the scratch
    /// exchange method.
    pub scratch_bank: Bank,
    /// Section of RAM of this device.
    pub ram_bank: Bank,
}

/// Configuration for linker scripts.
#[derive(Debug, PartialEq, Eq, Copy, Clone, Structural)]
pub struct LinkerConfig {
    /// Origin address of the internal non-volatile memory.
    pub flash_origin: Address,
    /// Origin address of the internal RAM bank.
    pub ram_origin: Address,
    /// Whether to store the shared state in RAM and thus reserve some RAM
    /// for it.
    pub has_ram_state: bool,
}

} // verus!
