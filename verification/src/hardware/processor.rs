//! The thin, ISA-dependent interface between the bootloader core and the
//! processor it runs on.

use vstd::prelude::*;
use crate::hardware::Config;
use crate::{Address, Never};

verus! {

/// Executes an execution jump to a specified starting address.  The
/// implementation is ISA-dependent and supplied by the user of the crate.
pub trait Processor {
    /// Set up the specified hardware configuration.  Can be used to
    /// initialize an MPU, for example.
    fn setup(&mut self, config: &Config);

    /// Hook invoked immediately before any jump to another image.  Use this
    /// to de-initialize hardware; [`crate::default_pre_jump`] is a suitable
    /// no-op implementation.
    fn pre_jump(&mut self);

    /// Jump to the image stored at the specified address.  Never returns,
    /// because it either successfully switches to a new application image or
    /// faults.
    fn do_jump(&mut self, address: Address) -> Never;
}

} // verus!
