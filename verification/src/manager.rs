//! The manager role, linked into the application firmware: it acknowledges
//! a successful boot and stages updates, then jumps into the bootloader to
//! apply them.

use vstd::prelude::*;
use crate::hardware::processor::Processor;
use crate::hardware::Config;
use crate::state::{MoonbootState, State, Update};
use crate::storage::Storage;
use crate::Never;

verus! {

/// The requested partitioning is unusable: the update bank is larger than
/// the boot bank, or a bank is empty.
#[derive(Debug, PartialEq, Eq, Clone, Copy, Structural)]
pub struct InitError;

/// Reason marking a boot as successful failed.
#[derive(Debug)]
pub enum MarkError<E> {
    /// An update is queued but has not been installed: control bypassed
    /// the bootloader.
    UpdateQueuedButNotInstalled,
    /// The state store failed.
    State(E),
}

/// Instantiate this in your application to mutate the shared state and to
/// jump to the bootloader to apply updates.
pub struct MoonbootManager<
    STORAGE: Storage,
    STATE: State,
    PROCESSOR: Processor,
    const INTERNAL_PAGE_SIZE: usize,
> {
    /// The static partitioning of the device.
    pub config: Config,
    /// The storage driver for the unit holding the banks.
    pub storage: STORAGE,
    /// The store of the shared update state.
    pub state: STATE,
    /// The processor adapter used to jump into the bootloader.
    pub processor: PROCESSOR,
}

impl<
    STORAGE: Storage,
    STATE: State,
    PROCESSOR: Processor,
    const INTERNAL_PAGE_SIZE: usize,
> MoonbootManager<STORAGE, STATE, PROCESSOR, INTERNAL_PAGE_SIZE> {
    /// Construct a manager over the given peripherals, refusing a
    /// partitioning whose update bank could not hold a boot image: larger
    /// than the boot bank, or empty on either side.
    pub fn new(config: Config, storage: STORAGE, state: STATE, processor: PROCESSOR) -> (r: Result<
        MoonbootManager<STORAGE, STATE, PROCESSOR, INTERNAL_PAGE_SIZE>,
        InitError,
    >)
        ensures
            (config.update_bank.size > config.boot_bank.size || config.update_bank.size == 0
                || config.boot_bank.size == 0 ==> r matches Err(e)),
            (!(config.update_bank.size > config.boot_bank.size || config.update_bank.size == 0
                || config.boot_bank.size == 0) ==> (r matches Ok(m) && m.config == config
                && m.storage == storage && m.state == state && m.processor == processor)),
    {
        if config.update_bank.size > config.boot_bank.size || config.update_bank.size == 0
            || config.boot_bank.size == 0 {
            return Err(InitError);
        }
        Ok(Self { config, storage, state, processor })
    }

    /// Destroy this instance of the boot manager and return access to the
    /// hardware peripherals.
    pub fn destroy(self) -> (r: (STORAGE, STATE, PROCESSOR))
        ensures
            r.0 == self.storage,
            r.1 == self.state,
            r.2 == self.processor,
    {
        (self.storage, self.state, self.processor)
    }

    /// Run this immediately after booting your new image successfully.  A
    /// pending revert (or an idle state) becomes idle; any other pending
    /// state means the bootloader was bypassed, and nothing is changed.
    pub fn mark_boot_successful(&mut self) -> (r: Result<(), MarkError<STATE::Error>>)
        ensures
            final(self).config == old(self).config,
            final(self).storage == old(self).storage,
            final(self).processor == old(self).processor,
            (r matches Ok(u) ==> (old(self).state.stored().update == Update::Idle
                || old(self).state.stored().update matches Update::Revert(b))
                && final(self).state.stored() == (MoonbootState { update: Update::Idle })),
            (r matches Err(e) ==> (e matches MarkError::UpdateQueuedButNotInstalled
                ==> !(old(self).state.stored().update == Update::Idle
                || old(self).state.stored().update matches Update::Revert(b))
                && final(self).state.stored() == old(self).state.stored())),
            (r matches Err(e) ==> (e matches MarkError::State(se) ==> final(self).state.stored()
                == old(self).state.stored() || final(self).state.stored() == (MoonbootState {
                update: Update::Idle,
            }))),
    {
        let current_state = match self.state.read() {
            Ok(s) => s,
            Err(e) => {
                return Err(MarkError::State(e));
            },
        };

        let new_update = match current_state.update {
            Update::Idle => Update::Idle,
            Update::Revert(x) => Update::Idle,
            _ => {
                // An update is queued but was never installed: the
                // application is running without having gone through the
                // bootloader.
                return Err(MarkError::UpdateQueuedButNotInstalled);
            },
        };

        let new_state = MoonbootState { update: new_update };
        match self.state.write(&new_state) {
            Ok(u) => Ok(()),
            Err(e) => Err(MarkError::State(e)),
        }
    }

    /// Stage the update held in the update bank and jump to the
    /// bootloader.  Diverges unless the state store fails; a state already
    /// holding a request or an error is overwritten, as the bootloader
    /// acts on the new request either way.
    pub fn update(&mut self) -> (r: Result<Never, STATE::Error>)
        ensures
            final(self).config == old(self).config,
            final(self).storage == old(self).storage,
            (r matches Ok(v) ==> final(self).state.stored() == (MoonbootState {
                update: Update::Request(old(self).config.update_bank),
            })),
            (r matches Err(e) ==> final(self).state.stored() == old(self).state.stored()
                || final(self).state.stored() == (MoonbootState {
                update: Update::Request(old(self).config.update_bank),
            }) || final(self).state.stored() == (MoonbootState { update: Update::Idle })),
    {
        let bank = self.config.update_bank;

        let mut current_state = match self.state.read() {
            Ok(s) => s,
            Err(e) => {
                return Err(e);
            },
        };

        current_state.update = Update::Request(bank);

        match self.state.write(&current_state) {
            Ok(u) => (),
            Err(e) => {
                return Err(e);
            },
        }

        let bootloader_address = self.config.bootloader_bank.location;
        self.processor.pre_jump();
        Ok(self.processor.do_jump(bootloader_address))
    }
}

} // verus!
