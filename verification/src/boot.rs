//! The bootloader role: on every reset it reads the shared state, acts on
//! it (exchange, resume, revert or nothing), writes the new state back and
//! transfers control to the boot bank.

use vstd::prelude::*;
use crate::exchange::{
    banks_swapped_from, exchange_setup_ok, exchange_state_frame, exchange_state_post,
    spec_full_pages, spec_recovering, Exchange,
};
use crate::hardware::processor::Processor;
use crate::hardware::{Bank, Config};
use crate::state::{ExchangeProgress, ExchangeStep, MoonbootState, State, Update, UpdateError};
use crate::storage::Storage;
use crate::Never;

verus! {

/// Use this from your bootloader application and call `boot()` to do the
/// magic: reading the current state via the state store and then jumping
/// to the chosen image through the processor adapter.
pub struct MoonbootBoot<
    STORAGE: Storage,
    STATE: State,
    PROCESSOR: Processor,
    EXCHANGE: Exchange<STORAGE, STATE>,
    const INTERNAL_PAGE_SIZE: usize,
> {
    /// The static partitioning of the device.
    pub config: Config,
    /// The storage driver for the unit holding the banks.
    pub storage: STORAGE,
    /// The store of the shared update state.
    pub state: STATE,
    /// The processor adapter used to jump into an image.
    pub processor: PROCESSOR,
    /// The exchange engine.
    pub exchange: EXCHANGE,
}

impl<
    STORAGE: Storage,
    STATE: State,
    PROCESSOR: Processor,
    EXCHANGE: Exchange<STORAGE, STATE>,
    const INTERNAL_PAGE_SIZE: usize,
> MoonbootBoot<STORAGE, STATE, PROCESSOR, EXCHANGE, INTERNAL_PAGE_SIZE> {
    /// What a call of [`Self::exchange_firmwares`] guarantees: a refused
    /// self-swap touches nothing; otherwise the engine ran on
    /// `(new, boot_bank)` from the first page, and the result names the
    /// follow-up state.
    pub open spec fn exchange_firmwares_post(
        pre: Self,
        post: Self,
        new: Bank,
        with_failsafe_revert: bool,
        r: Update,
        page: int,
    ) -> bool {
        let old_bank = pre.config.boot_bank;
        let progress = ExchangeProgress {
            a: new,
            b: old_bank,
            page_index: 0,
            step: ExchangeStep::AToScratch,
            recovering: false,
        };
        &&& post.config == pre.config
        &&& post.processor == pre.processor
        &&& post.exchange == pre.exchange
        &&& post.storage.mem().len() == pre.storage.mem().len()
        &&& (forall|j: int|
            0 <= j < pre.storage.mem().len() && !new.spec_contains(j) && !old_bank.spec_contains(
                j,
            ) && !pre.exchange.spec_touches(j, page) ==> (#[trigger] post.storage.mem()[j])
                == pre.storage.mem()[j])
        &&& exchange_state_frame(
            pre.state.stored(),
            post.state.stored(),
            progress,
            spec_recovering(pre.state.stored(), progress),
        )
        &&& (new == old_bank ==> r == Update::Error(UpdateError::InvalidImageIndex) && post.storage
            == pre.storage && post.state == pre.state)
        &&& (new != old_bank ==> {
            ||| {
                &&& r == (if with_failsafe_revert {
                    Update::Revert(new)
                } else {
                    Update::Idle
                })
                &&& exchange_setup_ok(pre.storage.mem().len() as int, new, old_bank)
                &&& banks_swapped_from(pre.storage.mem(), post.storage.mem(), new, old_bank, 0, page)
                &&& exchange_state_post(
                    pre.state.stored(),
                    post.state.stored(),
                    progress,
                    spec_full_pages(new.size as int, page),
                    spec_recovering(pre.state.stored(), progress),
                )
            }
            ||| r == Update::Error(UpdateError::ImageExchangeFailed)
        })
    }

    /// What one pass of [`Self::boot`] persists before the jump, when the
    /// state store cooperates: the record written back follows the state
    /// machine table for the record that was read, and the banks were
    /// exchanged where the table says so.
    pub open spec fn boot_dispatch_post(pre: Self, post: Self, page: int) -> bool {
        let st0 = pre.state.stored().update;
        let st1 = post.state.stored().update;
        let boot_bank = pre.config.boot_bank;
        &&& post.config == pre.config
        &&& post.storage.mem().len() == pre.storage.mem().len()
        &&& match st0 {
            Update::Idle => st1 == Update::Idle && post.storage == pre.storage,
            Update::Error(e) => st1 == Update::Error(e) && post.storage == pre.storage,
            Update::Request(new) => {
                ||| (st1 == Update::Revert(new) && new != boot_bank && banks_swapped_from(
                    pre.storage.mem(),
                    post.storage.mem(),
                    new,
                    boot_bank,
                    0,
                    page,
                ))
                ||| (st1 == Update::Error(UpdateError::InvalidImageIndex) && new == boot_bank
                    && post.storage == pre.storage)
                ||| st1 == Update::Error(UpdateError::ImageExchangeFailed)
            },
            Update::Revert(prev) => {
                ||| (st1 == Update::Idle && prev != boot_bank && banks_swapped_from(
                    pre.storage.mem(),
                    post.storage.mem(),
                    prev,
                    boot_bank,
                    0,
                    page,
                ))
                ||| (st1 == Update::Error(UpdateError::InvalidImageIndex) && prev == boot_bank
                    && post.storage == pre.storage)
                ||| st1 == Update::Error(UpdateError::ImageExchangeFailed)
            },
            Update::Exchanging(p) => {
                &&& {
                    ||| (st1 == Update::Idle && p.recovering)
                    ||| (st1 == Update::Revert(p.a) && !p.recovering)
                    ||| st1 == Update::Error(UpdateError::ImageExchangeFailed)
                }
                &&& (st1 != Update::Error(UpdateError::ImageExchangeFailed) && p.step
                    == ExchangeStep::AToScratch ==> banks_swapped_from(
                    pre.storage.mem(),
                    post.storage.mem(),
                    p.a,
                    p.b,
                    p.page_index as int,
                    page,
                ))
            },
        }
    }

    /// Create a new instance of the bootloader.
    pub fn new(
        config: Config,
        storage: STORAGE,
        state: STATE,
        processor: PROCESSOR,
        exchange: EXCHANGE,
    ) -> (r: Self)
        ensures
            r.config == config,
            r.storage == storage,
            r.state == state,
            r.processor == processor,
            r.exchange == exchange,
    {
        Self { config, storage, state, processor, exchange }
    }

    /// Destroy this instance of the bootloader and return access to the
    /// hardware peripherals.
    pub fn destroy(self) -> (r: (STORAGE, STATE, PROCESSOR))
        ensures
            r.0 == self.storage,
            r.1 == self.state,
            r.2 == self.processor,
    {
        (self.storage, self.state, self.processor)
    }

    /// Execute the update and boot logic of the bootloader.  Diverges into
    /// the chosen image unless the state store fails.
    pub fn boot(&mut self) -> (r: Result<Never, STATE::Error>)
        requires
            0 < INTERNAL_PAGE_SIZE <= u32::MAX,
        ensures
            final(self).config == old(self).config,
            final(self).storage.mem().len() == old(self).storage.mem().len(),
            (r matches Ok(v) ==> Self::boot_dispatch_post(
                *old(self),
                *final(self),
                INTERNAL_PAGE_SIZE as int,
            )),
    {
        self.processor.setup(&self.config);

        let mut st = match self.state.read() {
            Ok(s) => s,
            Err(e) => {
                return Err(e);
            },
        };

        // Step 1: act according to the update state.
        st.update = match st.update {
            Update::Idle => self.handle_none(),
            Update::Request(bank) => self.handle_request(bank),
            Update::Revert(bank) => self.handle_revert(bank),
            Update::Exchanging(progress) => match self.handle_exchanging(progress) {
                Ok(u) => u,
                Err(e) => {
                    return Err(e);
                },
            },
            Update::Error(err) => Update::Error(err),
        };

        // Step 2: write the follow-up state for the next reset.
        match self.state.write(&st) {
            Ok(u) => (),
            Err(e) => {
                return Err(e);
            },
        }

        // Step 3: jump to the new or unchanged firmware.
        Ok(self.jump_to_firmware())
    }

    /// Handle an idle state: nothing to do, boot the current image.
    pub fn handle_none(&mut self) -> (r: Update)
        ensures
            *final(self) == *old(self),
            r == Update::Idle,
    {
        Update::Idle
    }

    /// Handle a staged update: replace the old firmware with the new one
    /// and arm the failsafe revert.
    pub fn handle_request(&mut self, new_firmware: Bank) -> (r: Update)
        requires
            0 < INTERNAL_PAGE_SIZE <= u32::MAX,
        ensures
            Self::exchange_firmwares_post(
                *old(self),
                *final(self),
                new_firmware,
                true,
                r,
                INTERNAL_PAGE_SIZE as int,
            ),
    {
        self.exchange_firmwares(new_firmware, true)
    }

    /// Handle a revert: the application did not confirm itself, so restore
    /// the previous firmware and do not arm another revert.
    pub fn handle_revert(&mut self, revert_firmware: Bank) -> (r: Update)
        requires
            0 < INTERNAL_PAGE_SIZE <= u32::MAX,
        ensures
            Self::exchange_firmwares_post(
                *old(self),
                *final(self),
                revert_firmware,
                false,
                r,
                INTERNAL_PAGE_SIZE as int,
            ),
    {
        self.exchange_firmwares(revert_firmware, false)
    }

    /// Handle an exchange that was interrupted by a power loss: run the
    /// engine from the checkpoint, then decide the follow-up state from the
    /// checkpoint the engine left behind.
    pub fn handle_exchanging(&mut self, progress: ExchangeProgress) -> (r: Result<
        Update,
        STATE::Error,
    >)
        requires
            0 < INTERNAL_PAGE_SIZE <= u32::MAX,
            old(self).state.stored().update == Update::Exchanging(progress),
        ensures
            final(self).config == old(self).config,
            final(self).processor == old(self).processor,
            final(self).exchange == old(self).exchange,
            final(self).storage.mem().len() == old(self).storage.mem().len(),
            (forall|j: int|
                0 <= j < old(self).storage.mem().len() && !progress.a.spec_contains(j)
                    && !progress.b.spec_contains(j) && !old(self).exchange.spec_touches(
                    j,
                    INTERNAL_PAGE_SIZE as int,
                ) ==> (#[trigger] final(self).storage.mem()[j]) == old(self).storage.mem()[j]),
            exchange_state_frame(
                old(self).state.stored(),
                final(self).state.stored(),
                progress,
                progress.recovering,
            ),
            (r matches Ok(u) ==> {
                ||| (u == Update::Idle && progress.recovering)
                ||| (u == Update::Revert(progress.a) && !progress.recovering)
                ||| u == Update::Error(UpdateError::ImageExchangeFailed)
            }),
            (r matches Ok(u) ==> (u != Update::Error(UpdateError::ImageExchangeFailed)
                && progress.step == ExchangeStep::AToScratch ==> banks_swapped_from(
                old(self).storage.mem(),
                final(self).storage.mem(),
                progress.a,
                progress.b,
                progress.page_index as int,
                INTERNAL_PAGE_SIZE as int,
            ))),
    {
        let res = self.exchange.exchange::<INTERNAL_PAGE_SIZE>(
            &mut self.storage,
            &mut self.state,
            progress,
        );

        match res {
            Ok(u) => {
                let st = match self.state.read() {
                    Ok(s) => s,
                    Err(e) => {
                        return Err(e);
                    },
                };
                match st.update {
                    Update::Exchanging(p2) => {
                        if p2.recovering {
                            Ok(Update::Idle)
                        } else {
                            Ok(Update::Revert(p2.a))
                        }
                    },
                    _ => {
                        proof {
                            assert(false);
                        }
                        Ok(Update::Error(UpdateError::InvalidState))
                    },
                }
            },
            Err(e) => Ok(Update::Error(UpdateError::ImageExchangeFailed)),
        }
    }

    /// Exchange the bootable firmware with the image in `new`, refusing to
    /// swap a bank with itself.
    pub fn exchange_firmwares(&mut self, new: Bank, with_failsafe_revert: bool) -> (r: Update)
        requires
            0 < INTERNAL_PAGE_SIZE <= u32::MAX,
        ensures
            Self::exchange_firmwares_post(
                *old(self),
                *final(self),
                new,
                with_failsafe_revert,
                r,
                INTERNAL_PAGE_SIZE as int,
            ),
    {
        let old_bank = self.config.boot_bank;
        if new != old_bank {
            let progress = ExchangeProgress {
                a: new,
                b: old_bank,
                page_index: 0,
                step: ExchangeStep::AToScratch,
                recovering: false,
            };
            let res = self.exchange.exchange::<INTERNAL_PAGE_SIZE>(
                &mut self.storage,
                &mut self.state,
                progress,
            );
            match res {
                Ok(u) => {
                    if with_failsafe_revert {
                        // The application clears this on a successful boot;
                        // if it is still set on the next reset, the new
                        // image is broken and will be rolled back.
                        Update::Revert(new)
                    } else {
                        Update::Idle
                    }
                },
                Err(e) => Update::Error(UpdateError::ImageExchangeFailed),
            }
        } else {
            Update::Error(UpdateError::InvalidImageIndex)
        }
    }

    /// Jump to the firmware image marked as bootable.
    fn jump_to_firmware(&mut self) -> (r: Never)
        ensures
            final(self).config == old(self).config,
            final(self).storage == old(self).storage,
            final(self).state == old(self).state,
            final(self).exchange == old(self).exchange,
    {
        let app_address = self.config.boot_bank.location;
        self.processor.pre_jump();
        self.processor.do_jump(app_address)
    }
}

} // verus!
