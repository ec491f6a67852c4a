//! The bootloader and manager roles driven end to end over in-memory
//! storage: staged updates, failsafe reverts, self-swap refusal, and the
//! mark-boot-successful transitions.

use moonboot::boot::MoonbootBoot;
use moonboot::exchange::ram::Ram;
use moonboot::exchange::scratch::Scratch;
use moonboot::hardware::processor::Processor;
use moonboot::hardware::{Bank, Config, MemoryUnit};
use moonboot::manager::{MarkError, MoonbootManager};
use moonboot::state::ram::RamState;
use moonboot::state::{ExchangeProgress, ExchangeStep, MoonbootState, State, Update, UpdateError};
use moonboot::storage::VecStorage;
use moonboot::Never;

const PAGE: usize = 0x100;

/// A processor for hosted tests: nothing to set up, and a jump aborts the
/// test process.
struct TestProcessor;

impl Processor for TestProcessor {
    fn setup(&mut self, _config: &Config) {}

    fn pre_jump(&mut self) {
        moonboot::default_pre_jump();
    }

    fn do_jump(&mut self, _address: u32) -> Never {
        panic!("a hosted test cannot transfer control to another image");
    }
}

fn bank(location: u32, size: u32) -> Bank {
    Bank {
        location,
        size,
        memory_unit: MemoryUnit::Internal,
    }
}

fn config() -> Config {
    Config {
        boot_bank: bank(0x1000, 0x800),
        update_bank: bank(0x1800, 0x800),
        bootloader_bank: bank(0x0000, 0x1000),
        scratch_bank: bank(0x2000, 0x100),
        ram_bank: bank(0x0, 0x10000),
    }
}

type Boot = MoonbootBoot<VecStorage, RamState, TestProcessor, Ram, PAGE>;

fn boot_with_state(update: Update) -> Boot {
    let cfg = config();
    let mut storage = VecStorage::new_filled(0x2100, 0x00);
    for i in 0..cfg.boot_bank.size as usize {
        storage.bytes[cfg.boot_bank.location as usize + i] = 0xAA;
    }
    for i in 0..cfg.update_bank.size as usize {
        storage.bytes[cfg.update_bank.location as usize + i] = 0xBB;
    }
    let mut state = RamState::new();
    state.write(&MoonbootState { update }).unwrap();
    MoonbootBoot::new(cfg, storage, state, TestProcessor, Ram)
}

fn region(storage: &VecStorage, bank: Bank) -> Vec<u8> {
    storage.bytes[bank.location as usize..(bank.location + bank.size) as usize].to_vec()
}

#[test]
fn staged_update_swaps_and_arms_revert() {
    // S1: the application staged an update; the bootloader installs it and
    // arms the failsafe revert, and the application then confirms it.
    let cfg = config();
    let mut boot = boot_with_state(Update::Request(cfg.update_bank));
    let next = boot.handle_request(cfg.update_bank);
    assert_eq!(next, Update::Revert(cfg.update_bank));
    assert!(region(&boot.storage, cfg.boot_bank).iter().all(|&x| x == 0xBB));
    assert!(region(&boot.storage, cfg.update_bank).iter().all(|&x| x == 0xAA));

    boot.state.write(&MoonbootState { update: next }).unwrap();
    let (storage, state, processor) = boot.destroy();

    let mut manager: MoonbootManager<_, _, _, PAGE> =
        MoonbootManager::new(cfg, storage, state, processor).ok().unwrap();
    manager.mark_boot_successful().unwrap();
    assert_eq!(manager.state.read().unwrap().update, Update::Idle);
}

#[test]
fn missed_confirmation_reverts_to_old_image() {
    // S2: the new image never confirmed itself; the next boot sees the
    // armed revert and restores the previous image.
    let cfg = config();
    let mut boot = boot_with_state(Update::Request(cfg.update_bank));
    let next = boot.handle_request(cfg.update_bank);
    boot.state.write(&MoonbootState { update: next }).unwrap();
    assert_eq!(next, Update::Revert(cfg.update_bank));

    // Second reset: no confirmation happened.
    let next2 = boot.handle_revert(cfg.update_bank);
    assert_eq!(next2, Update::Idle);
    assert!(region(&boot.storage, cfg.boot_bank).iter().all(|&x| x == 0xAA));
    assert!(region(&boot.storage, cfg.update_bank).iter().all(|&x| x == 0xBB));
}

#[test]
fn self_swap_is_refused_without_touching_storage() {
    // S5: exchanging the boot bank with itself is refused.
    let cfg = config();
    let mut boot = boot_with_state(Update::Request(cfg.boot_bank));
    let before = boot.storage.bytes.clone();
    let next = boot.exchange_firmwares(cfg.boot_bank, true);
    assert_eq!(next, Update::Error(UpdateError::InvalidImageIndex));
    assert_eq!(boot.storage.bytes, before);
}

#[test]
fn interrupted_exchange_resumes_and_arms_revert() {
    // A forward update was interrupted; after the resume the bootloader
    // arms the revert for the exchanged image.
    let cfg = config();
    let progress = ExchangeProgress {
        a: cfg.update_bank,
        b: cfg.boot_bank,
        page_index: 3,
        step: ExchangeStep::AToScratch,
        recovering: false,
    };
    let mut boot = boot_with_state(Update::Exchanging(progress));
    let next = boot.handle_exchanging(progress).unwrap();
    assert_eq!(next, Update::Revert(cfg.update_bank));
}

#[test]
fn interrupted_rollback_resumes_to_idle() {
    let cfg = config();
    let progress = ExchangeProgress {
        a: cfg.boot_bank,
        b: cfg.update_bank,
        page_index: 1,
        step: ExchangeStep::AToScratch,
        recovering: true,
    };
    let mut boot = boot_with_state(Update::Exchanging(progress));
    let next = boot.handle_exchanging(progress).unwrap();
    assert_eq!(next, Update::Idle);
}

#[test]
fn handle_none_does_nothing() {
    let mut boot = boot_with_state(Update::Idle);
    let before = boot.storage.bytes.clone();
    assert_eq!(boot.handle_none(), Update::Idle);
    assert_eq!(boot.storage.bytes, before);
}

#[test]
fn manager_rejects_oversized_update_bank() {
    // P8: an update bank larger than the boot bank is refused.
    let mut cfg = config();
    cfg.update_bank = bank(0x1800, 0x1000);
    let r: Result<MoonbootManager<_, _, _, PAGE>, _> =
        MoonbootManager::new(cfg, VecStorage::new_filled(0x4000, 0), RamState::new(), TestProcessor);
    assert!(r.is_err());
}

#[test]
fn manager_rejects_empty_banks() {
    let mut cfg = config();
    cfg.update_bank = bank(0x1800, 0);
    let r: Result<MoonbootManager<_, _, _, PAGE>, _> =
        MoonbootManager::new(cfg, VecStorage::new_filled(0x4000, 0), RamState::new(), TestProcessor);
    assert!(r.is_err());

    let mut cfg2 = config();
    cfg2.boot_bank = bank(0x1000, 0);
    cfg2.update_bank = bank(0x1800, 0);
    let r2: Result<MoonbootManager<_, _, _, PAGE>, _> =
        MoonbootManager::new(cfg2, VecStorage::new_filled(0x4000, 0), RamState::new(), TestProcessor);
    assert!(r2.is_err());
}

fn manager_with_state(update: Update) -> MoonbootManager<VecStorage, RamState, TestProcessor, PAGE> {
    let mut state = RamState::new();
    state.write(&MoonbootState { update }).unwrap();
    MoonbootManager::new(config(), VecStorage::new_filled(0x2100, 0), state, TestProcessor)
        .ok()
        .unwrap()
}

#[test]
fn mark_boot_successful_clears_pending_revert() {
    // P9: Revert(b) becomes Idle; Idle stays Idle.
    let cfg = config();
    let mut m = manager_with_state(Update::Revert(cfg.update_bank));
    m.mark_boot_successful().unwrap();
    assert_eq!(m.state.read().unwrap().update, Update::Idle);

    let mut m2 = manager_with_state(Update::Idle);
    m2.mark_boot_successful().unwrap();
    assert_eq!(m2.state.read().unwrap().update, Update::Idle);
}

#[test]
fn mark_boot_successful_refuses_queued_update() {
    // P9: a pending request or exchange means the bootloader was bypassed;
    // the state is left untouched.
    let cfg = config();
    let mut m = manager_with_state(Update::Request(cfg.update_bank));
    let r = m.mark_boot_successful();
    assert!(matches!(r, Err(MarkError::UpdateQueuedButNotInstalled)));
    assert_eq!(m.state.read().unwrap().update, Update::Request(cfg.update_bank));

    let progress = ExchangeProgress {
        a: cfg.update_bank,
        b: cfg.boot_bank,
        page_index: 0,
        step: ExchangeStep::AToScratch,
        recovering: false,
    };
    let mut m2 = manager_with_state(Update::Exchanging(progress));
    let r2 = m2.mark_boot_successful();
    assert!(matches!(r2, Err(MarkError::UpdateQueuedButNotInstalled)));
    assert_eq!(m2.state.read().unwrap().update, Update::Exchanging(progress));
}

#[test]
fn failed_exchange_reports_image_exchange_failed() {
    // A request naming a bank whose size differs from the boot bank cannot
    // be exchanged; the bootloader records the failure.
    let cfg = config();
    let mut boot = boot_with_state(Update::Request(cfg.update_bank));
    let bad = bank(0x1800, 0x400);
    let next = boot.handle_request(bad);
    assert_eq!(next, Update::Error(UpdateError::ImageExchangeFailed));
}

#[test]
fn boot_with_scratch_engine_installs_update() {
    let cfg = config();
    let mut storage = VecStorage::new_filled(0x2100, 0x00);
    for i in 0..cfg.boot_bank.size as usize {
        storage.bytes[cfg.boot_bank.location as usize + i] = 0xAA;
    }
    for i in 0..cfg.update_bank.size as usize {
        storage.bytes[cfg.update_bank.location as usize + i] = 0xBB;
    }
    let mut state = RamState::new();
    state
        .write(&MoonbootState { update: Update::Request(cfg.update_bank) })
        .unwrap();
    let engine = Scratch { pages: vec![cfg.scratch_bank.location] };
    let mut boot: MoonbootBoot<_, _, _, _, PAGE> =
        MoonbootBoot::new(cfg, storage, state, TestProcessor, engine);

    let next = boot.handle_request(cfg.update_bank);
    assert_eq!(next, Update::Revert(cfg.update_bank));
    assert!(region(&boot.storage, cfg.boot_bank).iter().all(|&x| x == 0xBB));
    assert!(region(&boot.storage, cfg.update_bank).iter().all(|&x| x == 0xAA));
}

#[test]
fn sticky_error_state_is_reemitted() {
    // An error state stays; the bootloader re-emits it each boot.
    let mut boot = boot_with_state(Update::Error(UpdateError::ImageExchangeFailed));
    let st = boot.state.read().unwrap();
    let next = match st.update {
        Update::Error(e) => Update::Error(e),
        other => panic!("unexpected {other:?}"),
    };
    assert_eq!(next, Update::Error(UpdateError::ImageExchangeFailed));
}
