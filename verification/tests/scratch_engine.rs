//! The scratch exchange engine: complete swaps, the misalignment guard,
//! and resumption after a simulated power loss.

use moonboot::exchange::scratch::scratch_exchange;
use moonboot::exchange::{ExchangeError, MemoryError};
use moonboot::hardware::{Bank, MemoryUnit};
use moonboot::state::ram::RamState;
use moonboot::state::{ExchangeProgress, ExchangeStep, MoonbootState, State, Update};
use moonboot::storage::VecStorage;

const PAGE: usize = 0x100;

fn bank(location: u32, size: u32) -> Bank {
    Bank {
        location,
        size,
        memory_unit: MemoryUnit::Internal,
    }
}

fn patterned_storage(total: usize, a: Bank, b: Bank) -> VecStorage {
    let mut st = VecStorage::new_filled(total, 0x00);
    for i in 0..a.size as usize {
        st.bytes[a.location as usize + i] = (i as u8).wrapping_mul(3).wrapping_add(1);
    }
    for i in 0..b.size as usize {
        st.bytes[b.location as usize + i] = (i as u8).wrapping_mul(5).wrapping_add(2);
    }
    st
}

fn region(st: &VecStorage, bank: Bank) -> Vec<u8> {
    st.bytes[bank.location as usize..(bank.location + bank.size) as usize].to_vec()
}

fn start_progress(a: Bank, b: Bank) -> ExchangeProgress {
    ExchangeProgress {
        a,
        b,
        page_index: 0,
        step: ExchangeStep::AToScratch,
        recovering: false,
    }
}

#[test]
fn scratch_swap_whole_banks() {
    let a = bank(0x000, 0x400);
    let b = bank(0x400, 0x400);
    let scratch = vec![0x800u32];
    let mut storage = patterned_storage(0xA00, a, b);
    let a0 = region(&storage, a);
    let b0 = region(&storage, b);
    let mut state = RamState::new();
    state.write(&MoonbootState { update: Update::Request(a) }).unwrap();

    scratch_exchange::<_, _, PAGE>(&scratch, &mut storage, &mut state, start_progress(a, b))
        .unwrap();

    assert_eq!(region(&storage, a), b0);
    assert_eq!(region(&storage, b), a0);
    // Bytes between the scratch page and the end of the unit are untouched.
    assert!(storage.bytes[0x900..].iter().all(|&x| x == 0x00));
    // The last checkpoint names the final page and its final sub-step.
    match state.read().unwrap().update {
        Update::Exchanging(p) => {
            assert_eq!(p.page_index, 3);
            assert_eq!(p.step, ExchangeStep::ScratchToB);
            assert!(!p.recovering);
        }
        other => panic!("unexpected state {other:?}"),
    }
}

#[test]
fn scratch_rotates_over_several_pages() {
    let a = bank(0x000, 0x400);
    let b = bank(0x400, 0x400);
    let scratch = vec![0x800u32, 0x900u32];
    let mut storage = patterned_storage(0xA00, a, b);
    let a0 = region(&storage, a);
    let b0 = region(&storage, b);
    let mut state = RamState::new();

    scratch_exchange::<_, _, PAGE>(&scratch, &mut storage, &mut state, start_progress(a, b))
        .unwrap();

    assert_eq!(region(&storage, a), b0);
    assert_eq!(region(&storage, b), a0);
}

#[test]
fn scratch_rejects_misaligned_size_before_writing() {
    let a = bank(0x000, 0x180);
    let b = bank(0x400, 0x180);
    let scratch = vec![0x800u32];
    let mut storage = patterned_storage(0xA00, a, b);
    let before = storage.bytes.clone();
    let mut state = RamState::new();

    let r = scratch_exchange::<_, _, PAGE>(&scratch, &mut storage, &mut state, start_progress(a, b));
    assert!(matches!(r, Err(ExchangeError::Memory(MemoryError::PageSizeMisaligned))));
    assert_eq!(storage.bytes, before);
}

#[test]
fn scratch_rejects_missing_scratch_pages() {
    let a = bank(0x000, 0x400);
    let b = bank(0x400, 0x400);
    let scratch: Vec<u32> = Vec::new();
    let mut storage = patterned_storage(0xA00, a, b);
    let mut state = RamState::new();
    let r = scratch_exchange::<_, _, PAGE>(&scratch, &mut storage, &mut state, start_progress(a, b));
    assert!(matches!(r, Err(ExchangeError::Memory(MemoryError::ScratchInvalid))));
}

#[test]
fn scratch_rejects_scratch_inside_bank() {
    let a = bank(0x000, 0x400);
    let b = bank(0x400, 0x400);
    let scratch = vec![0x500u32];  // inside bank b
    let mut storage = patterned_storage(0xA00, a, b);
    let mut state = RamState::new();
    let r = scratch_exchange::<_, _, PAGE>(&scratch, &mut storage, &mut state, start_progress(a, b));
    assert!(matches!(r, Err(ExchangeError::Memory(MemoryError::ScratchInvalid))));
}

/// Simulate a power loss right after the checkpoint for sub-step `BToA`
/// of page 3 was written and before its flash write: re-running from the
/// checkpoint must give the same final banks as the uninterrupted run.
#[test]
fn scratch_power_loss_resume_matches_uninterrupted() {
    let a = bank(0x000, 0x400);
    let b = bank(0x400, 0x400);
    let scratch = vec![0x800u32];
    let page_index: usize = 3;

    // The uninterrupted run.
    let mut full_run = patterned_storage(0xA00, a, b);
    let mut full_state = RamState::new();
    scratch_exchange::<_, _, PAGE>(&scratch, &mut full_run, &mut full_state, start_progress(a, b))
        .unwrap();

    // The crash state, per the per-sub-step invariant: pages before 3 are
    // swapped, the scratch page holds the original page 3 of bank a, and
    // both banks' page 3 (and later pages) are untouched.
    let pristine = patterned_storage(0xA00, a, b);
    let mut crashed = patterned_storage(0xA00, a, b);
    for p in 0..page_index {
        for i in 0..PAGE {
            let off = p * PAGE + i;
            crashed.bytes[off] = pristine.bytes[0x400 + off];
            crashed.bytes[0x400 + off] = pristine.bytes[off];
        }
    }
    for i in 0..PAGE {
        crashed.bytes[0x800 + i] = pristine.bytes[page_index * PAGE + i];
    }
    let resume = ExchangeProgress {
        a,
        b,
        page_index: page_index as u32,
        step: ExchangeStep::BToA,
        recovering: false,
    };
    let mut crash_state = RamState::new();
    crash_state.write(&MoonbootState { update: Update::Exchanging(resume) }).unwrap();

    scratch_exchange::<_, _, PAGE>(&scratch, &mut crashed, &mut crash_state, resume).unwrap();

    assert_eq!(region(&crashed, a), region(&full_run, a));
    assert_eq!(region(&crashed, b), region(&full_run, b));
    // The resumed run carried the recovery flag of its checkpoint through.
    match crash_state.read().unwrap().update {
        Update::Exchanging(p) => {
            assert_eq!(p.page_index, 3);
            assert!(!p.recovering);
        }
        other => panic!("unexpected state {other:?}"),
    }
}
