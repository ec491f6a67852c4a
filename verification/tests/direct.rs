//! The direct exchange engine: complete swaps, resumed swaps, and refused
//! geometries.

use moonboot::exchange::ram::direct_exchange;
use moonboot::exchange::{ExchangeError, MemoryError};
use moonboot::hardware::{Bank, MemoryUnit};
use moonboot::state::ram::RamState;
use moonboot::state::{ExchangeProgress, ExchangeStep, MoonbootState, State, Update};
use moonboot::storage::VecStorage;

const PAGE: usize = 0x100;

fn bank(location: u32, size: u32) -> Bank {
    Bank {
        location,
        size,
        memory_unit: MemoryUnit::Internal,
    }
}

fn filled_storage(total: usize, a: Bank, b: Bank, fill_a: u8, fill_b: u8) -> VecStorage {
    let mut st = VecStorage::new_filled(total, 0x00);
    for i in 0..a.size as usize {
        st.bytes[a.location as usize + i] = fill_a;
    }
    for i in 0..b.size as usize {
        st.bytes[b.location as usize + i] = fill_b;
    }
    st
}

fn region(st: &VecStorage, bank: Bank) -> &[u8] {
    &st.bytes[bank.location as usize..(bank.location + bank.size) as usize]
}

fn progress(a: Bank, b: Bank, page_index: u32) -> ExchangeProgress {
    ExchangeProgress {
        a,
        b,
        page_index,
        step: ExchangeStep::AToScratch,
        recovering: false,
    }
}

#[test]
fn direct_swap_full_pages_and_tail() {
    // Two whole pages plus a 0x20-byte tail in each bank.
    let a = bank(0x000, 0x220);
    let b = bank(0x400, 0x220);
    let mut storage = filled_storage(0x800, a, b, 0xAA, 0xBB);
    let mut state = RamState::new();
    state.write(&MoonbootState { update: Update::Request(a) }).unwrap();

    direct_exchange::<_, _, PAGE>(&mut storage, &mut state, progress(a, b, 0)).unwrap();

    assert!(region(&storage, a).iter().all(|&x| x == 0xBB));
    assert!(region(&storage, b).iter().all(|&x| x == 0xAA));
    // Everything outside the banks is untouched.
    assert!(storage.bytes[0x220..0x400].iter().all(|&x| x == 0x00));
    assert!(storage.bytes[0x620..].iter().all(|&x| x == 0x00));
    // The last checkpoint names the final full page.
    match state.read().unwrap().update {
        Update::Exchanging(p) => {
            assert_eq!(p.page_index, 1);
            assert_eq!(p.a, a);
            assert_eq!(p.b, b);
            assert!(!p.recovering);
        }
        other => panic!("unexpected state {other:?}"),
    }
}

#[test]
fn direct_swap_distinct_patterns() {
    let a = bank(0x000, 0x200);
    let b = bank(0x200, 0x200);
    let mut storage = VecStorage::new_filled(0x400, 0);
    for i in 0..0x200usize {
        storage.bytes[i] = i as u8;
        storage.bytes[0x200 + i] = (i as u8).wrapping_mul(31).wrapping_add(7);
    }
    let before = storage.bytes.clone();
    let mut state = RamState::new();

    direct_exchange::<_, _, PAGE>(&mut storage, &mut state, progress(a, b, 0)).unwrap();

    assert_eq!(&storage.bytes[..0x200], &before[0x200..]);
    assert_eq!(&storage.bytes[0x200..], &before[..0x200]);
}

#[test]
fn direct_resume_keeps_earlier_pages() {
    // Resume from page 2 of 4: pages 0 and 1 keep whatever they hold.
    let a = bank(0x000, 0x400);
    let b = bank(0x400, 0x400);
    let mut storage = filled_storage(0x800, a, b, 0xAA, 0xBB);
    // Pages 0 and 1 were already swapped before the simulated power loss.
    for i in 0..0x200usize {
        storage.bytes[i] = 0xBB;
        storage.bytes[0x400 + i] = 0xAA;
    }
    let mut state = RamState::new();
    let resume = ExchangeProgress {
        a,
        b,
        page_index: 2,
        step: ExchangeStep::AToScratch,
        recovering: false,
    };
    state.write(&MoonbootState { update: Update::Exchanging(resume) }).unwrap();

    direct_exchange::<_, _, PAGE>(&mut storage, &mut state, resume).unwrap();

    // The whole of bank a now holds b's original contents and vice versa,
    // and the checkpoint index only moved forward.
    assert!(region(&storage, a).iter().all(|&x| x == 0xBB));
    assert!(region(&storage, b).iter().all(|&x| x == 0xAA));
    match state.read().unwrap().update {
        Update::Exchanging(p) => assert_eq!(p.page_index, 3),
        other => panic!("unexpected state {other:?}"),
    }
}

#[test]
fn direct_rejects_unequal_sizes() {
    let a = bank(0x000, 0x200);
    let b = bank(0x400, 0x100);
    let mut storage = VecStorage::new_filled(0x800, 0x5A);
    let before = storage.bytes.clone();
    let mut state = RamState::new();
    let r = direct_exchange::<_, _, PAGE>(&mut storage, &mut state, progress(a, b, 0));
    assert!(matches!(r, Err(ExchangeError::Memory(MemoryError::BankSizeNotEqual))));
    assert_eq!(storage.bytes, before);
}

#[test]
fn direct_rejects_zero_size() {
    let a = bank(0x000, 0);
    let b = bank(0x400, 0);
    let mut storage = VecStorage::new_filled(0x800, 0x5A);
    let mut state = RamState::new();
    let r = direct_exchange::<_, _, PAGE>(&mut storage, &mut state, progress(a, b, 0));
    assert!(matches!(r, Err(ExchangeError::Memory(MemoryError::BankSizeZero))));
}

#[test]
fn direct_rejects_out_of_range_bank() {
    let a = bank(0x000, 0x200);
    let b = bank(0x700, 0x200);  // ends past the 0x800-byte unit
    let mut storage = VecStorage::new_filled(0x800, 0x5A);
    let mut state = RamState::new();
    let r = direct_exchange::<_, _, PAGE>(&mut storage, &mut state, progress(a, b, 0));
    assert!(matches!(r, Err(ExchangeError::Memory(MemoryError::BankOutOfRange))));
}

#[test]
fn direct_rejects_overlapping_banks() {
    let a = bank(0x000, 0x200);
    let b = bank(0x100, 0x200);
    let mut storage = VecStorage::new_filled(0x800, 0x5A);
    let before = storage.bytes.clone();
    let mut state = RamState::new();
    let r = direct_exchange::<_, _, PAGE>(&mut storage, &mut state, progress(a, b, 0));
    assert!(matches!(r, Err(ExchangeError::Memory(MemoryError::BanksOverlap))));
    assert_eq!(storage.bytes, before);
}
