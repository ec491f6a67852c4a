//! The CRC-guarded persistence path: fault-free round trips, and detection
//! of corrupted payloads.

use moonboot::hardware::{Bank, MemoryUnit};
use moonboot::state::ram::RamState;
use moonboot::state::{MoonbootState, State, Update, STATE_SERIALIZED_MAX_SIZE};

fn bank(location: u32, size: u32) -> Bank {
    Bank {
        location,
        size,
        memory_unit: MemoryUnit::Internal,
    }
}

#[test]
fn write_then_read_returns_the_record() {
    let mut ram = RamState::new();
    let s = MoonbootState {
        update: Update::Request(bank(0x18000, 0x8000)),
    };
    ram.write(&s).unwrap();
    let back = ram.read().unwrap();
    assert_eq!(back, s);
}

#[test]
fn fresh_region_reads_cold_boot_default() {
    // An uninitialized region almost never carries a matching CRC; the
    // zeroed one does not.
    let mut ram = RamState::new();
    let back = ram.read().unwrap();
    assert_eq!(back.update, Update::Idle);
}

#[test]
fn corrupt_first_byte_reads_cold_boot_default() {
    let mut ram = RamState::new();
    ram.write(&MoonbootState {
        update: Update::Request(bank(0x18000, 0x8000)),
    })
    .unwrap();
    ram.data[0] ^= 0x01;
    let back = ram.read().unwrap();
    assert_eq!(back.update, Update::Idle);
}

#[test]
fn flipping_any_payload_bit_reads_cold_boot_default() {
    let mut ram = RamState::new();
    ram.write(&MoonbootState {
        update: Update::Request(bank(0x1234_5678, 0x8000)),
    })
    .unwrap();
    for i in 0..STATE_SERIALIZED_MAX_SIZE {
        for bit in 0..8 {
            let mut torn = RamState {
                crc: ram.crc,
                data: ram.data.clone(),
            };
            torn.data[i] ^= 1u8 << bit;
            let back = torn.read().unwrap();
            assert_eq!(back.update, Update::Idle, "byte {i} bit {bit} undetected");
        }
    }
}
