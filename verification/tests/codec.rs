//! Round-trip tests for the fixed-layout state codec.

use moonboot::hardware::{Bank, MemoryUnit};
use moonboot::state::{
    ExchangeProgress, ExchangeStep, MoonbootState, Update, UpdateError, STATE_SERIALIZED_MAX_SIZE,
};

fn bank(location: u32, size: u32) -> Bank {
    Bank {
        location,
        size,
        memory_unit: MemoryUnit::Internal,
    }
}

fn round_trip(s: MoonbootState) {
    let bytes = s.serialize();
    assert_eq!(bytes.len(), STATE_SERIALIZED_MAX_SIZE);
    let back = MoonbootState::deserialize_from(&bytes);
    assert_eq!(back, s);
}

#[test]
fn round_trip_idle() {
    round_trip(MoonbootState {
        update: Update::Idle,
    });
}

#[test]
fn round_trip_request() {
    round_trip(MoonbootState {
        update: Update::Request(bank(0x18000, 0x8000)),
    });
}

#[test]
fn round_trip_revert() {
    round_trip(MoonbootState {
        update: Update::Revert(bank(0xFFFF_0000, 0xFFFF)),
    });
}

#[test]
fn round_trip_exchanging_all_steps() {
    for (step, page_index) in [
        (ExchangeStep::AToScratch, 0u32),
        (ExchangeStep::BToA, 3),
        (ExchangeStep::ScratchToB, u32::MAX),
    ] {
        round_trip(MoonbootState {
            update: Update::Exchanging(ExchangeProgress {
                a: bank(0x10000, 0x8000),
                b: bank(0x18000, 0x8000),
                page_index,
                step,
                recovering: page_index % 2 == 1,
            }),
        });
    }
}

#[test]
fn round_trip_errors() {
    for e in [
        UpdateError::InvalidImageIndex,
        UpdateError::ImageExchangeFailed,
        UpdateError::InvalidState,
        UpdateError::InvalidSignature,
    ] {
        round_trip(MoonbootState {
            update: Update::Error(e),
        });
    }
}

#[test]
fn serialized_layout_is_tagged() {
    let idle = MoonbootState {
        update: Update::Idle,
    }
    .serialize();
    assert_eq!(idle[0], 0);
    assert!(idle[1..].iter().all(|&b| b == 0));

    let req = MoonbootState {
        update: Update::Request(bank(0x0102_0304, 0x0A0B_0C0D)),
    }
    .serialize();
    assert_eq!(req[0], 1);
    // location, then size, little endian, then the memory unit byte.
    assert_eq!(&req[1..5], &[0x04, 0x03, 0x02, 0x01]);
    assert_eq!(&req[5..9], &[0x0D, 0x0C, 0x0B, 0x0A]);
    assert_eq!(req[9], 0);
}
