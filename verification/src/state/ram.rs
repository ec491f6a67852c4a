//! State kept in a reserved region of RAM.  The region holds a CRC word
//! followed by the fixed-size serialized record; the CRC is recomputed on
//! every read, so a torn write is detected and treated as a cold boot.

use vstd::prelude::*;
use crate::state::{
    checksum, crc32_cksum_of, spec_deserialize, MoonbootState, State, StateCrcType, Update,
    STATE_SERIALIZED_MAX_SIZE,
};
use crate::state::lemma_state_roundtrip;
use crate::Never;

verus! {

/// State read from and written to a reserved memory region that is never
/// initialized by the runtime.  This assumes the region keeps its contents
/// across the resets the device performs between bootloader and
/// application.
pub struct RamState {
    /// The CRC word guarding the payload.
    pub crc: StateCrcType,
    /// The serialized record payload.
    pub data: Vec<u8>,
}

impl RamState {
    /// The record that a fault-free read of this region returns: the decoded
    /// payload when the CRC matches, and the cold-boot default otherwise.
    pub open spec fn contents(self) -> MoonbootState {
        if self.data@.len() == STATE_SERIALIZED_MAX_SIZE && self.crc == crc32_cksum_of(
            self.data@,
        ) {
            spec_deserialize(self.data@)
        } else {
            MoonbootState { update: Update::Idle }
        }
    }

    /// A fresh, zeroed region, as left by a loader that clears memory.
    pub fn new() -> (r: RamState)
        ensures
            r.crc == 0,
            r.data@ == Seq::new(STATE_SERIALIZED_MAX_SIZE as nat, |i: int| 0u8),
    {
        let data = vec![0u8; STATE_SERIALIZED_MAX_SIZE];
        proof {
            assert(data@ =~= Seq::new(STATE_SERIALIZED_MAX_SIZE as nat, |i: int| 0u8));
        }
        RamState { crc: 0, data }
    }
}

/// Law: a region whose CRC word does not match the CRC of its payload —
/// after a torn write, or after any corruption the CRC detects — reads as
/// the cold-boot default.
pub proof fn lemma_crc_mismatch_reads_default(s: RamState)
    requires
        s.crc != crc32_cksum_of(s.data@),
    ensures
        s.contents() == (MoonbootState { update: Update::Idle }),
{
}

impl State for RamState {
    type Error = Never;

    open spec fn stored(&self) -> MoonbootState {
        self.contents()
    }

    fn read(&mut self) -> (r: Result<MoonbootState, Never>)
        ensures
            r is Ok,
            *final(self) == *old(self),
    {
        if self.data.len() != STATE_SERIALIZED_MAX_SIZE {
            return Ok(MoonbootState { update: Update::Idle });
        }
        let crc = checksum(self.data.as_slice());
        if crc == self.crc {
            Ok(MoonbootState::deserialize_from(&self.data))
        } else {
            Ok(MoonbootState { update: Update::Idle })
        }
    }

    fn write(&mut self, data: &MoonbootState) -> (r: Result<(), Never>)
        ensures
            r is Ok,
            final(self).data@ == crate::state::spec_serialize(*data),
            final(self).crc == crc32_cksum_of(final(self).data@),
    {
        self.data = data.serialize();
        self.crc = checksum(self.data.as_slice());
        proof {
            lemma_state_roundtrip(*data);
        }
        Ok(())
    }
}

} // verus!
