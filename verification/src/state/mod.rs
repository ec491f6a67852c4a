//! The shared update state record, its fixed-layout byte codec, the CRC that
//! guards it in memory, and the storage abstraction for it.

pub mod ram;

use vstd::prelude::*;
use vstd::bytes::*;
use crate::hardware::{Bank, MemoryUnit};

verus! {

/// Decision making states for the bootloader.
#[derive(Debug, PartialEq, Eq, Clone, Copy, Structural)]
pub enum Update {
    /// No update requested; just jump to the application.
    Idle,
    /// Exchange the current boot image with the one in the given bank.
    Request(Bank),
    /// Revert the current boot image to the image in the given bank.
    Revert(Bank),
    /// An exchange operation is in progress or was interrupted.
    Exchanging(ExchangeProgress),
    /// An error occurred during the update.
    Error(UpdateError),
}

/// Errors that can occur during an update.
#[derive(Debug, PartialEq, Eq, Clone, Copy, Structural)]
pub enum UpdateError {
    /// A wrong image has been specified.
    InvalidImageIndex,
    /// Failed to exchange the new image with the old one.
    ImageExchangeFailed,
    /// The stored state did not have the expected shape.
    InvalidState,
    /// The signature provided does not match the public key or image.
    InvalidSignature,
}

/// Upcoming operation of the scratch exchange process for a given page index.
#[derive(Debug, PartialEq, Eq, Clone, Copy, Structural)]
pub enum ExchangeStep {
    /// Copy page A to the scratch page.
    AToScratch,
    /// Copy page B to page A.
    BToA,
    /// Copy the scratch page to page B.
    ScratchToB,
}

/// Checkpoint record for the current exchange operation.
#[derive(Debug, PartialEq, Eq, Clone, Copy, Structural)]
pub struct ExchangeProgress {
    /// Bank the update is coming from.
    pub a: Bank,
    /// Bank the update is going to.
    pub b: Bank,
    /// Page the operation is currently on.
    pub page_index: u32,
    /// Upcoming operation of the exchange process for that page.
    pub step: ExchangeStep,
    /// Whether this exchange resulted from a request (`false`) or from a
    /// revert of a failed boot (`true`).
    pub recovering: bool,
}

/// The record shared between the bootloader and the application.
#[derive(Debug, PartialEq, Eq, Clone, Copy, Structural)]
pub struct MoonbootState {
    /// The pending decision of the update state machine.
    pub update: Update,
}

/// Size in bytes of the serialized state record.
pub const STATE_SERIALIZED_MAX_SIZE: usize = 25;

/// Type used to store the shared state CRC.
pub type StateCrcType = u32;

// ---------------------------------------------------------------------------
// Serialized layout, as a specification.
//
// A bank takes 9 bytes: location and size as little-endian 32-bit words,
// then one byte naming the memory unit.  A progress record takes 24 bytes:
// both banks, the page index as a little-endian word, the step byte and the
// recovering flag.  The whole record is one tag byte followed by the payload
// of the chosen variant, zero-padded to `STATE_SERIALIZED_MAX_SIZE`.
// ---------------------------------------------------------------------------

/// The byte naming a memory unit.
pub open spec fn spec_unit_byte(u: MemoryUnit) -> u8 {
    match u {
        MemoryUnit::Internal => 0u8,
    }
}

/// The byte naming an exchange step.
pub open spec fn spec_step_byte(s: ExchangeStep) -> u8 {
    match s {
        ExchangeStep::AToScratch => 0u8,
        ExchangeStep::BToA => 1u8,
        ExchangeStep::ScratchToB => 2u8,
    }
}

/// The byte naming an update error.
pub open spec fn spec_error_byte(e: UpdateError) -> u8 {
    match e {
        UpdateError::InvalidImageIndex => 0u8,
        UpdateError::ImageExchangeFailed => 1u8,
        UpdateError::InvalidState => 2u8,
        UpdateError::InvalidSignature => 3u8,
    }
}

/// The byte encoding a boolean flag.
pub open spec fn spec_bool_byte(b: bool) -> u8 {
    if b {
        1u8
    } else {
        0u8
    }
}

/// The 9-byte encoding of a bank.
pub open spec fn spec_serialize_bank(b: Bank) -> Seq<u8> {
    spec_u32_to_le_bytes(b.location) + spec_u32_to_le_bytes(b.size)
        + seq![spec_unit_byte(b.memory_unit)]
}

/// The 24-byte encoding of a progress record.
pub open spec fn spec_serialize_progress(p: ExchangeProgress) -> Seq<u8> {
    spec_serialize_bank(p.a) + spec_serialize_bank(p.b)
        + spec_u32_to_le_bytes(p.page_index)
        + seq![spec_step_byte(p.step), spec_bool_byte(p.recovering)]
}

/// Tag byte plus payload of an update value, before padding.
pub open spec fn spec_update_payload(u: Update) -> Seq<u8> {
    match u {
        Update::Idle => seq![0u8],
        Update::Request(b) => seq![1u8] + spec_serialize_bank(b),
        Update::Revert(b) => seq![2u8] + spec_serialize_bank(b),
        Update::Exchanging(p) => seq![3u8] + spec_serialize_progress(p),
        Update::Error(e) => seq![4u8, spec_error_byte(e)],
    }
}

/// The full fixed-size encoding of a state record: the payload of its
/// variant, zero-padded to `STATE_SERIALIZED_MAX_SIZE` bytes.
pub open spec fn spec_serialize(s: MoonbootState) -> Seq<u8> {
    let payload = spec_update_payload(s.update);
    payload + Seq::new((STATE_SERIALIZED_MAX_SIZE - payload.len()) as nat, |i: int| 0u8)
}

/// Decode a bank from its 9-byte encoding.
pub open spec fn spec_deserialize_bank(bytes: Seq<u8>) -> Bank
    recommends
        bytes.len() == 9,
{
    Bank {
        location: spec_u32_from_le_bytes(bytes.subrange(0, 4)),
        size: spec_u32_from_le_bytes(bytes.subrange(4, 8)),
        memory_unit: MemoryUnit::Internal,
    }
}

/// Decode an exchange step from its byte; unknown bytes decode to the first
/// step.
pub open spec fn spec_step_of_byte(b: u8) -> ExchangeStep {
    if b == 1u8 {
        ExchangeStep::BToA
    } else if b == 2u8 {
        ExchangeStep::ScratchToB
    } else {
        ExchangeStep::AToScratch
    }
}

/// Decode an update error from its byte; unknown bytes decode to
/// `InvalidState`.
pub open spec fn spec_error_of_byte(b: u8) -> UpdateError {
    if b == 0u8 {
        UpdateError::InvalidImageIndex
    } else if b == 1u8 {
        UpdateError::ImageExchangeFailed
    } else if b == 3u8 {
        UpdateError::InvalidSignature
    } else {
        UpdateError::InvalidState
    }
}

/// Decode a progress record from its 24-byte encoding.
pub open spec fn spec_deserialize_progress(bytes: Seq<u8>) -> ExchangeProgress
    recommends
        bytes.len() == 24,
{
    ExchangeProgress {
        a: spec_deserialize_bank(bytes.subrange(0, 9)),
        b: spec_deserialize_bank(bytes.subrange(9, 18)),
        page_index: spec_u32_from_le_bytes(bytes.subrange(18, 22)),
        step: spec_step_of_byte(bytes[22]),
        recovering: bytes[23] != 0u8,
    }
}

/// Decode a state record from its fixed-size encoding.  Unknown tag bytes
/// decode to the cold-boot default.
pub open spec fn spec_deserialize(bytes: Seq<u8>) -> MoonbootState
    recommends
        bytes.len() == STATE_SERIALIZED_MAX_SIZE,
{
    let update = if bytes[0] == 1u8 {
        Update::Request(spec_deserialize_bank(bytes.subrange(1, 10)))
    } else if bytes[0] == 2u8 {
        Update::Revert(spec_deserialize_bank(bytes.subrange(1, 10)))
    } else if bytes[0] == 3u8 {
        Update::Exchanging(spec_deserialize_progress(bytes.subrange(1, 25)))
    } else if bytes[0] == 4u8 {
        Update::Error(spec_error_of_byte(bytes[1]))
    } else {
        Update::Idle
    };
    MoonbootState { update }
}

// ---------------------------------------------------------------------------
// The executable codec.
// ---------------------------------------------------------------------------

/// The byte naming a memory unit.
fn unit_byte(u: MemoryUnit) -> (r: u8)
    ensures
        r == spec_unit_byte(u),
{
    match u {
        MemoryUnit::Internal => 0u8,
    }
}

/// The byte naming an exchange step.
fn step_byte(s: ExchangeStep) -> (r: u8)
    ensures
        r == spec_step_byte(s),
{
    match s {
        ExchangeStep::AToScratch => 0u8,
        ExchangeStep::BToA => 1u8,
        ExchangeStep::ScratchToB => 2u8,
    }
}

/// The byte naming an update error.
fn error_byte(e: UpdateError) -> (r: u8)
    ensures
        r == spec_error_byte(e),
{
    match e {
        UpdateError::InvalidImageIndex => 0u8,
        UpdateError::ImageExchangeFailed => 1u8,
        UpdateError::InvalidState => 2u8,
        UpdateError::InvalidSignature => 3u8,
    }
}

/// Append the 9-byte encoding of a bank.
fn push_bank(out: &mut Vec<u8>, b: Bank)
    ensures
        final(out)@ == old(out)@ + spec_serialize_bank(b),
{
    let mut loc = u32_to_le_bytes(b.location);
    out.append(&mut loc);
    let mut size = u32_to_le_bytes(b.size);
    out.append(&mut size);
    out.push(unit_byte(b.memory_unit));
    proof {
        assert(final(out)@ =~= old(out)@ + spec_serialize_bank(b));
    }
}

/// Append the 24-byte encoding of a progress record.
fn push_progress(out: &mut Vec<u8>, p: ExchangeProgress)
    ensures
        final(out)@ == old(out)@ + spec_serialize_progress(p),
{
    push_bank(out, p.a);
    push_bank(out, p.b);
    let mut page = u32_to_le_bytes(p.page_index);
    out.append(&mut page);
    out.push(step_byte(p.step));
    out.push(if p.recovering { 1u8 } else { 0u8 });
    proof {
        assert(final(out)@ =~= old(out)@ + spec_serialize_progress(p));
    }
}

/// Read a little-endian 32-bit word at the given offset.
fn read_u32_at(bytes: &Vec<u8>, off: usize) -> (x: u32)
    requires
        off + 4 <= bytes@.len(),
    ensures
        x == spec_u32_from_le_bytes(bytes@.subrange(off as int, off + 4)),
{
    let _len: usize = bytes.len();
    let s = vstd::slice::slice_subrange(bytes.as_slice(), off, off + 4);
    u32_from_le_bytes(s)
}

/// Read the 9-byte encoding of a bank at the given offset.
fn read_bank(bytes: &Vec<u8>, off: usize) -> (b: Bank)
    requires
        off + 9 <= bytes@.len(),
    ensures
        b == spec_deserialize_bank(bytes@.subrange(off as int, off + 9)),
{
    let _len: usize = bytes.len();
    let location = read_u32_at(bytes, off);
    let size = read_u32_at(bytes, off + 4);
    proof {
        let enc = bytes@.subrange(off as int, off + 9);
        assert(enc.subrange(0, 4) =~= bytes@.subrange(off as int, off + 4));
        assert(enc.subrange(4, 8) =~= bytes@.subrange(off + 4, off + 8));
    }
    Bank { location, size, memory_unit: MemoryUnit::Internal }
}

/// Read the 24-byte encoding of a progress record at the given offset.
fn read_progress(bytes: &Vec<u8>, off: usize) -> (p: ExchangeProgress)
    requires
        off + 24 <= bytes@.len(),
    ensures
        p == spec_deserialize_progress(bytes@.subrange(off as int, off + 24)),
{
    let _len: usize = bytes.len();
    let a = read_bank(bytes, off);
    let b = read_bank(bytes, off + 9);
    let page_index = read_u32_at(bytes, off + 18);
    let step = bytes[off + 22];
    let step = if step == 1u8 {
        ExchangeStep::BToA
    } else if step == 2u8 {
        ExchangeStep::ScratchToB
    } else {
        ExchangeStep::AToScratch
    };
    let recovering = bytes[off + 23] != 0u8;
    proof {
        let enc = bytes@.subrange(off as int, off + 24);
        assert(enc.subrange(0, 9) =~= bytes@.subrange(off as int, off + 9));
        assert(enc.subrange(9, 18) =~= bytes@.subrange(off + 9, off + 18));
        assert(enc.subrange(18, 22) =~= bytes@.subrange(off + 18, off + 22));
        assert(enc[22] == bytes@[off + 22]);
        assert(enc[23] == bytes@[off + 23]);
    }
    ExchangeProgress { a, b, page_index, step, recovering }
}

impl MoonbootState {
    /// Encode this record into its fixed-size serialized form.
    pub fn serialize(&self) -> (r: Vec<u8>)
        ensures
            r@ == spec_serialize(*self),
            r@.len() == STATE_SERIALIZED_MAX_SIZE,
    {
        let mut out: Vec<u8> = Vec::new();
        match self.update {
            Update::Idle => {
                out.push(0u8);
            },
            Update::Request(b) => {
                out.push(1u8);
                push_bank(&mut out, b);
            },
            Update::Revert(b) => {
                out.push(2u8);
                push_bank(&mut out, b);
            },
            Update::Exchanging(p) => {
                out.push(3u8);
                push_progress(&mut out, p);
            },
            Update::Error(e) => {
                out.push(4u8);
                out.push(error_byte(e));
            },
        }
        proof {
            vstd::bytes::lemma_auto_spec_u32_to_from_le_bytes();
            assert(out@ =~= spec_update_payload(self.update));
        }
        let pad_len = STATE_SERIALIZED_MAX_SIZE - out.len();
        let mut padding = vec![0u8; pad_len];
        out.append(&mut padding);
        proof {
            assert(out@ =~= spec_serialize(*self));
        }
        out
    }

    /// Decode a record from its fixed-size serialized form.
    pub fn deserialize_from(bytes: &Vec<u8>) -> (r: MoonbootState)
        requires
            bytes@.len() == STATE_SERIALIZED_MAX_SIZE,
        ensures
            r == spec_deserialize(bytes@),
    {
        let tag = bytes[0];
        let update = if tag == 1u8 {
            Update::Request(read_bank(bytes, 1))
        } else if tag == 2u8 {
            Update::Revert(read_bank(bytes, 1))
        } else if tag == 3u8 {
            Update::Exchanging(read_progress(bytes, 1))
        } else if tag == 4u8 {
            let e = bytes[1];
            Update::Error(
                if e == 0u8 {
                    UpdateError::InvalidImageIndex
                } else if e == 1u8 {
                    UpdateError::ImageExchangeFailed
                } else if e == 3u8 {
                    UpdateError::InvalidSignature
                } else {
                    UpdateError::InvalidState
                },
            )
        } else {
            Update::Idle
        };
        MoonbootState { update }
    }
}

// ---------------------------------------------------------------------------
// The codec round trip.
// ---------------------------------------------------------------------------

/// The encoding of a bank is 9 bytes and decodes to the same bank.
pub proof fn lemma_bank_roundtrip(b: Bank)
    ensures
        spec_serialize_bank(b).len() == 9,
        spec_deserialize_bank(spec_serialize_bank(b)) == b,
{
    vstd::bytes::lemma_auto_spec_u32_to_from_le_bytes();
    let enc = spec_serialize_bank(b);
    assert(enc.subrange(0, 4) =~= spec_u32_to_le_bytes(b.location));
    assert(enc.subrange(4, 8) =~= spec_u32_to_le_bytes(b.size));
}

/// The encoding of a progress record is 24 bytes and decodes to the same
/// record.
pub proof fn lemma_progress_roundtrip(p: ExchangeProgress)
    ensures
        spec_serialize_progress(p).len() == 24,
        spec_deserialize_progress(spec_serialize_progress(p)) == p,
{
    vstd::bytes::lemma_auto_spec_u32_to_from_le_bytes();
    lemma_bank_roundtrip(p.a);
    lemma_bank_roundtrip(p.b);
    let enc = spec_serialize_progress(p);
    assert(enc.subrange(0, 9) =~= spec_serialize_bank(p.a));
    assert(enc.subrange(9, 18) =~= spec_serialize_bank(p.b));
    assert(enc.subrange(18, 22) =~= spec_u32_to_le_bytes(p.page_index));
    assert(enc[22] == spec_step_byte(p.step));
    assert(enc[23] == spec_bool_byte(p.recovering));
}

/// Law: decoding an encoded state record yields the record itself, for
/// every record.
pub proof fn lemma_state_roundtrip(s: MoonbootState)
    ensures
        spec_serialize(s).len() == STATE_SERIALIZED_MAX_SIZE,
        spec_deserialize(spec_serialize(s)) == s,
{
    vstd::bytes::lemma_auto_spec_u32_to_from_le_bytes();
    let enc = spec_serialize(s);
    let payload = spec_update_payload(s.update);
    match s.update {
        Update::Idle => {
        },
        Update::Request(b) => {
            lemma_bank_roundtrip(b);
            assert(enc.subrange(1, 10) =~= spec_serialize_bank(b));
        },
        Update::Revert(b) => {
            lemma_bank_roundtrip(b);
            assert(enc.subrange(1, 10) =~= spec_serialize_bank(b));
        },
        Update::Exchanging(p) => {
            lemma_progress_roundtrip(p);
            assert(enc.subrange(1, 25) =~= spec_serialize_progress(p));
        },
        Update::Error(e) => {
            assert(enc[1] == spec_error_byte(e));
        },
    }
}

// ---------------------------------------------------------------------------
// The CRC over the serialized record.
// ---------------------------------------------------------------------------

/// The CRC-32 (CKSUM polynomial) of a byte sequence, as computed by the crc
/// crate.  The value is determined by the bytes alone.
pub uninterp spec fn crc32_cksum_of(bytes: Seq<u8>) -> u32;

/// Relies on `crc::Crc::<u32>::checksum` with the `CRC_32_CKSUM` algorithm
/// of the crc catalog: a pure table-driven computation whose result depends
/// on the input bytes alone.
#[verifier::external_body]
pub(crate) fn checksum(bytes: &[u8]) -> (r: StateCrcType)
    ensures
        r == crc32_cksum_of(bytes@),
{
    crc::Crc::<StateCrcType>::new(&crc::CRC_32_CKSUM).checksum(bytes)
}

// ---------------------------------------------------------------------------
// The storage abstraction for the shared record.
// ---------------------------------------------------------------------------

/// Hardware abstraction for the state storage.  The record can for example
/// be stored in a linker-reserved region of RAM, or on a flash page.  An
/// implementation exposes, as the spec function `stored`, the record that a
/// fault-free read would currently return.
pub trait State {
    /// The backend's own error type.
    type Error;

    /// The record that a read would return now.
    spec fn stored(&self) -> MoonbootState;

    /// Read the shared state.
    fn read(&mut self) -> (r: Result<MoonbootState, Self::Error>)
        ensures
            final(self).stored() == old(self).stored(),
            (r matches Ok(s) ==> s == old(self).stored()),
    ;

    /// Write the new state to the shared state.  A failed or interrupted
    /// write either leaves the old record intact or is detected by the CRC
    /// on the next read, which then yields the cold-boot default.
    fn write(&mut self, data: &MoonbootState) -> (r: Result<(), Self::Error>)
        ensures
            (r matches Ok(u) ==> final(self).stored() == *data),
            (r matches Err(e) ==> final(self).stored() == old(self).stored()
                || final(self).stored() == (MoonbootState { update: Update::Idle })),
    ;
}

} // verus!
