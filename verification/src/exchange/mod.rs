//! Page-wise exchange of the contents of two equally sized banks, with a
//! checkpoint written to the shared state so that the operation can resume
//! after a power loss.  Two engines are provided: a destructive direct swap
//! and a non-destructive three-way swap through a scratch page.

pub mod ram;
pub mod scratch;

use vstd::prelude::*;
use crate::hardware::{banks_disjoint, Bank};
use crate::state::{ExchangeProgress, ExchangeStep, MoonbootState, State, Update};
use crate::storage::Storage;

verus! {

/// A geometry problem that makes an exchange impossible; detected before
/// any byte of flash is changed.
#[derive(Debug, Clone, Copy, PartialEq, Eq, Structural)]
pub enum MemoryError {
    /// The two banks have different sizes.
    BankSizeNotEqual,
    /// A bank has size zero.
    BankSizeZero,
    /// A bank overflows the address type or the storage unit.
    BankOutOfRange,
    /// The two banks overlap.
    BanksOverlap,
    /// The bank size is not a whole multiple of the page size.
    PageSizeMisaligned,
    /// No scratch page was supplied, or a scratch page is out of range or
    /// overlaps a bank.
    ScratchInvalid,
}

/// Reason an exchange failed: a storage driver error, a state store error,
/// or a refused geometry.
#[derive(Debug)]
pub enum ExchangeError<STORAGE, STATE> {
    /// The storage driver failed.
    Storage(STORAGE),
    /// The state store failed.
    State(STATE),
    /// The requested geometry was refused before flash was touched.
    Memory(MemoryError),
}

/// Bytes `dst..dst + len` of `m1` equal bytes `src..src + len` of `m0`.
pub open spec fn region_eq(m1: Seq<u8>, dst: int, m0: Seq<u8>, src: int, len: int) -> bool {
    forall|j: int| dst <= j < dst + len ==> (#[trigger] m1[j]) == m0[src + (j - dst)]
}

/// Number of whole pages in a bank of `size` bytes.
pub open spec fn spec_full_pages(size: int, page: int) -> int
    recommends
        page > 0,
{
    size / page
}

/// First byte offset, within a bank, of the part that an exchange starting
/// at page `start` rewrites.  The whole-page loop covers offsets from
/// `start * page`; the trailing partial page is rewritten in any case.
pub open spec fn spec_swap_from(size: int, start: int, page: int) -> int
    recommends
        page > 0,
{
    let full = spec_full_pages(size, page);
    if start <= full {
        start * page
    } else {
        full * page
    }
}

/// The contents of banks `a` and `b` in `m1` are those of `m0` with the two
/// banks exchanged from page `start` on: bytes before the starting offset
/// are unchanged, bytes from it on hold the other bank's old contents.
pub open spec fn banks_swapped_from(
    m0: Seq<u8>,
    m1: Seq<u8>,
    a: Bank,
    b: Bank,
    start: int,
    page: int,
) -> bool
    recommends
        page > 0,
        a.size == b.size,
{
    let lo = spec_swap_from(a.size as int, start, page);
    &&& region_eq(m1, a.location + lo, m0, b.location + lo, a.size - lo)
    &&& region_eq(m1, b.location + lo, m0, a.location + lo, a.size - lo)
    &&& region_eq(m1, a.location as int, m0, a.location as int, lo)
    &&& region_eq(m1, b.location as int, m0, b.location as int, lo)
}

/// Every byte outside the two banks holds in `m1` what it held in `m0`.
pub open spec fn untouched_outside(m0: Seq<u8>, m1: Seq<u8>, a: Bank, b: Bank) -> bool {
    forall|j: int|
        0 <= j < m0.len() && !a.spec_contains(j) && !b.spec_contains(j) ==> (#[trigger] m1[j])
            == m0[j]
}

/// Geometry that every exchange needs: equally sized, non-empty, disjoint
/// banks that lie within the storage unit.
pub open spec fn exchange_setup_ok(mem_len: int, a: Bank, b: Bank) -> bool {
    &&& a.size == b.size
    &&& a.size > 0
    &&& a.wf()
    &&& b.wf()
    &&& a.spec_end() <= mem_len
    &&& b.spec_end() <= mem_len
    &&& banks_disjoint(a, b)
}

/// The geometry error an exchange reports for two banks, if any, in the
/// order the checks are made.
pub open spec fn spec_geometry_error(mem_len: int, a: Bank, b: Bank) -> Option<MemoryError> {
    if a.size != b.size {
        Some(MemoryError::BankSizeNotEqual)
    } else if a.size == 0 {
        Some(MemoryError::BankSizeZero)
    } else if !(a.wf() && a.spec_end() <= mem_len && b.wf() && b.spec_end() <= mem_len) {
        Some(MemoryError::BankOutOfRange)
    } else if !banks_disjoint(a, b) {
        Some(MemoryError::BanksOverlap)
    } else {
        Option::None
    }
}

/// Whether the exchange that `progress` continues is rolling back a failed
/// boot.  A fresh exchange reads this from the state the bootloader is
/// acting on: a pending revert means recovery; a resumed exchange carries
/// the flag in its own checkpoint.
pub open spec fn spec_recovering(st: MoonbootState, progress: ExchangeProgress) -> bool {
    match st.update {
        Update::Revert(b) => true,
        Update::Exchanging(q) => q.recovering,
        _ => false,
    }
}

/// Relation between the stored state before and after a successful
/// exchange: either no checkpoint was written, or the last checkpoint names
/// the final page, the banks of the request, and the recovery flag the
/// engine derived on entry.
pub open spec fn exchange_state_post(
    st0: MoonbootState,
    st1: MoonbootState,
    progress: ExchangeProgress,
    full: int,
    rec: bool,
) -> bool {
    ||| st1 == st0
    ||| (st1.update matches Update::Exchanging(q) && q.a == progress.a && q.b == progress.b
        && q.page_index == (full - 1) as u32 && q.recovering == rec)
}

/// What an exchange may leave in the state store on any outcome: the old
/// record, a checkpoint of this very exchange whose page index never lies
/// before the resumed one, or — after a write the CRC catches on the next
/// read — the cold-boot default.
pub open spec fn exchange_state_frame(
    st0: MoonbootState,
    st1: MoonbootState,
    progress: ExchangeProgress,
    rec: bool,
) -> bool {
    ||| st1 == st0
    ||| (st1.update matches Update::Exchanging(q) && q.a == progress.a && q.b == progress.b
        && q.recovering == rec && q.page_index >= progress.page_index)
    ||| st1 == (MoonbootState { update: Update::Idle })
}

/// Abstraction for the page-wise exchange operation.
///
/// On success, when the exchange started at the first sub-step of a page,
/// the two banks have traded their contents from the starting page on;
/// bytes outside the banks and outside the engine's scratch area are
/// untouched, and the state store holds either its old record or the last
/// checkpoint.  The engines' own functions state the sharper, step-exact
/// contracts.
pub trait Exchange<STORAGE: Storage, STATE: State>: Sized {
    /// The engine's error type.
    type Error;

    /// Addresses outside the two banks that the engine may overwrite while
    /// exchanging, given the page size in use.
    spec fn spec_touches(&self, addr: int, page: int) -> bool;

    /// Exchange the contents of the two banks named by `progress`, from its
    /// checkpoint on, writing a new checkpoint to `state` as the work
    /// proceeds.
    fn exchange<const INTERNAL_PAGE_SIZE: usize>(
        &mut self,
        storage: &mut STORAGE,
        state: &mut STATE,
        progress: ExchangeProgress,
    ) -> (r: Result<(), Self::Error>)
        requires
            0 < INTERNAL_PAGE_SIZE <= u32::MAX,
        ensures
            *final(self) == *old(self),
            final(storage).mem().len() == old(storage).mem().len(),
            (r matches Ok(u) ==> exchange_setup_ok(
                old(storage).mem().len() as int,
                progress.a,
                progress.b,
            )),
            (r matches Ok(u) && progress.step == ExchangeStep::AToScratch ==> banks_swapped_from(
                old(storage).mem(),
                final(storage).mem(),
                progress.a,
                progress.b,
                progress.page_index as int,
                INTERNAL_PAGE_SIZE as int,
            )),
            (forall|j: int|
                0 <= j < old(storage).mem().len() && !progress.a.spec_contains(j)
                    && !progress.b.spec_contains(j) && !old(self).spec_touches(
                    j,
                    INTERNAL_PAGE_SIZE as int,
                ) ==> (#[trigger] final(storage).mem()[j]) == old(storage).mem()[j]),
            exchange_state_frame(
                old(state).stored(),
                final(state).stored(),
                progress,
                spec_recovering(old(state).stored(), progress),
            ),
            (r matches Ok(u) ==> exchange_state_post(
                old(state).stored(),
                final(state).stored(),
                progress,
                spec_full_pages(progress.a.size as int, INTERNAL_PAGE_SIZE as int),
                spec_recovering(old(state).stored(), progress),
            )),
    ;
}

/// Law: an exchange that runs from the first page to completion leaves in
/// each bank exactly the other bank's previous contents.
pub proof fn lemma_swap_exchanges_contents(m0: Seq<u8>, m1: Seq<u8>, a: Bank, b: Bank, page: int)
    requires
        page > 0,
        a.size == b.size,
        a.spec_end() <= m0.len(),
        b.spec_end() <= m0.len(),
        m1.len() == m0.len(),
        banks_swapped_from(m0, m1, a, b, 0, page),
    ensures
        m1.subrange(a.location as int, a.spec_end()) == m0.subrange(b.location as int, b.spec_end()),
        m1.subrange(b.location as int, b.spec_end()) == m0.subrange(a.location as int, a.spec_end()),
{
    assert(spec_swap_from(a.size as int, 0, page) == 0);
    assert(m1.subrange(a.location as int, a.spec_end()) =~= m0.subrange(
        b.location as int,
        b.spec_end(),
    ));
    assert(m1.subrange(b.location as int, b.spec_end()) =~= m0.subrange(
        a.location as int,
        a.spec_end(),
    ));
}

/// Law: an exchange resumed from a checkpoint never rewrites the pages
/// before the checkpointed page; they keep the bytes they had when the
/// resumed run began.
pub proof fn lemma_resume_preserves_prefix(
    m0: Seq<u8>,
    m1: Seq<u8>,
    a: Bank,
    b: Bank,
    start: int,
    page: int,
)
    requires
        page > 0,
        a.size == b.size,
        a.spec_end() <= m0.len(),
        b.spec_end() <= m0.len(),
        m1.len() == m0.len(),
        0 <= start <= spec_full_pages(a.size as int, page),
        banks_swapped_from(m0, m1, a, b, start, page),
    ensures
        m1.subrange(a.location as int, a.location + start * page) == m0.subrange(
            a.location as int,
            a.location + start * page,
        ),
        m1.subrange(b.location as int, b.location + start * page) == m0.subrange(
            b.location as int,
            b.location + start * page,
        ),
{
    let lo = spec_swap_from(a.size as int, start, page);
    assert(lo == start * page);
    vstd::arithmetic::mul::lemma_mul_nonnegative(start, page);
    vstd::arithmetic::div_mod::lemma_fundamental_div_mod(a.size as int, page);
    vstd::arithmetic::mul::lemma_mul_inequality(start, spec_full_pages(a.size as int, page), page);
    vstd::arithmetic::mul::lemma_mul_is_commutative(page, spec_full_pages(a.size as int, page));
    assert(lo <= a.size);
    assert(m1.subrange(a.location as int, a.location + lo) =~= m0.subrange(
        a.location as int,
        a.location + lo,
    ));
    assert(m1.subrange(b.location as int, b.location + lo) =~= m0.subrange(
        b.location as int,
        b.location + lo,
    ));
}

/// Offset arithmetic for a page inside a bank: page `i` of a bank of
/// `size` bytes starts at offset `i * page` and ends within the bank.
pub proof fn lemma_page_arith(size: int, page: int, i: int)
    requires
        page > 0,
        size >= 0,
        0 <= i < size / page,
    ensures
        0 <= i * page,
        i * page < size,
        (i + 1) * page <= size,
        i * page + page <= size,
{
    vstd::arithmetic::div_mod::lemma_fundamental_div_mod(size, page);
    vstd::arithmetic::mul::lemma_mul_inequality(i + 1, size / page, page);
    vstd::arithmetic::mul::lemma_mul_is_commutative(page, size / page);
    vstd::arithmetic::mul::lemma_mul_nonnegative(i, page);
    vstd::arithmetic::mul::lemma_mul_is_distributive_add_other_way(page, i, 1);
    vstd::arithmetic::mul::lemma_mul_basics(page);
}

} // verus!
