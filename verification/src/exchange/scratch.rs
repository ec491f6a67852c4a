//! The scratch exchange engine: swaps two banks page by page through a
//! dedicated scratch page in three sub-steps, writing a checkpoint before
//! every sub-step except the very first of a call.  At any power-loss
//! instant the checkpointed sub-step can be re-executed from intact inputs,
//! so the exchange is resumable without losing a page.

use vstd::prelude::*;
use crate::exchange::{
    banks_swapped_from, exchange_setup_ok, exchange_state_frame, lemma_page_arith, region_eq,
    spec_full_pages, spec_geometry_error, spec_recovering, untouched_outside, Exchange,
    ExchangeError, MemoryError,
};
use crate::hardware::Bank;
use crate::state::{ExchangeProgress, ExchangeStep, MoonbootState, State, Update};
use crate::storage::Storage;

verus! {

/// The non-destructive exchange engine; `pages` holds the start address of
/// each scratch page.
pub struct Scratch {
    /// Start addresses of the scratch pages, each one page long.
    pub pages: Vec<u32>,
}

/// One scratch page is usable: it lies within the address type and the
/// storage unit and does not overlap either bank.
pub open spec fn spec_scratch_page_ok(mem_len: int, a: Bank, b: Bank, p: u32, page: int) -> bool {
    &&& p + page <= u32::MAX + 1
    &&& p + page <= mem_len
    &&& (p + page <= a.location || a.spec_end() <= p)
    &&& (p + page <= b.location || b.spec_end() <= p)
}

/// At least one scratch page was supplied and every one is usable.
pub open spec fn scratch_pages_ok(
    mem_len: int,
    a: Bank,
    b: Bank,
    pages: Seq<u32>,
    page: int,
) -> bool {
    &&& pages.len() > 0
    &&& forall|k: int|
        0 <= k < pages.len() ==> spec_scratch_page_ok(mem_len, a, b, #[trigger] pages[k], page)
}

/// Whether `j` lies inside one of the scratch pages.
pub open spec fn scratch_touches(pages: Seq<u32>, j: int, page: int) -> bool {
    exists|k: int| 0 <= k < pages.len() && (#[trigger] pages[k]) <= j < pages[k] + page
}

/// The geometry error the scratch engine reports, if any, in the order the
/// checks are made.
pub open spec fn spec_scratch_geometry_error(
    mem_len: int,
    a: Bank,
    b: Bank,
    pages: Seq<u32>,
    page: int,
) -> Option<MemoryError> {
    match spec_geometry_error(mem_len, a, b) {
        Some(e) => Some(e),
        Option::None => {
            if a.size as int % page != 0 {
                Some(MemoryError::PageSizeMisaligned)
            } else if !scratch_pages_ok(mem_len, a, b, pages, page) {
                Some(MemoryError::ScratchInvalid)
            } else {
                Option::None
            }
        },
    }
}

/// What a successful scratch exchange run leaves in storage, given the
/// checkpoint it started from.  Pages before the starting page keep their
/// bytes, pages after it are fully swapped, and the starting page itself
/// depends on the sub-step that was resumed: once page A has been saved to
/// scratch, the scratch page stands in for it.
pub open spec fn scratch_exchange_post(
    m0: Seq<u8>,
    m1: Seq<u8>,
    a: Bank,
    b: Bank,
    pages: Seq<u32>,
    start: int,
    step0: ExchangeStep,
    page: int,
) -> bool {
    let full = spec_full_pages(a.size as int, page);
    let lo = start * page;
    if start >= full {
        m1 == m0
    } else {
        let s0 = pages[start % pages.len() as int] as int;
        &&& region_eq(m1, a.location as int, m0, a.location as int, lo)
        &&& region_eq(m1, b.location as int, m0, b.location as int, lo)
        &&& match step0 {
            ExchangeStep::AToScratch => {
                &&& region_eq(m1, a.location + lo, m0, b.location + lo, page)
                &&& region_eq(m1, b.location + lo, m0, a.location + lo, page)
            },
            ExchangeStep::BToA => {
                &&& region_eq(m1, a.location + lo, m0, b.location + lo, page)
                &&& region_eq(m1, b.location + lo, m0, s0, page)
            },
            ExchangeStep::ScratchToB => {
                &&& region_eq(m1, a.location + lo, m0, a.location + lo, page)
                &&& region_eq(m1, b.location + lo, m0, s0, page)
            },
        }
        &&& region_eq(m1, a.location + lo + page, m0, b.location + lo + page, a.size - lo - page)
        &&& region_eq(m1, b.location + lo + page, m0, a.location + lo + page, a.size - lo - page)
        &&& (forall|j: int|
            0 <= j < m0.len() && !a.spec_contains(j) && !b.spec_contains(j) && !scratch_touches(
                pages,
                j,
                page,
            ) ==> (#[trigger] m1[j]) == m0[j])
    }
}

/// Copy `len` bytes from `src` to `dst` through the buffer.
fn copy_region<STORAGE: Storage>(
    storage: &mut STORAGE,
    src: u32,
    dst: u32,
    len: usize,
    buf: &mut Vec<u8>,
) -> (r: Result<(), STORAGE::Error>)
    requires
        old(buf)@.len() == len,
        src + len <= old(storage).mem().len(),
        dst + len <= old(storage).mem().len(),
    ensures
        final(storage).mem().len() == old(storage).mem().len(),
        final(buf)@.len() == len,
        (forall|j: int|
            0 <= j < old(storage).mem().len() && !(dst <= j < dst + len) ==> (
            #[trigger] final(storage).mem()[j]) == old(storage).mem()[j]),
        (r matches Ok(u) ==> region_eq(
            final(storage).mem(),
            dst as int,
            old(storage).mem(),
            src as int,
            len as int,
        )),
{
    match storage.read(src, buf) {
        Ok(u) => (),
        Err(e) => {
            return Err(e);
        },
    }
    match storage.write(dst, buf) {
        Ok(u) => (),
        Err(e) => {
            return Err(e);
        },
    }
    proof {
        let m0 = old(storage).mem();
        let m1 = storage.mem();
        assert forall|j: int| dst <= j < dst + len implies (#[trigger] m1[j]) == m0[src + (j
            - dst)] by {
            assert(m1[j] == m0.subrange(src as int, src + len)[j - dst]);
        }
        assert forall|j: int| 0 <= j < m0.len() && !(dst <= j < dst + len) implies (
        #[trigger] m1[j]) == m0[j] by {}
    }
    Ok(())
}

/// Write the checkpoint naming the sub-step about to be performed.
fn write_checkpoint<STATE: State>(
    state: &mut STATE,
    a: Bank,
    b: Bank,
    page_index: u32,
    step: ExchangeStep,
    recovering: bool,
) -> (r: Result<(), STATE::Error>)
    ensures
        (r matches Ok(u) ==> final(state).stored() == (MoonbootState {
            update: Update::Exchanging(
                ExchangeProgress { a, b, page_index, step, recovering },
            ),
        })),
        (r matches Err(e) ==> final(state).stored() == old(state).stored()
            || final(state).stored() == (MoonbootState { update: Update::Idle })),
{
    let cp = MoonbootState {
        update: Update::Exchanging(ExchangeProgress { a, b, page_index, step, recovering }),
    };
    state.write(&cp)
}

/// Exchange one page of the two banks through the scratch page, starting
/// at `from_step`, writing a checkpoint before every sub-step except, when
/// `skip_first_cp` is set, the first.
#[verifier::rlimit(30)]
fn scratch_exchange_page<STORAGE: Storage, STATE: State>(
    storage: &mut STORAGE,
    state: &mut STATE,
    a: Bank,
    b: Bank,
    a_loc: u32,
    b_loc: u32,
    s_loc: u32,
    len: usize,
    buf: &mut Vec<u8>,
    i: u32,
    from_step: ExchangeStep,
    skip_first_cp: bool,
    recovering: bool,
) -> (r: Result<(), ExchangeError<STORAGE::Error, STATE::Error>>)
    requires
        old(buf)@.len() == len,
        len > 0,
        a_loc + len <= old(storage).mem().len(),
        b_loc + len <= old(storage).mem().len(),
        s_loc + len <= old(storage).mem().len(),
        a_loc + len <= b_loc || b_loc + len <= a_loc,
        a_loc + len <= s_loc || s_loc + len <= a_loc,
        b_loc + len <= s_loc || s_loc + len <= b_loc,
    ensures
        final(storage).mem().len() == old(storage).mem().len(),
        final(buf)@.len() == len,
        (r matches Err(x) ==> !(x matches ExchangeError::Memory(e))),
        (forall|j: int|
            0 <= j < old(storage).mem().len() && !(a_loc <= j < a_loc + len) && !(b_loc <= j
                < b_loc + len) && !(s_loc <= j < s_loc + len) ==> (
            #[trigger] final(storage).mem()[j]) == old(storage).mem()[j]),
        final(state).stored() == old(state).stored() || (final(state).stored().update
            matches Update::Exchanging(q) && q.a == a && q.b == b && q.page_index == i
            && q.recovering == recovering) || final(state).stored() == (MoonbootState {
            update: Update::Idle,
        }),
        (r matches Ok(u) ==> {
            &&& match from_step {
                ExchangeStep::AToScratch => {
                    &&& region_eq(final(storage).mem(), a_loc as int, old(storage).mem(), b_loc as int, len as int)
                    &&& region_eq(final(storage).mem(), b_loc as int, old(storage).mem(), a_loc as int, len as int)
                },
                ExchangeStep::BToA => {
                    &&& region_eq(final(storage).mem(), a_loc as int, old(storage).mem(), b_loc as int, len as int)
                    &&& region_eq(final(storage).mem(), b_loc as int, old(storage).mem(), s_loc as int, len as int)
                },
                ExchangeStep::ScratchToB => {
                    &&& region_eq(final(storage).mem(), a_loc as int, old(storage).mem(), a_loc as int, len as int)
                    &&& region_eq(final(storage).mem(), b_loc as int, old(storage).mem(), s_loc as int, len as int)
                },
            }
            &&& (if from_step == ExchangeStep::ScratchToB && skip_first_cp {
                final(state).stored() == old(state).stored()
            } else {
                final(state).stored() == (MoonbootState {
                    update: Update::Exchanging(
                        ExchangeProgress {
                            a,
                            b,
                            page_index: i,
                            step: ExchangeStep::ScratchToB,
                            recovering,
                        },
                    ),
                })
            })
        }),
{
    let ghost m0 = storage.mem();
    let mut skip = skip_first_cp;

    if matches!(from_step, ExchangeStep::AToScratch) {
        if skip {
            skip = false;
        } else {
            match write_checkpoint(state, a, b, i, ExchangeStep::AToScratch, recovering) {
                Ok(u) => (),
                Err(e) => {
                    return Err(ExchangeError::State(e));
                },
            }
        }
        match copy_region(storage, a_loc, s_loc, len, buf) {
            Ok(u) => (),
            Err(e) => {
                return Err(ExchangeError::Storage(e));
            },
        }
    }
    let ghost m_after_a_to_s = storage.mem();

    if !matches!(from_step, ExchangeStep::ScratchToB) {
        if skip {
            skip = false;
        } else {
            match write_checkpoint(state, a, b, i, ExchangeStep::BToA, recovering) {
                Ok(u) => (),
                Err(e) => {
                    return Err(ExchangeError::State(e));
                },
            }
        }
        match copy_region(storage, b_loc, a_loc, len, buf) {
            Ok(u) => (),
            Err(e) => {
                return Err(ExchangeError::Storage(e));
            },
        }
    }
    let ghost m_after_b_to_a = storage.mem();

    if skip {
        skip = false;
    } else {
        match write_checkpoint(state, a, b, i, ExchangeStep::ScratchToB, recovering) {
            Ok(u) => (),
            Err(e) => {
                return Err(ExchangeError::State(e));
            },
        }
    }
    match copy_region(storage, s_loc, b_loc, len, buf) {
        Ok(u) => (),
        Err(e) => {
            return Err(ExchangeError::Storage(e));
        },
    }

    proof {
        let m1 = storage.mem();
        match from_step {
            ExchangeStep::AToScratch => {
                // scratch := old a, a := old b, b := scratch = old a
                assert forall|j: int| a_loc <= j < a_loc + len implies (#[trigger] m1[j])
                    == m0[b_loc + (j - a_loc)] by {
                    assert(m_after_b_to_a[j] == m_after_a_to_s[b_loc + (j - a_loc)]);
                    assert(m_after_a_to_s[b_loc + (j - a_loc)] == m0[b_loc + (j - a_loc)]);
                    assert(m1[j] == m_after_b_to_a[j]);
                }
                assert forall|j: int| b_loc <= j < b_loc + len implies (#[trigger] m1[j])
                    == m0[a_loc + (j - b_loc)] by {
                    assert(m1[j] == m_after_b_to_a[s_loc + (j - b_loc)]);
                    assert(m_after_b_to_a[s_loc + (j - b_loc)] == m_after_a_to_s[s_loc + (j
                        - b_loc)]);
                    assert(m_after_a_to_s[s_loc + (j - b_loc)] == m0[a_loc + (j - b_loc)]);
                }
            },
            ExchangeStep::BToA => {
                // a := old b, b := old scratch
                assert forall|j: int| a_loc <= j < a_loc + len implies (#[trigger] m1[j])
                    == m0[b_loc + (j - a_loc)] by {
                    assert(m_after_b_to_a[j] == m0[b_loc + (j - a_loc)]);
                    assert(m1[j] == m_after_b_to_a[j]);
                }
                assert forall|j: int| b_loc <= j < b_loc + len implies (#[trigger] m1[j])
                    == m0[s_loc + (j - b_loc)] by {
                    assert(m1[j] == m_after_b_to_a[s_loc + (j - b_loc)]);
                    assert(m_after_b_to_a[s_loc + (j - b_loc)] == m0[s_loc + (j - b_loc)]);
                }
            },
            ExchangeStep::ScratchToB => {
                // b := old scratch, a untouched
                assert forall|j: int| b_loc <= j < b_loc + len implies (#[trigger] m1[j])
                    == m0[s_loc + (j - b_loc)] by {
                    assert(m1[j] == m_after_b_to_a[s_loc + (j - b_loc)]);
                }
                assert forall|j: int| a_loc <= j < a_loc + len implies (#[trigger] m1[j])
                    == m0[j] by {}
            },
        }
        assert forall|j: int|
            0 <= j < m0.len() && !(a_loc <= j < a_loc + len) && !(b_loc <= j < b_loc + len) && !(
            s_loc <= j < s_loc + len) implies (#[trigger] m1[j]) == m0[j] by {}
    }
    Ok(())
}

/// Exchange the contents of the two banks named by `progress` through the
/// scratch pages, resuming at the checkpointed page and sub-step.  On
/// success the banks have traded their contents from the starting page on
/// (the starting page itself according to the resumed sub-step), nothing
/// outside the banks and the scratch pages has changed, and the state
/// store holds the last checkpoint, when one was written.  A refused
/// geometry, including a bank size that is not a whole multiple of the
/// page size, is reported before anything is written.
#[verifier::rlimit(60)]
pub fn scratch_exchange<STORAGE: Storage, STATE: State, const INTERNAL_PAGE_SIZE: usize>(
    pages: &Vec<u32>,
    storage: &mut STORAGE,
    state: &mut STATE,
    progress: ExchangeProgress,
) -> (r: Result<(), ExchangeError<STORAGE::Error, STATE::Error>>)
    requires
        0 < INTERNAL_PAGE_SIZE <= u32::MAX,
    ensures
        final(storage).mem().len() == old(storage).mem().len(),
        (spec_scratch_geometry_error(
            old(storage).mem().len() as int,
            progress.a,
            progress.b,
            pages@,
            INTERNAL_PAGE_SIZE as int,
        ) matches Some(e) ==> r == Err::<(), ExchangeError<STORAGE::Error, STATE::Error>>(
            ExchangeError::Memory(e),
        ) && final(storage).mem() == old(storage).mem() && final(state).stored() == old(
            state,
        ).stored()),
        (r matches Err(x) ==> (x matches ExchangeError::Memory(e) ==> spec_scratch_geometry_error(
            old(storage).mem().len() as int,
            progress.a,
            progress.b,
            pages@,
            INTERNAL_PAGE_SIZE as int,
        ) == Some(e))),
        (forall|j: int|
            0 <= j < old(storage).mem().len() && !progress.a.spec_contains(j)
                && !progress.b.spec_contains(j) && !scratch_touches(
                pages@,
                j,
                INTERNAL_PAGE_SIZE as int,
            ) ==> (#[trigger] final(storage).mem()[j]) == old(storage).mem()[j]),
        exchange_state_frame(
            old(state).stored(),
            final(state).stored(),
            progress,
            spec_recovering(old(state).stored(), progress),
        ),
        (r matches Ok(u) ==> exchange_setup_ok(
            old(storage).mem().len() as int,
            progress.a,
            progress.b,
        ) && progress.a.size as int % (INTERNAL_PAGE_SIZE as int) == 0 && scratch_pages_ok(
            old(storage).mem().len() as int,
            progress.a,
            progress.b,
            pages@,
            INTERNAL_PAGE_SIZE as int,
        )),
        (r matches Ok(u) ==> scratch_exchange_post(
            old(storage).mem(),
            final(storage).mem(),
            progress.a,
            progress.b,
            pages@,
            progress.page_index as int,
            progress.step,
            INTERNAL_PAGE_SIZE as int,
        )),
        (r matches Ok(u) ==> ({
            let full = spec_full_pages(progress.a.size as int, INTERNAL_PAGE_SIZE as int);
            let rec = spec_recovering(old(state).stored(), progress);
            if progress.page_index < full && !(progress.page_index == full - 1 && progress.step
                == ExchangeStep::ScratchToB) {
                final(state).stored() == (MoonbootState {
                    update: Update::Exchanging(
                        ExchangeProgress {
                            a: progress.a,
                            b: progress.b,
                            page_index: (full - 1) as u32,
                            step: ExchangeStep::ScratchToB,
                            recovering: rec,
                        },
                    ),
                })
            } else {
                final(state).stored() == old(state).stored()
            }
        })),
{
    let a = progress.a;
    let b = progress.b;
    let start = progress.page_index;
    let step0 = progress.step;

    // Geometry checks, all before any write.
    let cap: usize = storage.capacity();
    if a.size != b.size {
        return Err(ExchangeError::Memory(MemoryError::BankSizeNotEqual));
    }
    if a.size == 0 {
        return Err(ExchangeError::Memory(MemoryError::BankSizeZero));
    }
    let a_end: u64 = a.location as u64 + a.size as u64;
    let b_end: u64 = b.location as u64 + b.size as u64;
    let limit: u64 = u32::MAX as u64 + 1;
    if a_end > limit || b_end > limit || a_end > cap as u64 || b_end > cap as u64 {
        return Err(ExchangeError::Memory(MemoryError::BankOutOfRange));
    }
    if !(a_end <= b.location as u64 || b_end <= a.location as u64) {
        return Err(ExchangeError::Memory(MemoryError::BanksOverlap));
    }
    let page_u32: u32 = INTERNAL_PAGE_SIZE as u32;
    let size: u32 = a.size;
    let full_pages: u32 = size / page_u32;
    let remaining: u32 = size % page_u32;
    if remaining != 0 {
        return Err(ExchangeError::Memory(MemoryError::PageSizeMisaligned));
    }
    if pages.len() == 0 {
        return Err(ExchangeError::Memory(MemoryError::ScratchInvalid));
    }
    let ghost m0 = storage.mem();
    let ghost page = INTERNAL_PAGE_SIZE as int;
    let mut k: usize = 0;
    let mut pages_good = true;
    let n_pages: usize = pages.len();
    while k < n_pages
        invariant
            0 < INTERNAL_PAGE_SIZE <= u32::MAX,
            page == INTERNAL_PAGE_SIZE as int,
            n_pages == pages@.len(),
            k <= n_pages,
            m0 == storage.mem(),
            m0.len() <= usize::MAX,
            pages_good == (forall|t: int|
                0 <= t < k ==> spec_scratch_page_ok(m0.len() as int, a, b, #[trigger] pages@[t], page)),
        decreases n_pages - k,
    {
        let p = pages[k];
        let p_end: u64 = p as u64 + INTERNAL_PAGE_SIZE as u64;
        let limit2: u64 = u32::MAX as u64 + 1;
        let cap2: usize = storage.capacity();
        if p_end > limit2 || p_end > cap2 as u64 || !(p_end <= a.location as u64 || a.location
            as u64 + a.size as u64 <= p as u64) || !(p_end <= b.location as u64 || b.location
            as u64 + b.size as u64 <= p as u64) {
            pages_good = false;
        }
        k = k + 1;
    }
    if !pages_good {
        return Err(ExchangeError::Memory(MemoryError::ScratchInvalid));
    }
    let ghost st0 = state.stored();
    proof {
        assert(spec_scratch_geometry_error(m0.len() as int, a, b, pages@, page) is None);
        assert(exchange_setup_ok(m0.len() as int, a, b));
        assert(scratch_pages_ok(m0.len() as int, a, b, pages@, page));
    }

    let mut last_state = match state.read() {
        Ok(s) => s,
        Err(e) => {
            return Err(ExchangeError::State(e));
        },
    };
    let recovering = match last_state.update {
        Update::Revert(x) => true,
        Update::Exchanging(q) => q.recovering,
        _ => false,
    };
    let ghost full = spec_full_pages(size as int, page);
    let ghost lo = start as int * page;
    proof {
        assert(recovering == spec_recovering(st0, progress));
        assert(full_pages as int == full);
        vstd::arithmetic::div_mod::lemma_fundamental_div_mod(size as int, page);
        vstd::arithmetic::mul::lemma_mul_is_commutative(page, full);
        assert(full * page == size as int);
    }

    if start < full_pages {
        let ghost s0 = pages@[start as int % pages@.len() as int] as int;
        let mut buf: Vec<u8> = vec![0u8; INTERNAL_PAGE_SIZE];
        let mut first = true;
        let mut i: u32 = start;
        proof {
            vstd::arithmetic::mul::lemma_mul_nonnegative(start as int, page);
            lemma_page_arith(size as int, page, start as int);
        }
        while i < full_pages
            invariant
                0 < INTERNAL_PAGE_SIZE <= u32::MAX,
                page == INTERNAL_PAGE_SIZE as int,
                page_u32 as int == page,
                a == progress.a,
                b == progress.b,
                start == progress.page_index,
                step0 == progress.step,
                m0 == old(storage).mem(),
                st0 == old(state).stored(),
                spec_scratch_geometry_error(m0.len() as int, a, b, pages@, page) is None,
                exchange_setup_ok(m0.len() as int, a, b),
                scratch_pages_ok(m0.len() as int, a, b, pages@, page),
                size == a.size,
                size as int % page == 0,
                full == spec_full_pages(size as int, page),
                full_pages as int == full,
                full * page == size as int,
                start < full_pages,
                start <= i <= full_pages,
                lo == start as int * page,
                0 <= lo,
                lo + page <= size as int,
                s0 == pages@[start as int % pages@.len() as int] as int,
                storage.mem().len() == m0.len(),
                buf@.len() == INTERNAL_PAGE_SIZE,
                recovering == spec_recovering(st0, progress),
                first == (i == start),
                i == start ==> storage.mem() == m0,
                i > start ==> region_eq(storage.mem(), a.location as int, m0, a.location as int, lo),
                i > start ==> region_eq(storage.mem(), b.location as int, m0, b.location as int, lo),
                i > start ==> (match step0 {
                    ExchangeStep::AToScratch => {
                        &&& region_eq(storage.mem(), a.location + lo, m0, b.location + lo, page)
                        &&& region_eq(storage.mem(), b.location + lo, m0, a.location + lo, page)
                    },
                    ExchangeStep::BToA => {
                        &&& region_eq(storage.mem(), a.location + lo, m0, b.location + lo, page)
                        &&& region_eq(storage.mem(), b.location + lo, m0, s0, page)
                    },
                    ExchangeStep::ScratchToB => {
                        &&& region_eq(storage.mem(), a.location + lo, m0, a.location + lo, page)
                        &&& region_eq(storage.mem(), b.location + lo, m0, s0, page)
                    },
                }),
                i > start ==> region_eq(
                    storage.mem(),
                    a.location + lo + page,
                    m0,
                    b.location + lo + page,
                    i as int * page - lo - page,
                ),
                i > start ==> region_eq(
                    storage.mem(),
                    b.location + lo + page,
                    m0,
                    a.location + lo + page,
                    i as int * page - lo - page,
                ),
                region_eq(
                    storage.mem(),
                    a.location + i as int * page,
                    m0,
                    a.location + i as int * page,
                    size as int - i as int * page,
                ),
                region_eq(
                    storage.mem(),
                    b.location + i as int * page,
                    m0,
                    b.location + i as int * page,
                    size as int - i as int * page,
                ),
                forall|j: int|
                    0 <= j < m0.len() && !a.spec_contains(j) && !b.spec_contains(j)
                        && !scratch_touches(pages@, j, page) ==> (#[trigger] storage.mem()[j])
                        == m0[j],
                i == start ==> state.stored() == st0,
                i > start && !(i - 1 == start && step0 == ExchangeStep::ScratchToB)
                    ==> state.stored() == (MoonbootState {
                    update: Update::Exchanging(
                        ExchangeProgress {
                            a,
                            b,
                            page_index: (i - 1) as u32,
                            step: ExchangeStep::ScratchToB,
                            recovering,
                        },
                    ),
                }),
                i > start && i - 1 == start && step0 == ExchangeStep::ScratchToB
                    ==> state.stored() == st0,
            decreases full_pages - i,
        {
            proof {
                lemma_page_arith(size as int, page, i as int);
                vstd::arithmetic::mul::lemma_mul_inequality(start as int, i as int, page);
                if i > start {
                    vstd::arithmetic::mul::lemma_mul_inequality(start as int + 1, i as int, page);
                }
                vstd::arithmetic::mul::lemma_mul_is_distributive_add_other_way(
                    page,
                    start as int,
                    1,
                );
                vstd::arithmetic::mul::lemma_mul_basics(page);
            }
            let offset: u32 = i * page_u32;
            let a_loc: u32 = a.location + offset;
            let b_loc: u32 = b.location + offset;
            let kk: usize = (i as usize) % pages.len();
            let s_loc: u32 = pages[kk];
            let from_step = if i == start {
                step0
            } else {
                ExchangeStep::AToScratch
            };
            let ghost m_pre = storage.mem();
            let ghost ip = i as int * page;
            let ghost ip1 = ip + page;
            proof {
                assert(a_loc as int == a.location + ip);
                assert(b_loc as int == b.location + ip);
                assert(spec_scratch_page_ok(m0.len() as int, a, b, pages@[kk as int], page));
                assert(i == start ==> s_loc as int == s0);
                assert((i + 1) as int * page == ip1) by {
                    vstd::arithmetic::mul::lemma_mul_is_distributive_add_other_way(
                        page,
                        i as int,
                        1,
                    );
                    vstd::arithmetic::mul::lemma_mul_basics(page);
                }
            }
            match scratch_exchange_page(
                storage,
                state,
                a,
                b,
                a_loc,
                b_loc,
                s_loc,
                INTERNAL_PAGE_SIZE,
                &mut buf,
                i,
                from_step,
                first,
                recovering,
            ) {
                Ok(u) => (),
                Err(e) => {
                    proof {
                        assert forall|j: int|
                            0 <= j < m0.len() && !a.spec_contains(j) && !b.spec_contains(j)
                                && !scratch_touches(pages@, j, page) implies (
                        #[trigger] storage.mem()[j]) == m0[j] by {
                            assert(!(a_loc <= j < a_loc + INTERNAL_PAGE_SIZE));
                            assert(!(b_loc <= j < b_loc + INTERNAL_PAGE_SIZE));
                            assert(pages@[kk as int] == s_loc);
                            assert(!(s_loc <= j < s_loc + INTERNAL_PAGE_SIZE));
                            assert(storage.mem()[j] == m_pre[j]);
                        }
                        assert(exchange_state_frame(st0, state.stored(), progress, recovering));
                    }
                    return Err(e);
                },
            }
            first = false;
            proof {
                let m1 = storage.mem();
                let al = a.location as int;
                let bl = b.location as int;
                // Bytes of both banks outside page i are untouched by this
                // iteration.
                assert forall|j: int|
                    (al <= j < al + ip || al + ip1 <= j < a.spec_end() || bl <= j < bl + ip || bl
                        + ip1 <= j < b.spec_end()) implies (#[trigger] m1[j]) == m_pre[j] by {
                    assert(!(a_loc <= j < a_loc + INTERNAL_PAGE_SIZE));
                    assert(!(b_loc <= j < b_loc + INTERNAL_PAGE_SIZE));
                    assert(!(s_loc <= j < s_loc + INTERNAL_PAGE_SIZE)) by {
                        assert(spec_scratch_page_ok(m0.len() as int, a, b, pages@[kk as int], page));
                    }
                }
                if i == start {
                    // The first processed page: its result is given directly
                    // by the per-page contract, everything else still equals
                    // the original memory.
                    assert(region_eq(m1, al, m0, al, lo));
                    assert(region_eq(m1, bl, m0, bl, lo));
                } else {
                    // A later page: it was still untouched, so the per-page
                    // swap yields the original bytes of the peer bank.
                    assert forall|j: int| al + lo + page <= j < al + ip1 implies (#[trigger] m1[j])
                        == m0[bl + (j - al)] by {
                        if j < al + ip {
                            assert(m_pre[j] == m0[bl + (j - al)]);
                        } else {
                            assert(m1[j] == m_pre[b_loc + (j - a_loc)]);
                            assert(m_pre[b_loc + (j - a_loc)] == m0[b_loc + (j - a_loc)]);
                            assert(b_loc + (j - a_loc) == bl + (j - al));
                        }
                    }
                    assert forall|j: int| bl + lo + page <= j < bl + ip1 implies (#[trigger] m1[j])
                        == m0[al + (j - bl)] by {
                        if j < bl + ip {
                            assert(m_pre[j] == m0[al + (j - bl)]);
                        } else {
                            assert(m1[j] == m_pre[a_loc + (j - b_loc)]);
                            assert(m_pre[a_loc + (j - b_loc)] == m0[a_loc + (j - b_loc)]);
                            assert(a_loc + (j - b_loc) == al + (j - bl));
                        }
                    }
                    assert(region_eq(m1, al, m0, al, lo));
                    assert(region_eq(m1, bl, m0, bl, lo));
                    assert(region_eq(m1, al + lo + page, m0, bl + lo + page, ip1 - lo - page));
                    assert(region_eq(m1, bl + lo + page, m0, al + lo + page, ip1 - lo - page));
                }
                assert(region_eq(m1, al + ip1, m0, al + ip1, size as int - ip1));
                assert(region_eq(m1, bl + ip1, m0, bl + ip1, size as int - ip1));
                assert forall|j: int|
                    0 <= j < m0.len() && !a.spec_contains(j) && !b.spec_contains(j)
                        && !scratch_touches(pages@, j, page) implies (#[trigger] m1[j]) == m0[
                    j] by {
                    assert(!(a_loc <= j < a_loc + INTERNAL_PAGE_SIZE));
                    assert(!(b_loc <= j < b_loc + INTERNAL_PAGE_SIZE));
                    assert(pages@[kk as int] == s_loc);
                    assert(!(s_loc <= j < s_loc + INTERNAL_PAGE_SIZE));
                    assert(m1[j] == m_pre[j]);
                }
            }
            i = i + 1;
        }
    }
    proof {
        if start < full_pages {
            assert(scratch_exchange_post(
                m0,
                storage.mem(),
                a,
                b,
                pages@,
                start as int,
                step0,
                page,
            ));
        } else {
            assert(storage.mem() == m0);
            assert(state.stored() == st0);
            assert(scratch_exchange_post(
                m0,
                storage.mem(),
                a,
                b,
                pages@,
                start as int,
                step0,
                page,
            ));
        }
    }
    Ok(())
}

/// A scratch exchange that starts at the first sub-step of a page leaves
/// the two banks exactly swapped from that page on.
pub proof fn lemma_scratch_post_swapped(
    m0: Seq<u8>,
    m1: Seq<u8>,
    a: Bank,
    b: Bank,
    pages: Seq<u32>,
    start: int,
    page: int,
)
    requires
        page > 0,
        start >= 0,
        a.size == b.size,
        a.size as int % page == 0,
        scratch_exchange_post(m0, m1, a, b, pages, start, ExchangeStep::AToScratch, page),
    ensures
        banks_swapped_from(m0, m1, a, b, start, page),
{
    let size = a.size as int;
    let full = spec_full_pages(size, page);
    vstd::arithmetic::div_mod::lemma_fundamental_div_mod(size, page);
    vstd::arithmetic::mul::lemma_mul_is_commutative(page, full);
    assert(full * page == size);
    if start >= full {
        let lo = crate::exchange::spec_swap_from(size, start, page);
        if start == full {
            vstd::arithmetic::mul::lemma_mul_is_commutative(page, start);
        }
        assert(lo == full * page);
        assert(lo == size);
        assert(m1 == m0);
        assert(region_eq(m1, a.location + lo, m0, b.location + lo, a.size - lo));
        assert(region_eq(m1, b.location + lo, m0, a.location + lo, a.size - lo));
        assert(region_eq(m1, a.location as int, m0, a.location as int, lo));
        assert(region_eq(m1, b.location as int, m0, b.location as int, lo));
    } else {
        let lo = start * page;
        vstd::arithmetic::mul::lemma_mul_inequality(start + 1, full, page);
        vstd::arithmetic::mul::lemma_mul_is_distributive_add_other_way(page, start, 1);
        vstd::arithmetic::mul::lemma_mul_basics(page);
        vstd::arithmetic::mul::lemma_mul_nonnegative(start, page);
        assert(crate::exchange::spec_swap_from(size, start, page) == lo);
        assert forall|j: int| a.location + lo <= j < a.location + lo + (a.size - lo) implies (
        #[trigger] m1[j]) == m0[b.location + (j - a.location)] by {
            if j < a.location + lo + page {
                assert(m1[j] == m0[b.location + lo + (j - (a.location + lo))]);
            } else {
                assert(m1[j] == m0[b.location + lo + page + (j - (a.location + lo + page))]);
            }
        }
        assert forall|j: int| b.location + lo <= j < b.location + lo + (a.size - lo) implies (
        #[trigger] m1[j]) == m0[a.location + (j - b.location)] by {
            if j < b.location + lo + page {
                assert(m1[j] == m0[a.location + lo + (j - (b.location + lo))]);
            } else {
                assert(m1[j] == m0[a.location + lo + page + (j - (b.location + lo + page))]);
            }
        }
    }
}

/// The storage contents at the instant of a power loss during a scratch
/// exchange, right after the checkpoint for sub-step `st` of page `i` was
/// written and before that sub-step's flash write ran: pages before `i`
/// are swapped, pages after `i` are untouched, and page `i` together with
/// the scratch page `s0` holds what the sub-steps already performed left
/// there.  Regions the in-flight sub-step was about to overwrite are
/// unconstrained.
pub open spec fn scratch_crash_state(
    m0: Seq<u8>,
    m_crash: Seq<u8>,
    a: Bank,
    b: Bank,
    s0: int,
    i: int,
    st: ExchangeStep,
    page: int,
) -> bool {
    let lo = i * page;
    &&& m_crash.len() == m0.len()
    &&& region_eq(m_crash, a.location as int, m0, b.location as int, lo)
    &&& region_eq(m_crash, b.location as int, m0, a.location as int, lo)
    &&& region_eq(m_crash, a.location + lo + page, m0, a.location + lo + page, a.size - lo - page)
    &&& region_eq(m_crash, b.location + lo + page, m0, b.location + lo + page, a.size - lo - page)
    &&& match st {
        ExchangeStep::AToScratch => {
            &&& region_eq(m_crash, a.location + lo, m0, a.location + lo, page)
            &&& region_eq(m_crash, b.location + lo, m0, b.location + lo, page)
        },
        ExchangeStep::BToA => {
            &&& region_eq(m_crash, s0, m0, a.location + lo, page)
            &&& region_eq(m_crash, b.location + lo, m0, b.location + lo, page)
        },
        ExchangeStep::ScratchToB => {
            &&& region_eq(m_crash, s0, m0, a.location + lo, page)
            &&& region_eq(m_crash, a.location + lo, m0, b.location + lo, page)
        },
    }
}

/// Law: power loss does not change the outcome.  If an uninterrupted
/// scratch exchange of the two banks turns contents `m0` into `m_done`,
/// and a run is instead interrupted right after the checkpoint for any
/// sub-step `st` of any page `i` (leaving `m_crash`), then the resumed run
/// from that checkpoint, ending in `m_resumed`, leaves both banks with
/// exactly the bytes the uninterrupted run produced.
#[verifier::rlimit(30)]
pub proof fn lemma_scratch_power_loss_resumable(
    m0: Seq<u8>,
    m_done: Seq<u8>,
    m_crash: Seq<u8>,
    m_resumed: Seq<u8>,
    a: Bank,
    b: Bank,
    pages: Seq<u32>,
    i: int,
    st: ExchangeStep,
    page: int,
)
    requires
        page > 0,
        a.size == b.size,
        a.size as int % page == 0,
        a.spec_end() <= m0.len(),
        b.spec_end() <= m0.len(),
        m_done.len() == m0.len(),
        m_resumed.len() == m0.len(),
        crate::hardware::banks_disjoint(a, b),
        pages.len() > 0,
        0 <= i < spec_full_pages(a.size as int, page),
        spec_scratch_page_ok(m0.len() as int, a, b, pages[i % pages.len() as int], page),
        scratch_exchange_post(m0, m_done, a, b, pages, 0, ExchangeStep::AToScratch, page),
        scratch_crash_state(
            m0,
            m_crash,
            a,
            b,
            pages[i % pages.len() as int] as int,
            i,
            st,
            page,
        ),
        scratch_exchange_post(m_crash, m_resumed, a, b, pages, i, st, page),
    ensures
        m_resumed.subrange(a.location as int, a.spec_end()) == m_done.subrange(
            a.location as int,
            a.spec_end(),
        ),
        m_resumed.subrange(b.location as int, b.spec_end()) == m_done.subrange(
            b.location as int,
            b.spec_end(),
        ),
{
    let size = a.size as int;
    let full = spec_full_pages(size, page);
    let lo = i * page;
    let s0 = pages[i % pages.len() as int] as int;
    let al = a.location as int;
    let bl = b.location as int;
    vstd::arithmetic::div_mod::lemma_fundamental_div_mod(size, page);
    vstd::arithmetic::mul::lemma_mul_is_commutative(page, full);
    assert(full * page == size);
    lemma_page_arith(size, page, i);
    vstd::arithmetic::mul::lemma_mul_nonnegative(i, page);

    // The uninterrupted run swaps both banks completely.
    lemma_scratch_post_swapped(m0, m_done, a, b, pages, 0, page);
    assert(spec_full_pages(a.size as int, page) == full);
    assert(crate::exchange::spec_swap_from(size, 0, page) == 0);
    assert forall|j: int| al <= j < al + size implies (#[trigger] m_done[j]) == m0[bl + (j
        - al)] by {}
    assert forall|j: int| bl <= j < bl + size implies (#[trigger] m_done[j]) == m0[al + (j
        - bl)] by {}

    // The resumed run turns the crash state into the same full swap.
    assert forall|j: int| al <= j < al + size implies (#[trigger] m_resumed[j]) == m0[bl + (j
        - al)] by {
        if j < al + lo {
            assert(m_resumed[j] == m_crash[j]);
            assert(m_crash[j] == m0[bl + (j - al)]);
        } else if j < al + lo + page {
            match st {
                ExchangeStep::AToScratch => {
                    assert(m_resumed[j] == m_crash[bl + (j - al)]);
                    assert(m_crash[bl + (j - al)] == m0[bl + (j - al)]);
                },
                ExchangeStep::BToA => {
                    assert(m_resumed[j] == m_crash[bl + (j - al)]);
                    assert(m_crash[bl + (j - al)] == m0[bl + (j - al)]);
                },
                ExchangeStep::ScratchToB => {
                    assert(m_resumed[j] == m_crash[j]);
                    assert(m_crash[j] == m0[bl + (j - al)]);
                },
            }
        } else {
            assert(m_resumed[j] == m_crash[bl + (j - al)]);
            assert(m_crash[bl + (j - al)] == m0[bl + (j - al)]);
        }
    }
    assert forall|j: int| bl <= j < bl + size implies (#[trigger] m_resumed[j]) == m0[al + (j
        - bl)] by {
        if j < bl + lo {
            assert(m_resumed[j] == m_crash[j]);
            assert(m_crash[j] == m0[al + (j - bl)]);
        } else if j < bl + lo + page {
            match st {
                ExchangeStep::AToScratch => {
                    assert(m_resumed[j] == m_crash[al + (j - bl)]);
                    assert(m_crash[al + (j - bl)] == m0[al + (j - bl)]);
                },
                ExchangeStep::BToA => {
                    assert(m_resumed[j] == m_crash[s0 + (j - (bl + lo))]);
                    assert(m_crash[s0 + (j - (bl + lo))] == m0[al + lo + (j - (bl + lo))]);
                },
                ExchangeStep::ScratchToB => {
                    assert(m_resumed[j] == m_crash[s0 + (j - (bl + lo))]);
                    assert(m_crash[s0 + (j - (bl + lo))] == m0[al + lo + (j - (bl + lo))]);
                },
            }
        } else {
            assert(m_resumed[j] == m_crash[al + (j - bl)]);
            assert(m_crash[al + (j - bl)] == m0[al + (j - bl)]);
        }
    }
    assert(m_resumed.subrange(al, a.spec_end()) =~= m_done.subrange(al, a.spec_end()));
    assert(m_resumed.subrange(bl, b.spec_end()) =~= m_done.subrange(bl, b.spec_end()));
}

impl<STORAGE: Storage, STATE: State> Exchange<STORAGE, STATE> for Scratch {
    type Error = ExchangeError<STORAGE::Error, STATE::Error>;

    open spec fn spec_touches(&self, addr: int, page: int) -> bool {
        scratch_touches(self.pages@, addr, page)
    }

    fn exchange<const INTERNAL_PAGE_SIZE: usize>(
        &mut self,
        storage: &mut STORAGE,
        state: &mut STATE,
        progress: ExchangeProgress,
    ) -> (r: Result<(), Self::Error>) {
        let res = scratch_exchange::<STORAGE, STATE, INTERNAL_PAGE_SIZE>(
            &self.pages,
            storage,
            state,
            progress,
        );
        proof {
            if res is Ok {
                if progress.step == ExchangeStep::AToScratch {
                    lemma_scratch_post_swapped(
                        old(storage).mem(),
                        storage.mem(),
                        progress.a,
                        progress.b,
                        self.pages@,
                        progress.page_index as int,
                        INTERNAL_PAGE_SIZE as int,
                    );
                }
            }
        }
        res
    }
}

} // verus!
