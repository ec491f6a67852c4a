//! The direct exchange engine: swaps two banks page for page through two
//! RAM buffers.  A checkpoint is written after every page, so a resumed run
//! repeats at most one page; the page being rewritten at the instant of a
//! power loss is lost, which is the acknowledged limitation of this mode.

use vstd::prelude::*;
use crate::exchange::{
    banks_swapped_from, exchange_setup_ok, exchange_state_frame, lemma_page_arith, region_eq,
    spec_full_pages, spec_geometry_error, spec_recovering, spec_swap_from, untouched_outside,
    Exchange, ExchangeError, MemoryError,
};
use crate::state::{ExchangeProgress, MoonbootState, State, Update};
use crate::storage::{write_region, Storage};

verus! {

/// The direct, destructive exchange engine.
pub struct Ram;

/// Swap two disjoint regions of equal length through the two buffers.
fn swap_regions<STORAGE: Storage>(
    storage: &mut STORAGE,
    a_loc: u32,
    b_loc: u32,
    len: usize,
    buf_a: &mut Vec<u8>,
    buf_b: &mut Vec<u8>,
) -> (r: Result<(), STORAGE::Error>)
    requires
        old(buf_a)@.len() == len,
        old(buf_b)@.len() == len,
        a_loc + len <= old(storage).mem().len(),
        b_loc + len <= old(storage).mem().len(),
        a_loc + len <= b_loc || b_loc + len <= a_loc,
    ensures
        final(storage).mem().len() == old(storage).mem().len(),
        final(buf_a)@.len() == len,
        final(buf_b)@.len() == len,
        (forall|j: int|
            0 <= j < old(storage).mem().len() && !(a_loc <= j < a_loc + len) && !(b_loc <= j
                < b_loc + len) ==> (#[trigger] final(storage).mem()[j]) == old(storage).mem()[j]),
        (r matches Ok(u) ==> {
            &&& region_eq(final(storage).mem(), a_loc as int, old(storage).mem(), b_loc as int, len as int)
            &&& region_eq(final(storage).mem(), b_loc as int, old(storage).mem(), a_loc as int, len as int)
        }),
{
    let ghost m0 = storage.mem();
    match storage.read(a_loc, buf_a) {
        Ok(u) => (),
        Err(e) => {
            return Err(e);
        },
    }
    match storage.read(b_loc, buf_b) {
        Ok(u) => (),
        Err(e) => {
            return Err(e);
        },
    }
    match storage.write(a_loc, buf_b) {
        Ok(u) => (),
        Err(e) => {
            return Err(e);
        },
    }
    let ghost m1 = storage.mem();
    match storage.write(b_loc, buf_a) {
        Ok(u) => (),
        Err(e) => {
            return Err(e);
        },
    }
    proof {
        let m2 = storage.mem();
        assert(m1 == write_region(m0, a_loc as int, m0.subrange(b_loc as int, b_loc + len)));
        assert(m2 == write_region(m1, b_loc as int, m0.subrange(a_loc as int, a_loc + len)));
        assert forall|j: int| a_loc <= j < a_loc + len implies m2[j] == m0[b_loc + (j - a_loc)] by {
            assert(m1[j] == m0.subrange(b_loc as int, b_loc + len)[j - a_loc]);
            assert(m2[j] == m1[j]);
        }
        assert forall|j: int| b_loc <= j < b_loc + len implies m2[j] == m0[a_loc + (j - b_loc)] by {
            assert(m2[j] == m0.subrange(a_loc as int, a_loc + len)[j - b_loc]);
        }
        assert forall|j: int|
            0 <= j < m0.len() && !(a_loc <= j < a_loc + len) && !(b_loc <= j < b_loc
                + len) implies m2[j] == m0[j] by {
            assert(m1[j] == m0[j]);
            assert(m2[j] == m1[j]);
        }
        assert(region_eq(m2, a_loc as int, m0, b_loc as int, len as int));
        assert(region_eq(m2, b_loc as int, m0, a_loc as int, len as int));
    }
    Ok(())
}

/// Exchange the contents of the two banks named by `progress`, page for
/// page, resuming at the checkpointed page.  On success the banks have
/// traded their contents from the starting page on (the trailing partial
/// page included) and nothing outside them has changed; the state store
/// holds the checkpoint of the last full page when any was processed.  A
/// refused geometry is reported before anything is written.
pub fn direct_exchange<STORAGE: Storage, STATE: State, const INTERNAL_PAGE_SIZE: usize>(
    storage: &mut STORAGE,
    state: &mut STATE,
    progress: ExchangeProgress,
) -> (r: Result<(), ExchangeError<STORAGE::Error, STATE::Error>>)
    requires
        0 < INTERNAL_PAGE_SIZE <= u32::MAX,
    ensures
        final(storage).mem().len() == old(storage).mem().len(),
        (spec_geometry_error(old(storage).mem().len() as int, progress.a, progress.b)
            matches Some(e) ==> r == Err::<(), ExchangeError<STORAGE::Error, STATE::Error>>(
            ExchangeError::Memory(e),
        ) && final(storage).mem() == old(storage).mem() && final(state).stored() == old(
            state,
        ).stored()),
        (r matches Err(x) ==> (x matches ExchangeError::Memory(e) ==> spec_geometry_error(
            old(storage).mem().len() as int,
            progress.a,
            progress.b,
        ) == Some(e))),
        (r matches Ok(u) ==> exchange_setup_ok(
            old(storage).mem().len() as int,
            progress.a,
            progress.b,
        )),
        (r matches Ok(u) ==> banks_swapped_from(
            old(storage).mem(),
            final(storage).mem(),
            progress.a,
            progress.b,
            progress.page_index as int,
            INTERNAL_PAGE_SIZE as int,
        )),
        untouched_outside(old(storage).mem(), final(storage).mem(), progress.a, progress.b),
        exchange_state_frame(
            old(state).stored(),
            final(state).stored(),
            progress,
            spec_recovering(old(state).stored(), progress),
        ),
        (r matches Ok(u) ==> ({
            let full = spec_full_pages(progress.a.size as int, INTERNAL_PAGE_SIZE as int);
            let rec = spec_recovering(old(state).stored(), progress);
            if progress.page_index < full {
                final(state).stored() == (MoonbootState {
                    update: Update::Exchanging(
                        ExchangeProgress {
                            a: progress.a,
                            b: progress.b,
                            page_index: (full - 1) as u32,
                            step: progress.step,
                            recovering: rec,
                        },
                    ),
                })
            } else {
                final(state).stored() == old(state).stored()
            }
        })),
{
    let a = progress.a;
    let b = progress.b;
    let start = progress.page_index;
    let step = progress.step;

    // Geometry checks, all before any write.
    let cap: usize = storage.capacity();
    if a.size != b.size {
        return Err(ExchangeError::Memory(MemoryError::BankSizeNotEqual));
    }
    if a.size == 0 {
        return Err(ExchangeError::Memory(MemoryError::BankSizeZero));
    }
    let a_end: u64 = a.location as u64 + a.size as u64;
    let b_end: u64 = b.location as u64 + b.size as u64;
    let limit: u64 = u32::MAX as u64 + 1;
    if a_end > limit || b_end > limit || a_end > cap as u64 || b_end > cap as u64 {
        return Err(ExchangeError::Memory(MemoryError::BankOutOfRange));
    }
    if !(a_end <= b.location as u64 || b_end <= a.location as u64) {
        return Err(ExchangeError::Memory(MemoryError::BanksOverlap));
    }
    let ghost m0 = storage.mem();
    let ghost st0 = state.stored();
    proof {
        assert(spec_geometry_error(m0.len() as int, a, b) is None);
        assert(exchange_setup_ok(m0.len() as int, a, b));
    }

    let mut last_state = match state.read() {
        Ok(s) => s,
        Err(e) => {
            return Err(ExchangeError::State(e));
        },
    };
    let recovering = match last_state.update {
        Update::Revert(x) => true,
        Update::Exchanging(q) => q.recovering,
        _ => false,
    };
    proof {
        assert(recovering == spec_recovering(st0, progress));
    }

    let page_u32: u32 = INTERNAL_PAGE_SIZE as u32;
    let size: u32 = a.size;
    let full_pages: u32 = size / page_u32;
    let remaining: u32 = size % page_u32;
    let ghost page = INTERNAL_PAGE_SIZE as int;
    let ghost full = spec_full_pages(size as int, page);
    let ghost lo = spec_swap_from(size as int, start as int, page);
    proof {
        assert(full_pages as int == full);
        vstd::arithmetic::div_mod::lemma_fundamental_div_mod(size as int, page);
        vstd::arithmetic::mul::lemma_mul_is_commutative(page, full);
        vstd::arithmetic::mul::lemma_mul_nonnegative(full, page);
        assert(full * page + remaining as int == size as int);
    }

    if start < full_pages {
        let mut buf_a: Vec<u8> = vec![0u8; INTERNAL_PAGE_SIZE];
        let mut buf_b: Vec<u8> = vec![0u8; INTERNAL_PAGE_SIZE];
        let mut i: u32 = start;
        proof {
            vstd::arithmetic::mul::lemma_mul_nonnegative(start as int, page);
            assert(lo == start as int * page);
            lemma_page_arith(size as int, page, start as int);
        }
        while i < full_pages
            invariant
                0 < INTERNAL_PAGE_SIZE <= u32::MAX,
                page == INTERNAL_PAGE_SIZE as int,
                page_u32 as int == page,
                a == progress.a,
                b == progress.b,
                step == progress.step,
                start == progress.page_index,
                m0 == old(storage).mem(),
                st0 == old(state).stored(),
                spec_geometry_error(m0.len() as int, a, b) is None,
                size == a.size,
                full == spec_full_pages(size as int, page),
                full_pages as int == full,
                exchange_setup_ok(m0.len() as int, a, b),
                start < full_pages,
                start <= i <= full_pages,
                lo == start as int * page,
                0 <= lo < size as int,
                storage.mem().len() == m0.len(),
                buf_a@.len() == INTERNAL_PAGE_SIZE,
                buf_b@.len() == INTERNAL_PAGE_SIZE,
                recovering == spec_recovering(st0, progress),
                region_eq(storage.mem(), a.location as int, m0, a.location as int, lo),
                region_eq(storage.mem(), b.location as int, m0, b.location as int, lo),
                region_eq(
                    storage.mem(),
                    a.location + lo,
                    m0,
                    b.location + lo,
                    i as int * page - lo,
                ),
                region_eq(
                    storage.mem(),
                    b.location + lo,
                    m0,
                    a.location + lo,
                    i as int * page - lo,
                ),
                region_eq(
                    storage.mem(),
                    a.location + i as int * page,
                    m0,
                    a.location + i as int * page,
                    size as int - i as int * page,
                ),
                region_eq(
                    storage.mem(),
                    b.location + i as int * page,
                    m0,
                    b.location + i as int * page,
                    size as int - i as int * page,
                ),
                untouched_outside(m0, storage.mem(), a, b),
                i == start ==> state.stored() == st0,
                i > start ==> state.stored() == (MoonbootState {
                    update: Update::Exchanging(
                        ExchangeProgress {
                            a,
                            b,
                            page_index: (i - 1) as u32,
                            step,
                            recovering,
                        },
                    ),
                }),
            decreases full_pages - i,
        {
            proof {
                lemma_page_arith(size as int, page, i as int);
                vstd::arithmetic::mul::lemma_mul_inequality(start as int, i as int, page);
            }
            let offset: u32 = i * page_u32;
            let a_loc: u32 = a.location + offset;
            let b_loc: u32 = b.location + offset;
            let ghost m_pre = storage.mem();
            let ghost ip = i as int * page;
            proof {
                assert(a_loc as int == a.location + ip);
                assert(b_loc as int == b.location + ip);
                assert(a_loc + INTERNAL_PAGE_SIZE <= a.spec_end());
                assert(b_loc + INTERNAL_PAGE_SIZE <= b.spec_end());
                assert(a_loc + INTERNAL_PAGE_SIZE <= b_loc || b_loc + INTERNAL_PAGE_SIZE <= a_loc);
            }
            match swap_regions(storage, a_loc, b_loc, INTERNAL_PAGE_SIZE, &mut buf_a, &mut buf_b) {
                Ok(u) => (),
                Err(e) => {
                    proof {
                        assert forall|j: int|
                            0 <= j < m0.len() && !a.spec_contains(j) && !b.spec_contains(
                                j,
                            ) implies (#[trigger] storage.mem()[j]) == m0[j] by {
                            assert(!(a_loc <= j < a_loc + INTERNAL_PAGE_SIZE));
                            assert(!(b_loc <= j < b_loc + INTERNAL_PAGE_SIZE));
                            assert(storage.mem()[j] == m_pre[j]);
                        }
                    }
                    return Err(ExchangeError::Storage(e));
                },
            }
            last_state.update = Update::Exchanging(
                ExchangeProgress { a, b, page_index: i, step, recovering },
            );
            match state.write(&last_state) {
                Ok(u) => (),
                Err(e) => {
                    proof {
                        assert forall|j: int|
                            0 <= j < m0.len() && !a.spec_contains(j) && !b.spec_contains(
                                j,
                            ) implies (#[trigger] storage.mem()[j]) == m0[j] by {
                            assert(!(a_loc <= j < a_loc + INTERNAL_PAGE_SIZE));
                            assert(!(b_loc <= j < b_loc + INTERNAL_PAGE_SIZE));
                            assert(storage.mem()[j] == m_pre[j]);
                        }
                    }
                    return Err(ExchangeError::State(e));
                },
            }
            proof {
                let m1 = storage.mem();
                let ip1 = ip + page;
                // The freshly swapped page extends the swapped region.
                assert forall|j: int| a.location + lo <= j < a.location + ip1 implies (
                #[trigger] m1[j]) == m0[b.location + (j - a.location)] by {
                    if j < a.location + ip {
                        assert(m_pre[j] == m0[b.location + (j - a.location)]);
                        assert(!(b_loc <= j < b_loc + INTERNAL_PAGE_SIZE));
                        assert(m1[j] == m_pre[j]);
                    } else {
                        assert(m1[j] == m_pre[b_loc + (j - a_loc)]);
                        assert(m_pre[b_loc + (j - a_loc)] == m0[b_loc + (j - a_loc)]);
                        assert(b_loc + (j - a_loc) == b.location + (j - a.location));
                    }
                }
                assert forall|j: int| b.location + lo <= j < b.location + ip1 implies (
                #[trigger] m1[j]) == m0[a.location + (j - b.location)] by {
                    if j < b.location + ip {
                        assert(m_pre[j] == m0[a.location + (j - b.location)]);
                        assert(!(a_loc <= j < a_loc + INTERNAL_PAGE_SIZE));
                        assert(m1[j] == m_pre[j]);
                    } else {
                        assert(m1[j] == m_pre[a_loc + (j - b_loc)]);
                        assert(m_pre[a_loc + (j - b_loc)] == m0[a_loc + (j - b_loc)]);
                        assert(a_loc + (j - b_loc) == a.location + (j - b.location));
                    }
                }
                // Bytes before the window and after the new page are untouched.
                assert forall|j: int|
                    a.location <= j < a.location + lo || b.location <= j < b.location + lo || (
                    a.location + ip1 <= j < a.spec_end()) || (b.location + ip1 <= j
                    < b.spec_end()) implies (#[trigger] m1[j]) == m_pre[j] by {
                    assert(!(a_loc <= j < a_loc + INTERNAL_PAGE_SIZE));
                    assert(!(b_loc <= j < b_loc + INTERNAL_PAGE_SIZE));
                }
                assert(region_eq(m1, a.location as int, m0, a.location as int, lo));
                assert(region_eq(m1, b.location as int, m0, b.location as int, lo));
                assert(region_eq(m1, a.location + lo, m0, b.location + lo, ip1 - lo));
                assert(region_eq(m1, b.location + lo, m0, a.location + lo, ip1 - lo));
                assert(region_eq(m1, a.location + ip1, m0, a.location + ip1, size as int - ip1));
                assert(region_eq(m1, b.location + ip1, m0, b.location + ip1, size as int - ip1));
                assert forall|j: int|
                    0 <= j < m0.len() && !a.spec_contains(j) && !b.spec_contains(j) implies (
                #[trigger] m1[j]) == m0[j] by {
                    assert(!(a_loc <= j < a_loc + INTERNAL_PAGE_SIZE));
                    assert(!(b_loc <= j < b_loc + INTERNAL_PAGE_SIZE));
                    assert(m1[j] == m_pre[j]);
                }
                assert((i + 1) as int * page == ip1) by {
                    vstd::arithmetic::mul::lemma_mul_is_distributive_add_other_way(
                        page,
                        i as int,
                        1,
                    );
                    vstd::arithmetic::mul::lemma_mul_basics(page);
                }
            }
            i = i + 1;
        }
    }

    // After the whole-page loop (or with no whole page to do), the banks
    // are swapped between the starting offset and the end of the last full
    // page; everything else still holds its original bytes.
    let ghost m_mid = storage.mem();
    proof {
        if start < full_pages {
            assert(lo == start as int * page);
        } else {
            vstd::arithmetic::mul::lemma_mul_is_commutative(page, full);
            assert(lo == full * page);
            assert(m_mid == m0);
        }
        assert(region_eq(m_mid, a.location as int, m0, a.location as int, lo));
        assert(region_eq(m_mid, b.location as int, m0, b.location as int, lo));
        assert(region_eq(m_mid, a.location + lo, m0, b.location + lo, full * page - lo));
        assert(region_eq(m_mid, b.location + lo, m0, a.location + lo, full * page - lo));
        assert(region_eq(
            m_mid,
            a.location + full * page,
            m0,
            a.location + full * page,
            size as int - full * page,
        ));
        assert(region_eq(
            m_mid,
            b.location + full * page,
            m0,
            b.location + full * page,
            size as int - full * page,
        ));
        assert(untouched_outside(m0, m_mid, a, b));
    }

    if remaining > 0 {
        let offset: u32 = full_pages * page_u32;
        let a_loc: u32 = a.location + offset;
        let b_loc: u32 = b.location + offset;
        let mut tail_a: Vec<u8> = vec![0u8; remaining as usize];
        let mut tail_b: Vec<u8> = vec![0u8; remaining as usize];
        proof {
            assert(offset as int == full * page);
            assert(a_loc + remaining <= a.spec_end());
            assert(b_loc + remaining <= b.spec_end());
        }
        match swap_regions(storage, a_loc, b_loc, remaining as usize, &mut tail_a, &mut tail_b) {
            Ok(u) => (),
            Err(e) => {
                proof {
                    assert forall|j: int|
                        0 <= j < m0.len() && !a.spec_contains(j) && !b.spec_contains(j) implies (
                    #[trigger] storage.mem()[j]) == m0[j] by {
                        assert(!(a_loc <= j < a_loc + remaining));
                        assert(!(b_loc <= j < b_loc + remaining));
                        assert(storage.mem()[j] == m_mid[j]);
                    }
                }
                return Err(ExchangeError::Storage(e));
            },
        }
        proof {
            let m1 = storage.mem();
            let fp = full * page;
            assert forall|j: int| a.location + lo <= j < a.spec_end() implies (#[trigger] m1[j])
                == m0[b.location + (j - a.location)] by {
                if j < a.location + fp {
                    assert(!(b_loc <= j < b_loc + remaining));
                    assert(m1[j] == m_mid[j]);
                } else {
                    assert(m1[j] == m_mid[b_loc + (j - a_loc)]);
                    assert(m_mid[b_loc + (j - a_loc)] == m0[b_loc + (j - a_loc)]);
                    assert(b_loc + (j - a_loc) == b.location + (j - a.location));
                }
            }
            assert forall|j: int| b.location + lo <= j < b.spec_end() implies (#[trigger] m1[j])
                == m0[a.location + (j - b.location)] by {
                if j < b.location + fp {
                    assert(!(a_loc <= j < a_loc + remaining));
                    assert(m1[j] == m_mid[j]);
                } else {
                    assert(m1[j] == m_mid[a_loc + (j - b_loc)]);
                    assert(m_mid[a_loc + (j - b_loc)] == m0[a_loc + (j - b_loc)]);
                    assert(a_loc + (j - b_loc) == a.location + (j - b.location));
                }
            }
            assert forall|j: int|
                a.location <= j < a.location + lo || b.location <= j < b.location
                    + lo implies (#[trigger] m1[j]) == m0[j] by {
                assert(!(a_loc <= j < a_loc + remaining));
                assert(!(b_loc <= j < b_loc + remaining));
                assert(m1[j] == m_mid[j]);
            }
            assert forall|j: int|
                0 <= j < m0.len() && !a.spec_contains(j) && !b.spec_contains(j) implies (
            #[trigger] m1[j]) == m0[j] by {
                assert(!(a_loc <= j < a_loc + remaining));
                assert(!(b_loc <= j < b_loc + remaining));
                assert(m1[j] == m_mid[j]);
            }
        }
    }
    proof {
        let m1 = storage.mem();
        assert(banks_swapped_from(m0, m1, a, b, start as int, page)) by {
            if remaining == 0 {
                assert(full * page == size as int);
            }
        }
    }
    Ok(())
}

impl<STORAGE: Storage, STATE: State> Exchange<STORAGE, STATE> for Ram {
    type Error = ExchangeError<STORAGE::Error, STATE::Error>;

    open spec fn spec_touches(&self, addr: int, page: int) -> bool {
        false
    }

    fn exchange<const INTERNAL_PAGE_SIZE: usize>(
        &mut self,
        storage: &mut STORAGE,
        state: &mut STATE,
        progress: ExchangeProgress,
    ) -> (r: Result<(), Self::Error>) {
        direct_exchange::<STORAGE, STATE, INTERNAL_PAGE_SIZE>(storage, state, progress)
    }
}

} // verus!
