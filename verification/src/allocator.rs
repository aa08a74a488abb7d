//! Heap bootstrap: map the fixed virtual heap range page by page, each page
//! backed by a fresh unused frame, before the range is handed to the
//! general-purpose allocator. The allocator algorithm itself is an external
//! collaborator; only its virtual-memory bootstrap lives here.

use vstd::prelude::*;
use crate::addr::{canonical, page_aligned, VirtAddr, LOW_HALF_END};
use crate::frame::{spec_page_base, Page};
use crate::frame_source::FrameAllocator;
use crate::mapper::{spec_walk, tables_needed, MapError, Mapper, WalkResult};
use crate::table::PageTableFlags;

verus! {

/// Number of pages in the inclusive page range covering
/// `[heap_start, heap_start + heap_size)`.
pub open spec fn spec_heap_page_count(heap_start: u64, heap_size: u64) -> int {
    (spec_page_base((heap_start + heap_size - 1) as u64) - spec_page_base(heap_start)) / 4096 + 1
}

/// When the heap bootstrap cannot fail: every page of the inclusive page
/// range covering `[heap_start, heap_start + heap_size)` is still unmapped,
/// and the frame source holds at least four frames per page — one for the
/// page itself and at most three for intermediate tables.
pub open spec fn init_success_owed(
    m: Mapper,
    frames: Seq<u64>,
    heap_start: u64,
    heap_size: u64,
) -> bool {
    &&& forall|p: u64|
        page_aligned(p) && spec_page_base(heap_start) <= p <= spec_page_base(
            (heap_start + heap_size - 1) as u64,
        ) ==> (#[trigger] spec_walk(m, p)) is Unmapped
    &&& frames.len() >= 4 * spec_heap_page_count(heap_start, heap_size)
}

/// Map every page of `[heap_start, heap_start + heap_size)`, in ascending
/// order, to a fresh unused frame with present and writable flags. On the
/// first failure the error is returned at once: pages already installed stay
/// mapped (no rollback) — acceptable only because a boot-time failure here
/// is fatal to the kernel anyway.
#[verifier::rlimit(60)]
pub fn init<FS: FrameAllocator>(
    heap_start: u64,
    heap_size: u64,
    mapper: &mut Mapper,
    frame_source: &mut FS,
) -> (r: Result<(), MapError>)
    requires
        old(mapper).wf(),
        heap_size > 0,
        heap_start + heap_size <= LOW_HALF_END,
        old(frame_source).inv(),
        forall|i: int, j: int|
            0 <= i < j < old(frame_source).frames_view().len()
                ==> old(frame_source).frames_view()[i] != old(frame_source).frames_view()[j],
        forall|i: int|
            0 <= i < old(frame_source).frames_view().len() ==> !old(
                mapper,
            ).table_frames().contains(#[trigger] old(frame_source).frames_view()[i]),
    ensures
        final(mapper).wf(),
        final(frame_source).inv(),
        // Heap bootstrap completeness: on success the whole byte range
        // translates.
        r is Ok ==> forall|a: u64|
            heap_start <= a < heap_start + heap_size ==> (#[trigger] spec_walk(
                *final(mapper),
                a,
            )) is Mapped,
        // Addresses outside the covered page range keep their translation.
        r is Ok ==> forall|a: u64|
            canonical(a) && !(spec_page_base(heap_start) <= spec_page_base(a) <= spec_page_base(
                (heap_start + heap_size - 1) as u64,
            )) ==> spec_walk(*final(mapper), a) == spec_walk(*old(mapper), a),
        init_success_owed(*old(mapper), old(frame_source).frames_view(), heap_start, heap_size)
            ==> r is Ok,
{
    let ghost m0 = *old(mapper);
    let ghost fv0 = old(frame_source).frames_view();
    let ghost suff = init_success_owed(m0, fv0, heap_start, heap_size);
    let heap_end_incl = heap_start + heap_size - 1;
    let first = Page::containing_address(VirtAddr { addr: heap_start });
    let last = Page::containing_address(VirtAddr { addr: heap_end_incl });
    let mut page_addr: u64 = first.start;
    proof {
        crate::frame::lemma_page_base(heap_start);
        crate::frame::lemma_page_base(heap_end_incl);
        assert(heap_start <= heap_end_incl ==> (heap_start & 0xffff_ffff_ffff_f000)
            <= (heap_end_incl & 0xffff_ffff_ffff_f000)) by (bit_vector);
        assert((spec_page_base(heap_end_incl) - spec_page_base(heap_start)) % 4096 == 0 && 0
            <= (spec_page_base(heap_end_incl) - spec_page_base(heap_start)) / 4096)
            by (nonlinear_arith)
            requires
                spec_page_base(heap_start) % 4096 == 0,
                spec_page_base(heap_end_incl) % 4096 == 0,
                spec_page_base(heap_start) <= spec_page_base(heap_end_incl),
        ;
        if suff {
            assert(fv0.len() >= 4 * ((last.start - first.start) / 4096 + 1));
        }
    }
    while page_addr <= last.start
        invariant
            suff == init_success_owed(m0, fv0, heap_start, heap_size),
            m0 == *old(mapper),
            fv0 == old(frame_source).frames_view(),
            mapper.wf(),
            frame_source.inv(),
            heap_size > 0,
            heap_start + heap_size <= LOW_HALF_END,
            heap_end_incl == heap_start + heap_size - 1,
            first.start == spec_page_base(heap_start),
            last.start == spec_page_base(heap_end_incl),
            first.start <= last.start < LOW_HALF_END,
            page_aligned(first.start),
            page_aligned(last.start),
            page_aligned(page_addr),
            first.start <= page_addr <= last.start + 4096,
            // Pages already processed translate.
            forall|a: u64|
                canonical(a) && first.start <= spec_page_base(a) < page_addr ==> (
                #[trigger] spec_walk(*mapper, a)) is Mapped,
            // Everything else is untouched.
            forall|a: u64|
                canonical(a) && !(first.start <= spec_page_base(a) < page_addr)
                    ==> spec_walk(*mapper, a) == spec_walk(m0, a),
            // The remaining frames stay fresh.
            forall|i: int, j: int|
                0 <= i < j < frame_source.frames_view().len() ==> frame_source.frames_view()[i]
                    != frame_source.frames_view()[j],
            forall|i: int|
                0 <= i < frame_source.frames_view().len() ==> !mapper.table_frames().contains(
                    #[trigger] frame_source.frames_view()[i],
                ),
            // Under the sufficiency hypothesis, enough frames remain.
            suff ==> frame_source.frames_view().len() >= 4 * ((last.start - page_addr) / 4096 + 1),
        decreases last.start + 4096 - page_addr,
    {
        let page = Page { start: page_addr };
        let ghost m_iter = *mapper;
        let ghost fv_iter = frame_source.frames_view();
        proof {
            if suff {
                assert((last.start - page_addr) / 4096 + 1 >= 1) by (nonlinear_arith)
                    requires
                        page_addr <= last.start,
                ;
            }
        }
        let uf = match frame_source.allocate_frame() {
            None => {
                proof {
                    if suff {
                        assert(fv_iter.len() == 0);
                        assert((last.start - page_addr) / 4096 + 1 >= 1);
                        assert(fv_iter.len() >= 4 * ((last.start - page_addr) / 4096 + 1));
                        assert(fv_iter.len() >= 4) by (nonlinear_arith)
                            requires
                                fv_iter.len() >= 4 * ((last.start - page_addr) / 4096 + 1),
                                (last.start - page_addr) / 4096 + 1 >= 1,
                        ;
                        assert(false);
                    }
                }
                return Err(MapError::FrameAllocationFailed);
            },
            Some(uf) => uf,
        };
        let flags = PageTableFlags::present_writable();
        proof {
            // The frame taken for the page itself leaves the rest fresh.
            assert(frame_source.frames_view() == fv_iter.drop_first());
            assert(forall|i: int|
                0 <= i < frame_source.frames_view().len() ==> #[trigger] frame_source.frames_view()[i]
                    == fv_iter[i + 1]);
        }
        let res = mapper.map_to(page, uf, flags, frame_source);
        match res {
            Ok(()) => {},
            Err(e) => {
                proof {
                    if suff {
                        // Under sufficiency the page was unmapped and
                        // frames were plentiful, so no error is possible.
                        crate::frame::lemma_page_base_of_aligned(page.start);
                        assert(canonical(page.start));
                        assert(spec_walk(m_iter, page.start) == spec_walk(m0, page.start));
                        assert(init_success_owed(m0, fv0, heap_start, heap_size));
                        assert(page_aligned(page.start) && spec_page_base(heap_start)
                            <= page.start <= spec_page_base((heap_start + heap_size - 1) as u64));
                        assert(spec_walk(m0, page.start) is Unmapped);
                        assert(tables_needed(m_iter, page.start) <= 3);
                        assert(fv_iter.drop_first().len() >= 3) by (nonlinear_arith)
                            requires
                                fv_iter.len() >= 4 * ((last.start - page_addr) / 4096 + 1),
                                (last.start - page_addr) / 4096 + 1 >= 1,
                                fv_iter.drop_first().len() == fv_iter.len() - 1,
                        ;
                        assert(false);
                    }
                }
                return Err(e);
            },
        }
        proof {
            let ghost needed = tables_needed(m_iter, page.start);
            assert(needed <= 3);
            // Freshness of what remains after this page's consumption.
            assert(frame_source.frames_view() == fv_iter.drop_first().skip(needed as int));
            assert(forall|i: int|
                0 <= i < frame_source.frames_view().len() ==> #[trigger] frame_source.frames_view()[i]
                    == fv_iter[i + 1 + needed]);
            if suff {
                assert(fv_iter.drop_first().skip(needed as int).len() >= 4 * ((last.start
                    - (page_addr + 4096)) / 4096 + 1)) by (nonlinear_arith)
                    requires
                        fv_iter.len() >= 4 * ((last.start - page_addr) / 4096 + 1),
                        needed <= 3,
                        fv_iter.drop_first().skip(needed as int).len() == fv_iter.len() - 1
                            - needed,
                        page_addr <= last.start,
                        page_addr % 4096 == 0,
                        last.start % 4096 == 0,
                ;
            }
            // Per-page translation: every address of this page now maps.
            assert forall|a: u64|
                canonical(a) && first.start <= spec_page_base(a) < page_addr + 4096 implies (
            #[trigger] spec_walk(*mapper, a)) is Mapped by {
                crate::frame::lemma_page_base(a);
                crate::frame::lemma_aligned_below_next(spec_page_base(a), page_addr);
                if spec_page_base(a) == page.start {
                    assert(spec_walk(*mapper, a) is Mapped);
                } else {
                    assert(spec_page_base(a) < page_addr);
                    assert(spec_walk(*mapper, a) == spec_walk(m_iter, a));
                }
            }
            assert forall|a: u64|
                canonical(a) && !(first.start <= spec_page_base(a) < page_addr + 4096) implies
                spec_walk(*mapper, a) == spec_walk(m0, a) by {
                crate::frame::lemma_page_base(a);
                crate::frame::lemma_aligned_below_next(spec_page_base(a), page_addr);
                assert(spec_page_base(a) != page.start);
                assert(spec_walk(*mapper, a) == spec_walk(m_iter, a));
            }
        }
        page_addr = page_addr + 4096;
    }
    proof {
        // At exit the cursor stands one page past the last one.
        assert(page_addr == last.start + 4096) by (nonlinear_arith)
            requires
                page_addr % 4096 == 0,
                last.start % 4096 == 0,
                last.start < page_addr <= last.start + 4096,
        ;
        // A page base below the cursor is at most the last page base.
        assert forall|a: u64| canonical(a) implies (spec_page_base(a) < page_addr <==> spec_page_base(
            a,
        ) <= last.start) by {
            crate::frame::lemma_page_base(a);
            assert(spec_page_base(a) % 4096 == 0 && last.start % 4096 == 0 ==> (spec_page_base(a)
                < last.start + 4096 <==> spec_page_base(a) <= last.start)) by (nonlinear_arith);
        }
        // Every byte of the heap range lies in a processed page.
        assert forall|a: u64| heap_start <= a < heap_start + heap_size implies (
        #[trigger] spec_walk(*mapper, a)) is Mapped by {
            crate::frame::lemma_page_base(a);
            assert(spec_page_base(heap_start) <= spec_page_base(a) <= spec_page_base(
                heap_end_incl,
            )) by (bit_vector)
                requires
                    heap_start <= a,
                    a <= heap_end_incl,
                    heap_end_incl < 0x0000_8000_0000_0000u64,
            ;
            assert(canonical(a));
        }
    }
    Ok(())
}

} // verus!
