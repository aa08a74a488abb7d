//! The frame source: lazily issues unused physical frames from the firmware
//! memory map, in ascending per-region order, each frame at most once.

use vstd::prelude::*;
use crate::addr::{page_aligned, PHYS_LIMIT};
use crate::frame::{Frame, UnusedFrame};
use crate::memory_map::{region_frames, usable_frames, MemoryRegion, RegionKind};

verus! {

/// A producer of frames proven unused. `frames_view` is the sequence of
/// frames it will still issue, in order.
pub trait FrameAllocator: Sized {
    spec fn inv(&self) -> bool;

    spec fn frames_view(&self) -> Seq<u64>;

    /// Issue the next unused frame, or report exhaustion.
    fn allocate_frame(&mut self) -> (r: Option<UnusedFrame>)
        requires
            old(self).inv(),
        ensures
            final(self).inv(),
            match r {
                None => {
                    &&& old(self).frames_view().len() == 0
                    &&& final(self).frames_view() == old(self).frames_view()
                },
                Some(uf) => {
                    &&& old(self).frames_view().len() > 0
                    &&& uf.frame.start == old(self).frames_view()[0]
                    &&& uf.frame.wf()
                    &&& final(self).frames_view() == old(self).frames_view().drop_first()
                },
            },
    ;
}

/// The degenerate frame source: always exhausted. Used where a mapping must
/// be shown to require no new frames.
pub struct EmptyFrameAllocator;

impl FrameAllocator for EmptyFrameAllocator {
    open spec fn inv(&self) -> bool {
        true
    }

    open spec fn frames_view(&self) -> Seq<u64> {
        Seq::empty()
    }

    fn allocate_frame(&mut self) -> (r: Option<UnusedFrame>) {
        None
    }
}

/// The boot-time frame source: a cursor over the frame-aligned addresses of
/// the usable regions of the firmware memory map, taken in region order.
/// Frames already issued are never issued again, and nothing is ever given
/// back.
pub struct BootInfoFrameAllocator {
    frames: Vec<u64>,
    next: usize,
}

impl FrameAllocator for BootInfoFrameAllocator {
    closed spec fn inv(&self) -> bool {
        &&& self.next <= self.frames@.len()
        &&& forall|i: int|
            0 <= i < self.frames@.len() ==> page_aligned(#[trigger] self.frames@[i])
                && self.frames@[i] < PHYS_LIMIT
    }

    closed spec fn frames_view(&self) -> Seq<u64> {
        self.frames@.skip(self.next as int)
    }

    fn allocate_frame(&mut self) -> (r: Option<UnusedFrame>) {
        if self.next < self.frames.len() {
            let start = self.frames[self.next];
            self.next = self.next + 1;
            proof {
                assert(final(self).frames_view() == old(self).frames_view().drop_first());
            }
            Some(UnusedFrame { frame: Frame { start } })
        } else {
            proof {
                assert(old(self).frames_view().len() == 0);
                assert(final(self).frames_view() == old(self).frames_view());
            }
            None
        }
    }
}

impl BootInfoFrameAllocator {
    /// Build the frame source from the firmware memory map. Its future
    /// issuance is exactly the usable regions' frame sequences, concatenated
    /// in region order. Region disjointness is trusted input from the
    /// firmware, not validated here.
    pub fn new(memory_map: &Vec<MemoryRegion>) -> (r: BootInfoFrameAllocator)
        requires
            forall|i: int| 0 <= i < memory_map@.len() ==> (#[trigger] memory_map@[i]).wf(),
        ensures
            r.inv(),
            r.frames_view() == usable_frames(memory_map@),
    {
        let mut frames: Vec<u64> = Vec::new();
        let mut i: usize = 0;
        while i < memory_map.len()
            invariant
                i <= memory_map@.len(),
                forall|k: int| 0 <= k < memory_map@.len() ==> (#[trigger] memory_map@[k]).wf(),
                frames@ == usable_frames(memory_map@.subrange(0, i as int)),
                forall|k: int|
                    0 <= k < frames@.len() ==> page_aligned(#[trigger] frames@[k])
                        && frames@[k] < PHYS_LIMIT,
            decreases memory_map@.len() - i,
        {
            let region = memory_map[i];
            let ghost pre = frames@;
            if matches!(region.kind, RegionKind::Usable) {
                let mut a: u64 = region.start;
                let ghost mut c: int = 0;
                while a < region.end
                    invariant
                        region.wf(),
                        region.kind is Usable,
                        0 <= c <= region_frames(region).len(),
                        a == region.start + 4096 * c,
                        a <= region.end,
                        frames@ == pre + region_frames(region).subrange(0, c),
                        forall|k: int|
                            0 <= k < frames@.len() ==> page_aligned(#[trigger] frames@[k])
                                && frames@[k] < PHYS_LIMIT,
                    decreases region.end - a,
                {
                    proof {
                        crate::memory_map::lemma_region_frames_range(region);
                        assert((region.end - region.start) % 4096 == 0 && region.end
                            - region.start == 4096 * ((region.end - region.start) / 4096))
                            by (nonlinear_arith)
                            requires
                                region.start % 4096 == 0,
                                region.end % 4096 == 0,
                                region.start <= region.end,
                        ;
                        assert(c < region_frames(region).len()) by (nonlinear_arith)
                            requires
                                region.start + 4096 * c < region.end,
                                region.end - region.start == 4096 * (
                                (region.end - region.start) / 4096),
                                region_frames(region).len() == (region.end - region.start) / 4096,
                                c >= 0,
                        ;
                        assert(region_frames(region)[c] == a);
                    }
                    frames.push(a);
                    proof {
                        assert(frames@ == pre + region_frames(region).subrange(0, c + 1));
                        c = c + 1;
                    }
                    a = a + 4096;
                }
                proof {
                    assert(a == region.end);
                    assert(c == region_frames(region).len()) by (nonlinear_arith)
                        requires
                            region.start + 4096 * c == region.end,
                            region_frames(region).len() == (region.end - region.start) / 4096,
                            region.end - region.start == 4096 * ((region.end - region.start)
                                / 4096),
                            c >= 0,
                    ;
                    assert(region_frames(region).subrange(0, c) == region_frames(region));
                    assert(frames@ == pre + region_frames(region));
                }
            }
            i = i + 1;
            proof {
                let prefix = memory_map@.subrange(0, i as int);
                assert(prefix.drop_last() == memory_map@.subrange(0, i - 1));
                assert(prefix.last() == memory_map@[i - 1]);
                if !(memory_map@[i - 1].kind is Usable) {
                    assert(frames@ == pre + Seq::<u64>::empty());
                    assert(frames@ == pre);
                }
            }
        }
        proof {
            assert(memory_map@.subrange(0, memory_map@.len() as int) == memory_map@);
        }
        BootInfoFrameAllocator { frames, next: 0 }
    }
}

/// Free-standing constructor for the boot-time frame source, mirroring the
/// associated one.
#[allow(nonstandard_style)]
pub fn BootInfoFrameAllocator_new(memory_map: &Vec<MemoryRegion>) -> (r: BootInfoFrameAllocator)
    requires
        forall|i: int| 0 <= i < memory_map@.len() ==> (#[trigger] memory_map@[i]).wf(),
    ensures
        r.inv(),
        r.frames_view() == usable_frames(memory_map@),
{
    BootInfoFrameAllocator::new(memory_map)
}

} // verus!
