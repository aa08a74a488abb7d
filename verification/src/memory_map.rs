//! The firmware memory map: physical address ranges tagged with a region
//! kind. Only usable regions feed the frame source.

use vstd::prelude::*;
use crate::addr::{page_aligned, PHYS_LIMIT};

verus! {

/// Kind of a firmware memory region. Anything but `Usable` is never handed
/// out as a frame.
#[derive(Clone, Copy, PartialEq, Eq, Structural, Debug)]
pub enum RegionKind {
    Usable,
    InUse,
    Reserved,
}

/// One entry of the firmware memory map: the physical range
/// `[start, end)` with its kind. The firmware reports ranges at frame
/// granularity, so both bounds are page-aligned.
#[derive(Clone, Copy, PartialEq, Eq, Structural, Debug)]
pub struct MemoryRegion {
    pub start: u64,
    pub end: u64,
    pub kind: RegionKind,
}

impl MemoryRegion {
    pub open spec fn wf(self) -> bool {
        &&& page_aligned(self.start)
        &&& page_aligned(self.end)
        &&& self.start <= self.end
        &&& self.end <= PHYS_LIMIT
    }

    pub fn new(start: u64, end: u64, kind: RegionKind) -> (r: MemoryRegion)
        requires
            page_aligned(start),
            page_aligned(end),
            start <= end,
            end <= PHYS_LIMIT,
        ensures
            r == (MemoryRegion { start, end, kind }),
            r.wf(),
    {
        MemoryRegion { start, end, kind }
    }
}

/// The ascending sequence of frame base addresses covering a region.
pub open spec fn region_frames(r: MemoryRegion) -> Seq<u64> {
    if r.start <= r.end {
        Seq::new(((r.end - r.start) / 4096) as nat, |k: int| (r.start + 4096 * k) as u64)
    } else {
        Seq::empty()
    }
}

/// The frame sequence of a whole memory map: the per-region sequences of the
/// usable regions, concatenated in region order.
pub open spec fn usable_frames(rs: Seq<MemoryRegion>) -> Seq<u64>
    decreases rs.len(),
{
    if rs.len() == 0 {
        Seq::empty()
    } else {
        usable_frames(rs.drop_last()) + (if rs.last().kind is Usable {
            region_frames(rs.last())
        } else {
            Seq::empty()
        })
    }
}

/// Every frame of a well-formed region is aligned and lies inside the region.
pub proof fn lemma_region_frames_range(r: MemoryRegion)
    requires
        r.wf(),
    ensures
        forall|k: int|
            0 <= k < region_frames(r).len() ==> {
                &&& r.start <= #[trigger] region_frames(r)[k]
                &&& region_frames(r)[k] < r.end
                &&& page_aligned(region_frames(r)[k])
                &&& region_frames(r)[k] < PHYS_LIMIT
            },
        forall|k1: int, k2: int|
            0 <= k1 < k2 < region_frames(r).len()
                ==> #[trigger] region_frames(r)[k1] < #[trigger] region_frames(r)[k2],
{
    let q = ((r.end - r.start) / 4096) as int;
    assert((r.end - r.start) % 4096 == 0 && r.end - r.start == 4096 * q) by (nonlinear_arith)
        requires
            r.start % 4096 == 0,
            r.end % 4096 == 0,
            r.start <= r.end,
            q == (r.end - r.start) / 4096,
    ;
    assert forall|k: int| 0 <= k < region_frames(r).len() implies {
        &&& r.start <= #[trigger] region_frames(r)[k]
        &&& region_frames(r)[k] < r.end
        &&& page_aligned(region_frames(r)[k])
        &&& region_frames(r)[k] < PHYS_LIMIT
    } by {
        assert(4096 * k < 4096 * q && 4096 * k >= 0) by (nonlinear_arith)
            requires
                0 <= k < q,
        ;
        assert((r.start + 4096 * k) % 4096 == 0) by (nonlinear_arith)
            requires
                r.start % 4096 == 0,
                k >= 0,
        ;
    }
}

/// Every frame of a usable region list lies below any bound that caps all
/// region ends.
pub proof fn lemma_usable_frames_below(rs: Seq<MemoryRegion>, bound: u64)
    requires
        forall|i: int| 0 <= i < rs.len() ==> (#[trigger] rs[i]).wf(),
        forall|i: int| 0 <= i < rs.len() ==> (#[trigger] rs[i]).end <= bound,
    ensures
        forall|k: int|
            0 <= k < usable_frames(rs).len() ==> #[trigger] usable_frames(rs)[k] < bound,
    decreases rs.len(),
{
    if rs.len() > 0 {
        let front = rs.drop_last();
        let last = rs.last();
        assert(forall|i: int| 0 <= i < front.len() ==> #[trigger] front[i] == rs[i]);
        assert(last == rs[rs.len() - 1]);
        lemma_usable_frames_below(front, bound);
        lemma_region_frames_range(last);
        let a = usable_frames(front);
        let b = if last.kind is Usable {
            region_frames(last)
        } else {
            Seq::<u64>::empty()
        };
        assert(usable_frames(rs) == a + b);
        assert forall|k: int| 0 <= k < usable_frames(rs).len() implies #[trigger] usable_frames(
            rs,
        )[k] < bound by {
            if k < a.len() {
                assert(usable_frames(rs)[k] == a[k]);
            } else {
                assert(usable_frames(rs)[k] == b[k - a.len()]);
            }
        }
    }
}

/// Frame monotonicity: over a memory map whose regions come in ascending,
/// pairwise disjoint order, the frame sequence is strictly increasing, so no
/// frame base ever appears twice.
pub proof fn lemma_usable_frames_monotonic(rs: Seq<MemoryRegion>)
    requires
        forall|i: int| 0 <= i < rs.len() ==> (#[trigger] rs[i]).wf(),
        forall|i: int, j: int| 0 <= i < j < rs.len() ==> rs[i].end <= rs[j].start,
    ensures
        forall|k1: int, k2: int|
            0 <= k1 < k2 < usable_frames(rs).len()
                ==> #[trigger] usable_frames(rs)[k1] < #[trigger] usable_frames(rs)[k2],
    decreases rs.len(),
{
    if rs.len() > 0 {
        let front = rs.drop_last();
        let last = rs.last();
        assert(forall|i: int| 0 <= i < front.len() ==> #[trigger] front[i] == rs[i]);
        assert(last == rs[rs.len() - 1]);
        lemma_usable_frames_monotonic(front);
        lemma_region_frames_range(last);
        assert(forall|i: int| 0 <= i < front.len() ==> (#[trigger] front[i]).end <= last.start);
        lemma_usable_frames_below(front, last.start);
        let a = usable_frames(front);
        let b = if last.kind is Usable {
            region_frames(last)
        } else {
            Seq::<u64>::empty()
        };
        assert(usable_frames(rs) == a + b);
        assert forall|k1: int, k2: int| 0 <= k1 < k2 < usable_frames(rs).len() implies #[trigger] usable_frames(
            rs,
        )[k1] < #[trigger] usable_frames(rs)[k2] by {
            if k2 < a.len() {
                assert(usable_frames(rs)[k1] == a[k1] && usable_frames(rs)[k2] == a[k2]);
            } else if k1 < a.len() {
                assert(usable_frames(rs)[k1] == a[k1] && usable_frames(rs)[k2] == b[k2 - a.len()]);
                assert(a[k1] < last.start);
                assert(last.start <= b[k2 - a.len()]);
            } else {
                assert(usable_frames(rs)[k1] == b[k1 - a.len()] && usable_frames(rs)[k2] == b[k2
                    - a.len()]);
            }
        }
    }
}

} // verus!
