//! Pages, frames, and the capability marker for a frame proven unused.

use vstd::prelude::*;
use crate::addr::{
    canonical, page_aligned, spec_page_offset, PhysAddr, VirtAddr, PHYS_LIMIT,
};

verus! {

/// The 4 KiB-aligned base of the page or frame containing an address.
pub open spec fn spec_page_base(a: u64) -> u64 {
    a & 0xffff_ffff_ffff_f000
}

/// Rounding down to a page base keeps canonicality, gives alignment, and
/// strips exactly the page offset.
pub proof fn lemma_page_base(a: u64)
    ensures
        spec_page_base(a) == a - spec_page_offset(a),
        page_aligned(spec_page_base(a)),
        spec_page_base(a) <= a,
        canonical(a) ==> canonical(spec_page_base(a)),
{
    assert({
        let b = a & 0xffff_ffff_ffff_f000;
        b == a - (a & 0xfff) && b % 4096 == 0 && b <= a
            && ((a < 0x0000_8000_0000_0000u64 || a >= 0xffff_8000_0000_0000u64)
                ==> (b < 0x0000_8000_0000_0000u64 || b >= 0xffff_8000_0000_0000u64))
    }) by (bit_vector);
}

/// A page-aligned address is its own page base.
pub proof fn lemma_page_base_of_aligned(p: u64)
    requires
        page_aligned(p),
    ensures
        spec_page_base(p) == p,
{
    assert(p % 4096 == 0 ==> (p & 0xffff_ffff_ffff_f000) == p) by (bit_vector);
}

/// For page-aligned values, lying under the next page boundary is the same
/// as not exceeding the boundary's base.
pub proof fn lemma_aligned_below_next(x: u64, y: u64)
    requires
        page_aligned(x),
        page_aligned(y),
        y + 4096 <= u64::MAX,
    ensures
        x < y + 4096 <==> x <= y,
{
    assert((x % 4096 == 0 && y % 4096 == 0 && y + 4096 <= u64::MAX) ==> (x < y + 4096 <==> x
        <= y)) by (bit_vector);
}

/// A page-aligned 4 KiB unit of canonical virtual address space.
#[derive(Clone, Copy, PartialEq, Eq, Structural, Debug)]
pub struct Page {
    pub start: u64,
}

impl Page {
    pub open spec fn wf(self) -> bool {
        page_aligned(self.start) && canonical(self.start)
    }

    /// The page containing the given virtual address.
    pub fn containing_address(a: VirtAddr) -> (r: Page)
        requires
            a.wf(),
        ensures
            r.start == spec_page_base(a.addr),
            r.wf(),
    {
        proof {
            lemma_page_base(a.addr);
        }
        Page { start: a.addr & 0xffff_ffff_ffff_f000 }
    }

    pub fn start_address(self) -> (r: VirtAddr)
        requires
            self.wf(),
        ensures
            r.addr == self.start,
            r.wf(),
    {
        VirtAddr { addr: self.start }
    }
}

/// A page-aligned 4 KiB unit of physical memory, identified by its base.
#[derive(Clone, Copy, PartialEq, Eq, Structural, Debug)]
pub struct Frame {
    pub start: u64,
}

impl Frame {
    pub open spec fn wf(self) -> bool {
        page_aligned(self.start) && self.start < PHYS_LIMIT
    }

    /// The frame containing the given physical address.
    pub fn containing_address(a: PhysAddr) -> (r: Frame)
        requires
            a.wf(),
        ensures
            r.start == spec_page_base(a.addr),
            r.wf(),
    {
        proof {
            lemma_page_base(a.addr);
        }
        Frame { start: a.addr & 0xffff_ffff_ffff_f000 }
    }

    pub fn start_address(self) -> (r: PhysAddr)
        requires
            self.wf(),
        ensures
            r.addr == self.start,
            r.wf(),
    {
        PhysAddr { addr: self.start }
    }
}

/// A frame proven unused by the frame source: only such a frame may back a
/// brand-new mapping or a freshly allocated page table. The marker is a
/// distinct type so the proof obligation is visible at every construction
/// site; it is deliberately not `Copy`, so a consumed frame cannot be
/// presented twice.
#[derive(Debug)]
pub struct UnusedFrame {
    pub frame: Frame,
}

impl UnusedFrame {
    /// The explicitly-unchecked path: wrap a frame that is merely known,
    /// e.g. a hardware buffer whose contents the caller intends to alias.
    /// The caller takes over the proof that no live mapping will be clobbered.
    pub fn new_unchecked(frame: Frame) -> (r: UnusedFrame)
        ensures
            r.frame == frame,
    {
        UnusedFrame { frame }
    }

    pub fn frame(&self) -> (r: Frame)
        ensures
            r == self.frame,
    {
        self.frame
    }
}

} // verus!
