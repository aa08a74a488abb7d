//! One level of the page-table hierarchy: 512 raw 64-bit entries in the
//! hardware layout (present bit, writable bit, huge bit, frame base in the
//! upper bits), and the flag set carried by an entry.

use vstd::prelude::*;
use crate::addr::{page_aligned, PHYS_LIMIT, TABLE_LEN};

verus! {

pub const FLAG_PRESENT: u64 = 0x1;
pub const FLAG_WRITABLE: u64 = 0x2;
pub const FLAG_HUGE: u64 = 0x80;

/// Mask of the frame base address held in an entry (bits 12..=51).
pub const ENTRY_FRAME_MASK: u64 = 0x000f_ffff_ffff_f000;

pub open spec fn spec_present(e: u64) -> bool {
    e & FLAG_PRESENT != 0
}

pub open spec fn spec_writable(e: u64) -> bool {
    e & FLAG_WRITABLE != 0
}

pub open spec fn spec_huge(e: u64) -> bool {
    e & FLAG_HUGE != 0
}

/// Frame base address carried by a present entry.
pub open spec fn spec_entry_frame(e: u64) -> u64 {
    e & ENTRY_FRAME_MASK
}

/// Writing an aligned frame base together with low flag bits stores both
/// losslessly in one entry.
pub proof fn lemma_entry_encode(f: u64, b: u64)
    requires
        page_aligned(f),
        f < PHYS_LIMIT,
        b < 4096,
    ensures
        spec_entry_frame(f | b) == f,
        spec_present(f | b) == (b & FLAG_PRESENT != 0),
        spec_writable(f | b) == (b & FLAG_WRITABLE != 0),
        spec_huge(f | b) == (b & FLAG_HUGE != 0),
{
    assert(((f | b) & 0x000f_ffff_ffff_f000u64) == f
        && ((f | b) & 0x1u64) == (b & 0x1u64)
        && ((f | b) & 0x2u64) == (b & 0x2u64)
        && ((f | b) & 0x80u64) == (b & 0x80u64)) by (bit_vector)
        requires
            f % 4096 == 0 && f < 0x0010_0000_0000_0000u64 && b < 4096,
    ;
}

/// The frame base of any entry is page-aligned and within the physical space.
pub proof fn lemma_entry_frame_bounds(e: u64)
    ensures
        page_aligned(spec_entry_frame(e)),
        spec_entry_frame(e) < PHYS_LIMIT,
{
    assert((e & 0x000f_ffff_ffff_f000u64) % 4096 == 0
        && (e & 0x000f_ffff_ffff_f000u64) < 0x0010_0000_0000_0000u64) by (bit_vector);
}

/// Flags carried by a page-table entry, confined to the low 12 bits.
#[derive(Clone, Copy, PartialEq, Eq, Structural, Debug)]
pub struct PageTableFlags {
    pub bits: u64,
}

impl PageTableFlags {
    pub open spec fn wf(self) -> bool {
        self.bits < 4096
    }

    pub open spec fn is_present(self) -> bool {
        self.bits & FLAG_PRESENT != 0
    }

    pub open spec fn is_writable(self) -> bool {
        self.bits & FLAG_WRITABLE != 0
    }

    pub open spec fn is_huge(self) -> bool {
        self.bits & FLAG_HUGE != 0
    }

    pub fn new(bits: u64) -> (r: PageTableFlags)
        requires
            bits < 4096,
        ensures
            r.bits == bits,
            r.wf(),
    {
        PageTableFlags { bits }
    }

    /// The flag set installed on every intermediate table entry.
    pub fn present_writable() -> (r: PageTableFlags)
        ensures
            r.bits == FLAG_PRESENT | FLAG_WRITABLE,
            r.wf(),
            r.is_present() && r.is_writable() && !r.is_huge(),
    {
        proof {
            assert((0x1u64 | 0x2u64) == 3u64 && 3u64 & 0x1u64 != 0 && 3u64 & 0x2u64 != 0
                && 3u64 & 0x80u64 == 0) by (bit_vector);
        }
        PageTableFlags { bits: FLAG_PRESENT | FLAG_WRITABLE }
    }
}

/// One page table: exactly 512 raw entries. An entry is unused when its
/// bits are all zero.
#[derive(Debug)]
pub struct PageTable {
    entries: Vec<u64>,
}

impl View for PageTable {
    type V = Seq<u64>;

    closed spec fn view(&self) -> Seq<u64> {
        self.entries@
    }
}

impl PageTable {
    pub open spec fn wf(self) -> bool {
        self@.len() == 512
    }

    /// A table with every entry unused.
    pub fn empty() -> (r: PageTable)
        ensures
            r.wf(),
            forall|i: int| 0 <= i < 512 ==> r@[i] == 0u64,
    {
        let mut entries: Vec<u64> = Vec::new();
        let mut i: usize = 0;
        while i < TABLE_LEN
            invariant
                i <= 512,
                entries@.len() == i as int,
                forall|j: int| 0 <= j < i as int ==> entries@[j] == 0u64,
            decreases 512 - i,
        {
            entries.push(0);
            i = i + 1;
        }
        PageTable { entries }
    }

    pub fn entry(&self, i: usize) -> (r: u64)
        requires
            self.wf(),
            i < 512,
        ensures
            r == self@[i as int],
    {
        self.entries[i]
    }

    pub fn set_entry(&mut self, i: usize, e: u64)
        requires
            old(self).wf(),
            i < 512,
        ensures
            final(self).wf(),
            final(self)@ == old(self)@.update(i as int, e),
    {
        self.entries.set(i, e);
    }
}

} // verus!
