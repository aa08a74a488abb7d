//! Physical and virtual addresses, and the bit-level decomposition of a
//! virtual address into its four 9-bit table indices and 12-bit page offset.

use vstd::prelude::*;

verus! {

/// Size in bytes of one page (and of one physical frame).
pub const PAGE_SIZE: u64 = 4096;

/// Number of entries in one page table.
pub const TABLE_LEN: usize = 512;

/// Lowest virtual address above the low canonical half.
pub const LOW_HALF_END: u64 = 0x0000_8000_0000_0000;

/// Lowest virtual address of the high canonical half.
pub const HIGH_HALF_START: u64 = 0xffff_8000_0000_0000;

/// First physical address beyond the architecture's 52-bit physical space.
pub const PHYS_LIMIT: u64 = 0x0010_0000_0000_0000;

/// A virtual address is canonical when bits 48..=63 are copies of bit 47.
pub open spec fn canonical(a: u64) -> bool {
    a < LOW_HALF_END || a >= HIGH_HALF_START
}

pub open spec fn page_aligned(a: u64) -> bool {
    a % 4096 == 0
}

/// Byte offset of an address within its page (bits 0..=11).
pub open spec fn spec_page_offset(a: u64) -> u64 {
    a & 0xfff
}

/// Level-1 table index of a virtual address (bits 12..=20).
pub open spec fn spec_p1_index(a: u64) -> u64 {
    (a >> 12) & 0x1ff
}

/// Level-2 table index of a virtual address (bits 21..=29).
pub open spec fn spec_p2_index(a: u64) -> u64 {
    (a >> 21) & 0x1ff
}

/// Level-3 table index of a virtual address (bits 30..=38).
pub open spec fn spec_p3_index(a: u64) -> u64 {
    (a >> 30) & 0x1ff
}

/// Level-4 table index of a virtual address (bits 39..=47).
pub open spec fn spec_p4_index(a: u64) -> u64 {
    (a >> 39) & 0x1ff
}

/// Rebuild a virtual address from its four table indices and page offset,
/// sign-extending bit 47 into the upper 16 bits.
pub open spec fn spec_compose(i4: u64, i3: u64, i2: u64, i1: u64, off: u64) -> u64 {
    (if i4 >= 256 { 0xffff_0000_0000_0000u64 } else { 0u64 })
        | (i4 << 39) | (i3 << 30) | (i2 << 21) | (i1 << 12) | off
}

/// The indices and offset of any address are in range.
pub proof fn lemma_decomposition_bounds(a: u64)
    ensures
        spec_p4_index(a) < 512,
        spec_p3_index(a) < 512,
        spec_p2_index(a) < 512,
        spec_p1_index(a) < 512,
        spec_page_offset(a) < 4096,
{
    assert(((a >> 39) & 0x1ff) < 512 && ((a >> 30) & 0x1ff) < 512 && ((a >> 21) & 0x1ff) < 512
        && ((a >> 12) & 0x1ff) < 512 && (a & 0xfff) < 4096) by (bit_vector);
}

/// Decomposition round-trip: rebuilding a canonical address from its own
/// indices and offset reproduces it bit for bit.
pub proof fn lemma_compose_decompose(a: u64)
    requires
        canonical(a),
    ensures
        spec_compose(
            spec_p4_index(a),
            spec_p3_index(a),
            spec_p2_index(a),
            spec_p1_index(a),
            spec_page_offset(a),
        ) == a,
{
    assert((if ((a >> 39) & 0x1ff) >= 256 { 0xffff_0000_0000_0000u64 } else { 0u64 })
            | (((a >> 39) & 0x1ff) << 39)
            | (((a >> 30) & 0x1ff) << 30)
            | (((a >> 21) & 0x1ff) << 21)
            | (((a >> 12) & 0x1ff) << 12)
            | (a & 0xfff) == a) by (bit_vector)
        requires
            a < 0x0000_8000_0000_0000u64 || a >= 0xffff_8000_0000_0000u64,
    ;
}

/// Composition round-trip: an address built from in-range indices and offset
/// is canonical and decomposes back into exactly those parts.
pub proof fn lemma_decompose_compose(i4: u64, i3: u64, i2: u64, i1: u64, off: u64)
    requires
        i4 < 512,
        i3 < 512,
        i2 < 512,
        i1 < 512,
        off < 4096,
    ensures
        canonical(spec_compose(i4, i3, i2, i1, off)),
        spec_p4_index(spec_compose(i4, i3, i2, i1, off)) == i4,
        spec_p3_index(spec_compose(i4, i3, i2, i1, off)) == i3,
        spec_p2_index(spec_compose(i4, i3, i2, i1, off)) == i2,
        spec_p1_index(spec_compose(i4, i3, i2, i1, off)) == i1,
        spec_page_offset(spec_compose(i4, i3, i2, i1, off)) == off,
{
    let c = spec_compose(i4, i3, i2, i1, off);
    assert({
        let a = (if i4 >= 256 { 0xffff_0000_0000_0000u64 } else { 0u64 })
            | (i4 << 39) | (i3 << 30) | (i2 << 21) | (i1 << 12) | off;
        (a < 0x0000_8000_0000_0000u64 || a >= 0xffff_8000_0000_0000u64)
            && ((a >> 39) & 0x1ff) == i4
            && ((a >> 30) & 0x1ff) == i3
            && ((a >> 21) & 0x1ff) == i2
            && ((a >> 12) & 0x1ff) == i1
            && (a & 0xfff) == off
    }) by (bit_vector)
        requires
            i4 < 512 && i3 < 512 && i2 < 512 && i1 < 512 && off < 4096,
    ;
}

/// A page-aligned address has page offset zero.
pub proof fn lemma_aligned_offset(a: u64)
    requires
        page_aligned(a),
    ensures
        spec_page_offset(a) == 0,
{
    assert(a % 4096 == 0 ==> a & 0xfff == 0) by (bit_vector);
}

/// Two canonical addresses lie in the same page exactly when all four of
/// their table indices agree.
pub proof fn lemma_same_page_same_indices(x: u64, y: u64)
    requires
        canonical(x),
        canonical(y),
    ensures
        ((x & 0xffff_ffff_ffff_f000) == (y & 0xffff_ffff_ffff_f000)) <==> (spec_p4_index(x)
            == spec_p4_index(y) && spec_p3_index(x) == spec_p3_index(y) && spec_p2_index(x)
            == spec_p2_index(y) && spec_p1_index(x) == spec_p1_index(y)),
{
    assert(((x & 0xffff_ffff_ffff_f000) == (y & 0xffff_ffff_ffff_f000)) <==> (((x >> 39) & 0x1ff)
        == ((y >> 39) & 0x1ff) && ((x >> 30) & 0x1ff) == ((y >> 30) & 0x1ff) && ((x >> 21) & 0x1ff)
        == ((y >> 21) & 0x1ff) && ((x >> 12) & 0x1ff) == ((y >> 12) & 0x1ff))) by (bit_vector)
        requires
            x < 0x0000_8000_0000_0000u64 || x >= 0xffff_8000_0000_0000u64,
            y < 0x0000_8000_0000_0000u64 || y >= 0xffff_8000_0000_0000u64,
    ;
}

/// A 64-bit physical address, confined to the 52-bit physical address space.
#[derive(Clone, Copy, PartialEq, Eq, Structural, Debug)]
pub struct PhysAddr {
    pub addr: u64,
}

impl PhysAddr {
    pub open spec fn wf(self) -> bool {
        self.addr < PHYS_LIMIT
    }

    /// Construction fails on an address beyond the physical address space.
    pub fn new(addr: u64) -> (r: Option<PhysAddr>)
        ensures
            r is Some <==> addr < PHYS_LIMIT,
            r matches Some(p) ==> p.addr == addr && p.wf(),
    {
        if addr < PHYS_LIMIT {
            Some(PhysAddr { addr })
        } else {
            None
        }
    }

    pub fn value(self) -> (r: u64)
        ensures
            r == self.addr,
    {
        self.addr
    }
}

/// A 64-bit virtual address; only canonical ones can be constructed.
#[derive(Clone, Copy, PartialEq, Eq, Structural, Debug)]
pub struct VirtAddr {
    pub addr: u64,
}

impl VirtAddr {
    pub open spec fn wf(self) -> bool {
        canonical(self.addr)
    }

    /// Construction fails on a non-canonical address.
    pub fn new(addr: u64) -> (r: Option<VirtAddr>)
        ensures
            r is Some <==> canonical(addr),
            r matches Some(v) ==> v.addr == addr && v.wf(),
    {
        if addr < LOW_HALF_END || addr >= HIGH_HALF_START {
            Some(VirtAddr { addr })
        } else {
            None
        }
    }

    pub fn value(self) -> (r: u64)
        ensures
            r == self.addr,
    {
        self.addr
    }

    pub fn page_offset(self) -> (r: u64)
        ensures
            r == spec_page_offset(self.addr),
            r < 4096,
    {
        proof {
            lemma_decomposition_bounds(self.addr);
        }
        self.addr & 0xfff
    }

    pub fn p1_index(self) -> (r: u64)
        ensures
            r == spec_p1_index(self.addr),
            r < 512,
    {
        proof {
            lemma_decomposition_bounds(self.addr);
        }
        (self.addr >> 12) & 0x1ff
    }

    pub fn p2_index(self) -> (r: u64)
        ensures
            r == spec_p2_index(self.addr),
            r < 512,
    {
        proof {
            lemma_decomposition_bounds(self.addr);
        }
        (self.addr >> 21) & 0x1ff
    }

    pub fn p3_index(self) -> (r: u64)
        ensures
            r == spec_p3_index(self.addr),
            r < 512,
    {
        proof {
            lemma_decomposition_bounds(self.addr);
        }
        (self.addr >> 30) & 0x1ff
    }

    pub fn p4_index(self) -> (r: u64)
        ensures
            r == spec_p4_index(self.addr),
            r < 512,
    {
        proof {
            lemma_decomposition_bounds(self.addr);
        }
        (self.addr >> 39) & 0x1ff
    }
}

/// Split a virtual address into (level-4, level-3, level-2, level-1 index,
/// page offset), least significant bits last.
pub fn decompose(a: VirtAddr) -> (r: (u64, u64, u64, u64, u64))
    ensures
        r.0 == spec_p4_index(a.addr) && r.0 < 512,
        r.1 == spec_p3_index(a.addr) && r.1 < 512,
        r.2 == spec_p2_index(a.addr) && r.2 < 512,
        r.3 == spec_p1_index(a.addr) && r.3 < 512,
        r.4 == spec_page_offset(a.addr) && r.4 < 4096,
{
    (a.p4_index(), a.p3_index(), a.p2_index(), a.p1_index(), a.page_offset())
}

/// Rebuild the virtual address with the given table indices and page offset.
pub fn compose(i4: u64, i3: u64, i2: u64, i1: u64, off: u64) -> (r: VirtAddr)
    requires
        i4 < 512,
        i3 < 512,
        i2 < 512,
        i1 < 512,
        off < 4096,
    ensures
        r.addr == spec_compose(i4, i3, i2, i1, off),
        r.wf(),
{
    proof {
        lemma_decompose_compose(i4, i3, i2, i1, off);
    }
    let high: u64 = if i4 >= 256 { 0xffff_0000_0000_0000 } else { 0 };
    VirtAddr { addr: high | (i4 << 39) | (i3 << 30) | (i2 << 21) | (i1 << 12) | off }
}

} // verus!
