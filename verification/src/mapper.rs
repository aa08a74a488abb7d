//! The four-level page-table hierarchy and its two operations: translating a
//! virtual address (levels 4 down to 1) and installing a new mapping,
//! allocating intermediate tables on demand from the frame source.
//!
//! The hierarchy is modelled as owned data: the top-level table plus one
//! arena per lower level, each slot pairing a physical frame base with the
//! table living in that frame. Hardware walks physical memory through the
//! identity offset; here the same resolution is an arena lookup by frame
//! base, so every access is an exclusive borrow and nothing is aliased.

use vstd::prelude::*;
use crate::addr::{
    canonical, spec_p1_index, spec_p2_index, spec_p3_index, spec_p4_index, spec_page_offset,
    PhysAddr, VirtAddr, PHYS_LIMIT,
};
use crate::frame::{spec_page_base, Page, UnusedFrame};
use crate::frame_source::FrameAllocator;
use crate::table::{
    lemma_entry_encode, lemma_entry_frame_bounds, spec_entry_frame, spec_huge, spec_present,
    PageTable, PageTableFlags, FLAG_HUGE, FLAG_PRESENT, FLAG_WRITABLE,
};

verus! {

/// Outcome of resolving one virtual address against the hierarchy.
#[derive(Clone, Copy, PartialEq, Eq, Structural, Debug)]
pub enum WalkResult {
    /// The address is mapped to this physical address.
    Mapped(u64),
    /// Some entry on the path is unused: the address is not mapped.
    Unmapped,
    /// Some entry on the path has the huge flag set: an unsupported
    /// configuration, never interpreted as a next-level table.
    Huge,
}

/// Why a mapping could not be installed.
#[derive(Clone, Copy, PartialEq, Eq, Structural, Debug)]
pub enum MapError {
    /// The frame source ran out of frames for an intermediate table.
    FrameAllocationFailed,
    /// The leaf slot already holds a mapping; it is left undisturbed.
    AlreadyMapped,
    /// An entry on the path has the huge flag set.
    HugePageConflict,
}

/// Why a translation could not be completed.
#[derive(Clone, Copy, PartialEq, Eq, Structural, Debug)]
pub enum TranslateError {
    /// An entry on the path has the huge flag set.
    HugePageUnsupported,
}

/// One lower-level table, living in the physical frame whose base is
/// `frame`.
#[derive(Debug)]
pub struct TableSlot {
    pub frame: u64,
    pub table: PageTable,
}

/// Index of the first slot holding the given frame base, if any.
pub open spec fn find_slot(slots: Seq<TableSlot>, f: u64) -> Option<int>
    decreases slots.len(),
{
    if slots.len() == 0 {
        None
    } else if slots[0].frame == f {
        Some(0)
    } else {
        match find_slot(slots.drop_first(), f) {
            None => None,
            Some(i) => Some(i + 1),
        }
    }
}

/// What `find_slot` returns: the first match, or a guarantee of no match.
pub proof fn lemma_find_slot_spec(slots: Seq<TableSlot>, f: u64)
    ensures
        match find_slot(slots, f) {
            Some(i) => 0 <= i < slots.len() && slots[i].frame == f && forall|k: int|
                0 <= k < i ==> slots[k].frame != f,
            None => forall|k: int| 0 <= k < slots.len() ==> slots[k].frame != f,
        },
    decreases slots.len(),
{
    if slots.len() > 0 && slots[0].frame != f {
        lemma_find_slot_spec(slots.drop_first(), f);
        assert(forall|k: int|
            1 <= k < slots.len() ==> slots[k] == #[trigger] slots.drop_first()[k - 1]);
        match find_slot(slots.drop_first(), f) {
            Some(i) => {
                assert(find_slot(slots, f) == Some(i + 1));
                assert(slots[i + 1] == slots.drop_first()[i]);
                assert forall|k: int| 0 <= k < i + 1 implies slots[k].frame != f by {
                    if k >= 1 {
                        assert(slots[k] == slots.drop_first()[k - 1]);
                    }
                }
            },
            None => {
                assert forall|k: int| 0 <= k < slots.len() implies slots[k].frame != f by {
                    if k >= 1 {
                        assert(slots[k] == slots.drop_first()[k - 1]);
                    }
                }
            },
        }
    }
}

/// Appending a slot leaves earlier lookups unchanged and resolves only the
/// new frame to the new position.
pub proof fn lemma_find_slot_push(slots: Seq<TableSlot>, s: TableSlot, f: u64)
    ensures
        find_slot(slots.push(s), f) == (if find_slot(slots, f) is Some {
            find_slot(slots, f)
        } else if s.frame == f {
            Some(slots.len() as int)
        } else {
            None::<int>
        }),
    decreases slots.len(),
{
    if slots.len() == 0 {
        assert(slots.push(s)[0] == s);
        assert(slots.push(s).drop_first() =~= Seq::<TableSlot>::empty());
        assert(find_slot(Seq::<TableSlot>::empty(), f) is None);
        if s.frame == f {
            assert(find_slot(slots.push(s), f) == Some(0int));
        } else {
            assert(find_slot(slots.push(s), f) is None);
        }
    } else {
        assert(slots.push(s)[0] == slots[0]);
        assert(slots.push(s).drop_first() =~= slots.drop_first().push(s));
        lemma_find_slot_push(slots.drop_first(), s, f);
        if slots[0].frame == f {
            assert(find_slot(slots.push(s), f) == Some(0int));
            assert(find_slot(slots, f) == Some(0int));
        } else {
            assert(find_slot(slots.push(s), f) == (match find_slot(
                slots.drop_first().push(s),
                f,
            ) {
                None => None::<int>,
                Some(i) => Some(i + 1),
            }));
        }
    }
}

/// Lookup depends only on the frames, not on the tables in the slots.
pub proof fn lemma_find_slot_frames_eq(s1: Seq<TableSlot>, s2: Seq<TableSlot>, f: u64)
    requires
        s1.len() == s2.len(),
        forall|i: int| 0 <= i < s1.len() ==> s1[i].frame == s2[i].frame,
    ensures
        find_slot(s1, f) == find_slot(s2, f),
    decreases s1.len(),
{
    if s1.len() > 0 {
        assert(forall|i: int|
            0 <= i < s1.drop_first().len() ==> (#[trigger] s1.drop_first()[i]).frame == s1[i
                + 1].frame);
        assert(forall|i: int|
            0 <= i < s2.drop_first().len() ==> (#[trigger] s2.drop_first()[i]).frame == s2[i
                + 1].frame);
        lemma_find_slot_frames_eq(s1.drop_first(), s2.drop_first(), f);
    }
}

/// The set of frame bases occupied by an arena's tables.
pub open spec fn slot_frames(slots: Seq<TableSlot>) -> Set<u64> {
    Set::new(|f: u64| find_slot(slots, f) is Some)
}

/// Arena slots are well formed: 512-entry tables, no two slots in one frame.
pub open spec fn slots_wf(slots: Seq<TableSlot>) -> bool {
    &&& forall|i: int| 0 <= i < slots.len() ==> (#[trigger] slots[i]).table.wf()
    &&& forall|i: int, j: int| 0 <= i < j < slots.len() ==> slots[i].frame != slots[j].frame
}

/// The mapper: the active top-level table and the owned lower levels of the
/// hierarchy. In hardware the top-level frame comes from the page-table-base
/// register and the lower tables are reached through the physical-memory
/// identity offset; both are inputs converted at the boundary.
#[derive(Debug)]
pub struct Mapper {
    pub l4: PageTable,
    pub l3: Vec<TableSlot>,
    pub l2: Vec<TableSlot>,
    pub l1: Vec<TableSlot>,
}

/// Every present, non-huge entry of the top-level table resolves to a
/// level-3 table, and no two such entries share a child.
pub open spec fn l4_links_ok(m: Mapper) -> bool {
    &&& forall|i: int|
        0 <= i < 512 && spec_present(#[trigger] m.l4@[i]) && !spec_huge(m.l4@[i])
            ==> find_slot(m.l3@, spec_entry_frame(m.l4@[i])) is Some
    &&& forall|i: int, j: int|
        0 <= i < 512 && 0 <= j < 512 && i != j && spec_present(#[trigger] m.l4@[i])
            && !spec_huge(m.l4@[i]) && spec_present(#[trigger] m.l4@[j]) && !spec_huge(m.l4@[j])
            ==> spec_entry_frame(m.l4@[i]) != spec_entry_frame(m.l4@[j])
}

/// Every present, non-huge entry in a parent arena resolves to a table of
/// the child arena, and no two such entries share a child.
pub open spec fn mid_links_ok(parents: Seq<TableSlot>, children: Seq<TableSlot>) -> bool {
    &&& forall|s: int, i: int|
        0 <= s < parents.len() && 0 <= i < 512 && spec_present(
            #[trigger] parents[s].table@[i],
        ) && !spec_huge(parents[s].table@[i]) ==> find_slot(
            children,
            spec_entry_frame(parents[s].table@[i]),
        ) is Some
    &&& forall|s1: int, i1: int, s2: int, i2: int|
        0 <= s1 < parents.len() && 0 <= i1 < 512 && 0 <= s2 < parents.len() && 0 <= i2 < 512 && !(
        s1 == s2 && i1 == i2) && spec_present(#[trigger] parents[s1].table@[i1]) && !spec_huge(
            parents[s1].table@[i1],
        ) && spec_present(#[trigger] parents[s2].table@[i2]) && !spec_huge(parents[s2].table@[i2])
            ==> spec_entry_frame(parents[s1].table@[i1]) != spec_entry_frame(
            parents[s2].table@[i2],
        )
}

impl Mapper {
    /// The structural invariant of the whole hierarchy.
    pub open spec fn wf(self) -> bool {
        &&& self.l4.wf()
        &&& slots_wf(self.l3@)
        &&& slots_wf(self.l2@)
        &&& slots_wf(self.l1@)
        &&& l4_links_ok(self)
        &&& mid_links_ok(self.l3@, self.l2@)
        &&& mid_links_ok(self.l2@, self.l1@)
    }

    /// All frame bases occupied by tables of the hierarchy's lower levels.
    pub open spec fn table_frames(self) -> Set<u64> {
        slot_frames(self.l3@).union(slot_frames(self.l2@)).union(slot_frames(self.l1@))
    }
}

/// Resolve a virtual address against the hierarchy, levels 4 down to 1:
/// an unused entry (or a frame with no table) means unmapped; a huge entry
/// stops the walk as unsupported; otherwise the leaf frame base plus the
/// page offset is the physical address.
pub open spec fn spec_walk(m: Mapper, a: u64) -> WalkResult {
    let e4 = m.l4@[spec_p4_index(a) as int];
    if !spec_present(e4) {
        WalkResult::Unmapped
    } else if spec_huge(e4) {
        WalkResult::Huge
    } else {
        match find_slot(m.l3@, spec_entry_frame(e4)) {
            None => WalkResult::Unmapped,
            Some(j3) => {
                let e3 = m.l3@[j3].table@[spec_p3_index(a) as int];
                if !spec_present(e3) {
                    WalkResult::Unmapped
                } else if spec_huge(e3) {
                    WalkResult::Huge
                } else {
                    match find_slot(m.l2@, spec_entry_frame(e3)) {
                        None => WalkResult::Unmapped,
                        Some(j2) => {
                            let e2 = m.l2@[j2].table@[spec_p2_index(a) as int];
                            if !spec_present(e2) {
                                WalkResult::Unmapped
                            } else if spec_huge(e2) {
                                WalkResult::Huge
                            } else {
                                match find_slot(m.l1@, spec_entry_frame(e2)) {
                                    None => WalkResult::Unmapped,
                                    Some(j1) => {
                                        let e1 = m.l1@[j1].table@[spec_p1_index(a) as int];
                                        if !spec_present(e1) {
                                            WalkResult::Unmapped
                                        } else {
                                            WalkResult::Mapped(
                                                (spec_entry_frame(e1) + spec_page_offset(a)) as u64,
                                            )
                                        }
                                    },
                                }
                            }
                        },
                    }
                }
            },
        }
    }
}

/// How many intermediate tables a mapping of this address still needs: one
/// for each level, 3 down to 1, whose table does not exist yet. Zero when
/// the path is blocked by a huge entry or fully present.
pub open spec fn tables_needed(m: Mapper, a: u64) -> nat {
    let e4 = m.l4@[spec_p4_index(a) as int];
    if !spec_present(e4) {
        3
    } else if spec_huge(e4) {
        0
    } else {
        match find_slot(m.l3@, spec_entry_frame(e4)) {
            None => 3,
            Some(j3) => {
                let e3 = m.l3@[j3].table@[spec_p3_index(a) as int];
                if !spec_present(e3) {
                    2
                } else if spec_huge(e3) {
                    0
                } else {
                    match find_slot(m.l2@, spec_entry_frame(e3)) {
                        None => 2,
                        Some(j2) => {
                            let e2 = m.l2@[j2].table@[spec_p2_index(a) as int];
                            if !spec_present(e2) {
                                1
                            } else if spec_huge(e2) {
                                0
                            } else {
                                match find_slot(m.l1@, spec_entry_frame(e2)) {
                                    None => 1,
                                    Some(j1) => 0,
                                }
                            }
                        },
                    }
                }
            },
        }
    }
}

/// Installing a fresh, zeroed level-3 table under an unused top-level entry
/// changes no translation: every path through the new entry ends in an
/// unused slot of the zeroed table.
proof fn lemma_extend_l4(m: Mapper, m2: Mapper, i4: int, e: u64, t0: PageTable)
    requires
        m.wf(),
        0 <= i4 < 512,
        !spec_present(m.l4@[i4]),
        spec_present(e),
        !spec_huge(e),
        !m.table_frames().contains(spec_entry_frame(e)),
        t0.wf(),
        forall|k: int| 0 <= k < 512 ==> t0@[k] == 0u64,
        m2.l4@ == m.l4@.update(i4, e),
        m2.l3@ == m.l3@.push(TableSlot { frame: spec_entry_frame(e), table: t0 }),
        m2.l2@ == m.l2@,
        m2.l1@ == m.l1@,
    ensures
        m2.wf(),
        forall|a: u64| spec_walk(m2, a) == spec_walk(m, a),
        spec_present(m2.l4@[i4]) && !spec_huge(m2.l4@[i4]),
        find_slot(m2.l3@, spec_entry_frame(m2.l4@[i4])) == Some(m.l3@.len() as int),
        m2.l3@[m.l3@.len() as int].table == t0,
        m2.table_frames() == m.table_frames().insert(spec_entry_frame(e)),
{
    let fnew = spec_entry_frame(e);
    let newslot = TableSlot { frame: fnew, table: t0 };
    assert(0u64 & 0x1u64 == 0u64) by (bit_vector);
    // fnew occupies no slot of any arena.
    assert(find_slot(m.l3@, fnew) is None && find_slot(m.l2@, fnew) is None && find_slot(
        m.l1@,
        fnew,
    ) is None);
    lemma_find_slot_spec(m.l3@, fnew);
    assert forall|f: u64| true implies find_slot(m2.l3@, f) == (if find_slot(m.l3@, f) is Some {
        find_slot(m.l3@, f)
    } else if f == fnew {
        Some(m.l3@.len() as int)
    } else {
        None::<int>
    }) by {
        lemma_find_slot_push(m.l3@, newslot, f);
    }
    assert(find_slot(m2.l3@, fnew) == Some(m.l3@.len() as int));
    // Slot well-formedness of the extended arena.
    assert forall|i: int, j: int| 0 <= i < j < m2.l3@.len() implies m2.l3@[i].frame
        != m2.l3@[j].frame by {
        if j == m.l3@.len() as int {
            assert(m2.l3@[i] == m.l3@[i]);
        }
    }
    // Links from the updated top-level table.
    assert forall|i: int|
        0 <= i < 512 && spec_present(#[trigger] m2.l4@[i]) && !spec_huge(m2.l4@[i]) implies
        find_slot(m2.l3@, spec_entry_frame(m2.l4@[i])) is Some by {
        if i != i4 {
            assert(m2.l4@[i] == m.l4@[i]);
        }
    }
    assert forall|i: int, j: int|
        0 <= i < 512 && 0 <= j < 512 && i != j && spec_present(#[trigger] m2.l4@[i]) && !spec_huge(
            m2.l4@[i],
        ) && spec_present(#[trigger] m2.l4@[j]) && !spec_huge(m2.l4@[j]) implies spec_entry_frame(
        m2.l4@[i],
    ) != spec_entry_frame(m2.l4@[j]) by {
        if i != i4 && j != i4 {
            assert(m2.l4@[i] == m.l4@[i] && m2.l4@[j] == m.l4@[j]);
        } else if i == i4 {
            assert(m2.l4@[j] == m.l4@[j]);
            assert(find_slot(m.l3@, spec_entry_frame(m.l4@[j])) is Some);
            lemma_find_slot_spec(m.l3@, spec_entry_frame(m.l4@[j]));
        } else {
            assert(m2.l4@[i] == m.l4@[i]);
            assert(find_slot(m.l3@, spec_entry_frame(m.l4@[i])) is Some);
            lemma_find_slot_spec(m.l3@, spec_entry_frame(m.l4@[i]));
        }
    }
    // Links from the extended level-3 arena: the new table has no present
    // entries at all.
    assert forall|s: int, i: int|
        0 <= s < m2.l3@.len() && 0 <= i < 512 && spec_present(#[trigger] m2.l3@[s].table@[i])
            && !spec_huge(m2.l3@[s].table@[i]) implies find_slot(
        m2.l2@,
        spec_entry_frame(m2.l3@[s].table@[i]),
    ) is Some by {
        if s == m.l3@.len() as int {
            assert(m2.l3@[s].table@[i] == 0u64);
            assert(false);
        } else {
            assert(m2.l3@[s] == m.l3@[s]);
        }
    }
    assert forall|s1: int, i1: int, s2: int, i2: int|
        0 <= s1 < m2.l3@.len() && 0 <= i1 < 512 && 0 <= s2 < m2.l3@.len() && 0 <= i2 < 512 && !(s1
            == s2 && i1 == i2) && spec_present(#[trigger] m2.l3@[s1].table@[i1]) && !spec_huge(
            m2.l3@[s1].table@[i1],
        ) && spec_present(#[trigger] m2.l3@[s2].table@[i2]) && !spec_huge(
            m2.l3@[s2].table@[i2],
        ) implies spec_entry_frame(m2.l3@[s1].table@[i1]) != spec_entry_frame(
        m2.l3@[s2].table@[i2],
    ) by {
        if s1 == m.l3@.len() as int {
            assert(m2.l3@[s1].table@[i1] == 0u64);
            assert(false);
        } else if s2 == m.l3@.len() as int {
            assert(m2.l3@[s2].table@[i2] == 0u64);
            assert(false);
        } else {
            assert(m2.l3@[s1] == m.l3@[s1] && m2.l3@[s2] == m.l3@[s2]);
        }
    }
    assert(m2.wf());
    // No translation changes.
    assert forall|a: u64| spec_walk(m2, a) == spec_walk(m, a) by {
        crate::addr::lemma_decomposition_bounds(a);
        let p4 = spec_p4_index(a) as int;
        if p4 == i4 {
            // Old: entry unused.  New: path descends into the zeroed table.
            assert(spec_walk(m, a) == WalkResult::Unmapped);
            assert(m2.l4@[p4] == e);
            assert(m2.l3@[m.l3@.len() as int].table@[spec_p3_index(a) as int] == 0u64);
            assert(spec_walk(m2, a) == WalkResult::Unmapped);
        } else {
            assert(m2.l4@[p4] == m.l4@[p4]);
            let e4 = m.l4@[p4];
            if spec_present(e4) && !spec_huge(e4) {
                assert(find_slot(m.l3@, spec_entry_frame(e4)) is Some);
                let j = find_slot(m.l3@, spec_entry_frame(e4))->Some_0;
                lemma_find_slot_spec(m.l3@, spec_entry_frame(e4));
                assert(find_slot(m2.l3@, spec_entry_frame(e4)) == Some(j));
                assert(m2.l3@[j] == m.l3@[j]);
            }
        }
    }
    // The occupied frames grew by exactly the new one.
    assert(slot_frames(m2.l3@) =~= slot_frames(m.l3@).insert(fnew));
    assert(m2.table_frames() =~= m.table_frames().insert(fnew));
}

/// Installing a fresh, zeroed level-2 table under an unused entry of a
/// level-3 table changes no translation.
proof fn lemma_extend_l3(m: Mapper, m2: Mapper, j3: int, i3: int, e: u64, t0: PageTable)
    requires
        m.wf(),
        0 <= j3 < m.l3@.len(),
        0 <= i3 < 512,
        !spec_present(m.l3@[j3].table@[i3]),
        spec_present(e),
        !spec_huge(e),
        !m.table_frames().contains(spec_entry_frame(e)),
        t0.wf(),
        forall|k: int| 0 <= k < 512 ==> t0@[k] == 0u64,
        m2.l4@ == m.l4@,
        m2.l3@.len() == m.l3@.len(),
        m2.l3@[j3].frame == m.l3@[j3].frame,
        m2.l3@[j3].table@ == m.l3@[j3].table@.update(i3, e),
        forall|k: int| 0 <= k < m.l3@.len() && k != j3 ==> m2.l3@[k] == m.l3@[k],
        m2.l2@ == m.l2@.push(TableSlot { frame: spec_entry_frame(e), table: t0 }),
        m2.l1@ == m.l1@,
    ensures
        m2.wf(),
        forall|a: u64| spec_walk(m2, a) == spec_walk(m, a),
        forall|f: u64| find_slot(m2.l3@, f) == find_slot(m.l3@, f),
        m2.l3@[j3].table@[i3] == e,
        find_slot(m2.l2@, spec_entry_frame(e)) == Some(m.l2@.len() as int),
        m2.l2@[m.l2@.len() as int].table == t0,
        m2.table_frames() == m.table_frames().insert(spec_entry_frame(e)),
{
    let fnew = spec_entry_frame(e);
    let newslot = TableSlot { frame: fnew, table: t0 };
    assert(0u64 & 0x1u64 == 0u64) by (bit_vector);
    assert(find_slot(m.l3@, fnew) is None && find_slot(m.l2@, fnew) is None && find_slot(
        m.l1@,
        fnew,
    ) is None);
    lemma_find_slot_spec(m.l2@, fnew);
    assert forall|f: u64| true implies find_slot(m2.l3@, f) == find_slot(m.l3@, f) by {
        lemma_find_slot_frames_eq(m2.l3@, m.l3@, f);
    }
    assert forall|f: u64| true implies find_slot(m2.l2@, f) == (if find_slot(m.l2@, f) is Some {
        find_slot(m.l2@, f)
    } else if f == fnew {
        Some(m.l2@.len() as int)
    } else {
        None::<int>
    }) by {
        lemma_find_slot_push(m.l2@, newslot, f);
    }
    assert(find_slot(m2.l2@, fnew) == Some(m.l2@.len() as int));
    // Slot well-formedness of both touched arenas.
    assert forall|i: int, j: int| 0 <= i < j < m2.l2@.len() implies m2.l2@[i].frame
        != m2.l2@[j].frame by {
        if j == m.l2@.len() as int {
            assert(m2.l2@[i] == m.l2@[i]);
        }
    }
    assert(forall|i: int|
        0 <= i < m2.l3@.len() ==> (#[trigger] m2.l3@[i]).frame == m.l3@[i].frame);
    assert(m2.l3@[j3].table.wf());
    assert(forall|i: int| 0 <= i < m2.l3@.len() ==> (#[trigger] m2.l3@[i]).table.wf());
    // Links from the top-level table: level-3 lookups are unchanged.
    assert(l4_links_ok(m2));
    // Links from the updated level-3 arena into the extended level-2 arena.
    assert forall|s: int, i: int|
        0 <= s < m2.l3@.len() && 0 <= i < 512 && spec_present(#[trigger] m2.l3@[s].table@[i])
            && !spec_huge(m2.l3@[s].table@[i]) implies find_slot(
        m2.l2@,
        spec_entry_frame(m2.l3@[s].table@[i]),
    ) is Some by {
        if s == j3 && i == i3 {
            assert(m2.l3@[s].table@[i] == e);
        } else {
            if s == j3 {
                assert(m2.l3@[s].table@[i] == m.l3@[s].table@[i]);
            } else {
                assert(m2.l3@[s] == m.l3@[s]);
            }
            assert(find_slot(m.l2@, spec_entry_frame(m.l3@[s].table@[i])) is Some);
        }
    }
    assert forall|s1: int, i1: int, s2: int, i2: int|
        0 <= s1 < m2.l3@.len() && 0 <= i1 < 512 && 0 <= s2 < m2.l3@.len() && 0 <= i2 < 512 && !(s1
            == s2 && i1 == i2) && spec_present(#[trigger] m2.l3@[s1].table@[i1]) && !spec_huge(
            m2.l3@[s1].table@[i1],
        ) && spec_present(#[trigger] m2.l3@[s2].table@[i2]) && !spec_huge(
            m2.l3@[s2].table@[i2],
        ) implies spec_entry_frame(m2.l3@[s1].table@[i1]) != spec_entry_frame(
        m2.l3@[s2].table@[i2],
    ) by {
        if s1 == j3 && i1 == i3 {
            if s2 == j3 {
                assert(m2.l3@[s2].table@[i2] == m.l3@[s2].table@[i2]);
            } else {
                assert(m2.l3@[s2] == m.l3@[s2]);
            }
            assert(find_slot(m.l2@, spec_entry_frame(m.l3@[s2].table@[i2])) is Some);
            lemma_find_slot_spec(m.l2@, spec_entry_frame(m.l3@[s2].table@[i2]));
        } else if s2 == j3 && i2 == i3 {
            if s1 == j3 {
                assert(m2.l3@[s1].table@[i1] == m.l3@[s1].table@[i1]);
            } else {
                assert(m2.l3@[s1] == m.l3@[s1]);
            }
            assert(find_slot(m.l2@, spec_entry_frame(m.l3@[s1].table@[i1])) is Some);
            lemma_find_slot_spec(m.l2@, spec_entry_frame(m.l3@[s1].table@[i1]));
        } else {
            if s1 == j3 {
                assert(m2.l3@[s1].table@[i1] == m.l3@[s1].table@[i1]);
            } else {
                assert(m2.l3@[s1] == m.l3@[s1]);
            }
            if s2 == j3 {
                assert(m2.l3@[s2].table@[i2] == m.l3@[s2].table@[i2]);
            } else {
                assert(m2.l3@[s2] == m.l3@[s2]);
            }
        }
    }
    // Links from the extended level-2 arena: the new table has no present
    // entries at all.
    assert forall|s: int, i: int|
        0 <= s < m2.l2@.len() && 0 <= i < 512 && spec_present(#[trigger] m2.l2@[s].table@[i])
            && !spec_huge(m2.l2@[s].table@[i]) implies find_slot(
        m2.l1@,
        spec_entry_frame(m2.l2@[s].table@[i]),
    ) is Some by {
        if s == m.l2@.len() as int {
            assert(m2.l2@[s].table@[i] == 0u64);
            assert(false);
        } else {
            assert(m2.l2@[s] == m.l2@[s]);
        }
    }
    assert forall|s1: int, i1: int, s2: int, i2: int|
        0 <= s1 < m2.l2@.len() && 0 <= i1 < 512 && 0 <= s2 < m2.l2@.len() && 0 <= i2 < 512 && !(s1
            == s2 && i1 == i2) && spec_present(#[trigger] m2.l2@[s1].table@[i1]) && !spec_huge(
            m2.l2@[s1].table@[i1],
        ) && spec_present(#[trigger] m2.l2@[s2].table@[i2]) && !spec_huge(
            m2.l2@[s2].table@[i2],
        ) implies spec_entry_frame(m2.l2@[s1].table@[i1]) != spec_entry_frame(
        m2.l2@[s2].table@[i2],
    ) by {
        if s1 == m.l2@.len() as int {
            assert(m2.l2@[s1].table@[i1] == 0u64);
            assert(false);
        } else if s2 == m.l2@.len() as int {
            assert(m2.l2@[s2].table@[i2] == 0u64);
            assert(false);
        } else {
            assert(m2.l2@[s1] == m.l2@[s1] && m2.l2@[s2] == m.l2@[s2]);
        }
    }
    assert(m2.wf());
    // No translation changes.
    assert forall|a: u64| spec_walk(m2, a) == spec_walk(m, a) by {
        crate::addr::lemma_decomposition_bounds(a);
        let p4 = spec_p4_index(a) as int;
        let e4 = m.l4@[p4];
        if spec_present(e4) && !spec_huge(e4) {
            assert(find_slot(m.l3@, spec_entry_frame(e4)) is Some);
            let j = find_slot(m.l3@, spec_entry_frame(e4))->Some_0;
            lemma_find_slot_spec(m.l3@, spec_entry_frame(e4));
            if j == j3 && spec_p3_index(a) as int == i3 {
                // Old: unused entry.  New: path ends in the zeroed table.
                assert(spec_walk(m, a) == WalkResult::Unmapped);
                assert(m2.l3@[j].table@[i3] == e);
                assert(m2.l2@[m.l2@.len() as int].table@[spec_p2_index(a) as int] == 0u64);
                assert(spec_walk(m2, a) == WalkResult::Unmapped);
            } else {
                let e3 = m.l3@[j].table@[spec_p3_index(a) as int];
                if j == j3 {
                    assert(m2.l3@[j].table@[spec_p3_index(a) as int] == e3);
                } else {
                    assert(m2.l3@[j] == m.l3@[j]);
                }
                if spec_present(e3) && !spec_huge(e3) {
                    assert(find_slot(m.l2@, spec_entry_frame(e3)) is Some);
                    let j2 = find_slot(m.l2@, spec_entry_frame(e3))->Some_0;
                    lemma_find_slot_spec(m.l2@, spec_entry_frame(e3));
                    assert(find_slot(m2.l2@, spec_entry_frame(e3)) == Some(j2));
                    assert(m2.l2@[j2] == m.l2@[j2]);
                }
            }
        }
    }
    assert(slot_frames(m2.l3@) =~= slot_frames(m.l3@));
    assert(slot_frames(m2.l2@) =~= slot_frames(m.l2@).insert(fnew));
    assert(m2.table_frames() =~= m.table_frames().insert(fnew));
}

/// Installing a fresh, zeroed level-1 table under an unused entry of a
/// level-2 table changes no translation.
proof fn lemma_extend_l2(m: Mapper, m2: Mapper, j2: int, i2: int, e: u64, t0: PageTable)
    requires
        m.wf(),
        0 <= j2 < m.l2@.len(),
        0 <= i2 < 512,
        !spec_present(m.l2@[j2].table@[i2]),
        spec_present(e),
        !spec_huge(e),
        !m.table_frames().contains(spec_entry_frame(e)),
        t0.wf(),
        forall|k: int| 0 <= k < 512 ==> t0@[k] == 0u64,
        m2.l4@ == m.l4@,
        m2.l3@ == m.l3@,
        m2.l2@.len() == m.l2@.len(),
        m2.l2@[j2].frame == m.l2@[j2].frame,
        m2.l2@[j2].table@ == m.l2@[j2].table@.update(i2, e),
        forall|k: int| 0 <= k < m.l2@.len() && k != j2 ==> m2.l2@[k] == m.l2@[k],
        m2.l1@ == m.l1@.push(TableSlot { frame: spec_entry_frame(e), table: t0 }),
    ensures
        m2.wf(),
        forall|a: u64| spec_walk(m2, a) == spec_walk(m, a),
        forall|f: u64| find_slot(m2.l2@, f) == find_slot(m.l2@, f),
        m2.l2@[j2].table@[i2] == e,
        find_slot(m2.l1@, spec_entry_frame(e)) == Some(m.l1@.len() as int),
        m2.l1@[m.l1@.len() as int].table == t0,
        m2.table_frames() == m.table_frames().insert(spec_entry_frame(e)),
{
    let fnew = spec_entry_frame(e);
    let newslot = TableSlot { frame: fnew, table: t0 };
    assert(0u64 & 0x1u64 == 0u64) by (bit_vector);
    assert(find_slot(m.l3@, fnew) is None && find_slot(m.l2@, fnew) is None && find_slot(
        m.l1@,
        fnew,
    ) is None);
    lemma_find_slot_spec(m.l1@, fnew);
    assert forall|f: u64| true implies find_slot(m2.l2@, f) == find_slot(m.l2@, f) by {
        lemma_find_slot_frames_eq(m2.l2@, m.l2@, f);
    }
    assert forall|f: u64| true implies find_slot(m2.l1@, f) == (if find_slot(m.l1@, f) is Some {
        find_slot(m.l1@, f)
    } else if f == fnew {
        Some(m.l1@.len() as int)
    } else {
        None::<int>
    }) by {
        lemma_find_slot_push(m.l1@, newslot, f);
    }
    assert(find_slot(m2.l1@, fnew) == Some(m.l1@.len() as int));
    assert forall|i: int, j: int| 0 <= i < j < m2.l1@.len() implies m2.l1@[i].frame
        != m2.l1@[j].frame by {
        if j == m.l1@.len() as int {
            assert(m2.l1@[i] == m.l1@[i]);
        }
    }
    assert(forall|i: int|
        0 <= i < m2.l2@.len() ==> (#[trigger] m2.l2@[i]).frame == m.l2@[i].frame);
    assert(m2.l2@[j2].table.wf());
    assert(forall|i: int| 0 <= i < m2.l2@.len() ==> (#[trigger] m2.l2@[i]).table.wf());
    assert(forall|i: int| 0 <= i < m2.l1@.len() ==> (#[trigger] m2.l1@[i]).table.wf());
    assert(l4_links_ok(m2));
    // Links from the level-3 arena: level-2 lookups are unchanged.
    assert forall|s: int, i: int|
        0 <= s < m2.l3@.len() && 0 <= i < 512 && spec_present(#[trigger] m2.l3@[s].table@[i])
            && !spec_huge(m2.l3@[s].table@[i]) implies find_slot(
        m2.l2@,
        spec_entry_frame(m2.l3@[s].table@[i]),
    ) is Some by {
        assert(find_slot(m.l2@, spec_entry_frame(m.l3@[s].table@[i])) is Some);
    }
    assert(mid_links_ok(m2.l3@, m2.l2@));
    // Links from the updated level-2 arena into the extended level-1 arena.
    assert forall|s: int, i: int|
        0 <= s < m2.l2@.len() && 0 <= i < 512 && spec_present(#[trigger] m2.l2@[s].table@[i])
            && !spec_huge(m2.l2@[s].table@[i]) implies find_slot(
        m2.l1@,
        spec_entry_frame(m2.l2@[s].table@[i]),
    ) is Some by {
        if s == j2 && i == i2 {
            assert(m2.l2@[s].table@[i] == e);
        } else {
            if s == j2 {
                assert(m2.l2@[s].table@[i] == m.l2@[s].table@[i]);
            } else {
                assert(m2.l2@[s] == m.l2@[s]);
            }
            assert(find_slot(m.l1@, spec_entry_frame(m.l2@[s].table@[i])) is Some);
        }
    }
    assert forall|s1: int, i1: int, s2: int, i2x: int|
        0 <= s1 < m2.l2@.len() && 0 <= i1 < 512 && 0 <= s2 < m2.l2@.len() && 0 <= i2x < 512 && !(
        s1 == s2 && i1 == i2x) && spec_present(#[trigger] m2.l2@[s1].table@[i1]) && !spec_huge(
            m2.l2@[s1].table@[i1],
        ) && spec_present(#[trigger] m2.l2@[s2].table@[i2x]) && !spec_huge(
            m2.l2@[s2].table@[i2x],
        ) implies spec_entry_frame(m2.l2@[s1].table@[i1]) != spec_entry_frame(
        m2.l2@[s2].table@[i2x],
    ) by {
        if s1 == j2 && i1 == i2 {
            if s2 == j2 {
                assert(m2.l2@[s2].table@[i2x] == m.l2@[s2].table@[i2x]);
            } else {
                assert(m2.l2@[s2] == m.l2@[s2]);
            }
            assert(find_slot(m.l1@, spec_entry_frame(m.l2@[s2].table@[i2x])) is Some);
            lemma_find_slot_spec(m.l1@, spec_entry_frame(m.l2@[s2].table@[i2x]));
        } else if s2 == j2 && i2x == i2 {
            if s1 == j2 {
                assert(m2.l2@[s1].table@[i1] == m.l2@[s1].table@[i1]);
            } else {
                assert(m2.l2@[s1] == m.l2@[s1]);
            }
            assert(find_slot(m.l1@, spec_entry_frame(m.l2@[s1].table@[i1])) is Some);
            lemma_find_slot_spec(m.l1@, spec_entry_frame(m.l2@[s1].table@[i1]));
        } else {
            if s1 == j2 {
                assert(m2.l2@[s1].table@[i1] == m.l2@[s1].table@[i1]);
            } else {
                assert(m2.l2@[s1] == m.l2@[s1]);
            }
            if s2 == j2 {
                assert(m2.l2@[s2].table@[i2x] == m.l2@[s2].table@[i2x]);
            } else {
                assert(m2.l2@[s2] == m.l2@[s2]);
            }
        }
    }
    assert(m2.wf());
    // No translation changes.
    assert forall|a: u64| spec_walk(m2, a) == spec_walk(m, a) by {
        crate::addr::lemma_decomposition_bounds(a);
        let p4 = spec_p4_index(a) as int;
        let e4 = m.l4@[p4];
        if spec_present(e4) && !spec_huge(e4) {
            assert(find_slot(m.l3@, spec_entry_frame(e4)) is Some);
            let j3 = find_slot(m.l3@, spec_entry_frame(e4))->Some_0;
            lemma_find_slot_spec(m.l3@, spec_entry_frame(e4));
            let e3 = m.l3@[j3].table@[spec_p3_index(a) as int];
            if spec_present(e3) && !spec_huge(e3) {
                assert(find_slot(m.l2@, spec_entry_frame(e3)) is Some);
                let j = find_slot(m.l2@, spec_entry_frame(e3))->Some_0;
                lemma_find_slot_spec(m.l2@, spec_entry_frame(e3));
                assert(find_slot(m2.l2@, spec_entry_frame(e3)) == Some(j));
                if j == j2 && spec_p2_index(a) as int == i2 {
                    // Old: unused entry.  New: path ends in the zeroed table.
                    assert(spec_walk(m, a) == WalkResult::Unmapped);
                    assert(m2.l2@[j].table@[i2] == e);
                    assert(m2.l1@[m.l1@.len() as int].table@[spec_p1_index(a) as int] == 0u64);
                    assert(spec_walk(m2, a) == WalkResult::Unmapped);
                } else {
                    let e2 = m.l2@[j].table@[spec_p2_index(a) as int];
                    if j == j2 {
                        assert(m2.l2@[j].table@[spec_p2_index(a) as int] == e2);
                    } else {
                        assert(m2.l2@[j] == m.l2@[j]);
                    }
                    if spec_present(e2) && !spec_huge(e2) {
                        assert(find_slot(m.l1@, spec_entry_frame(e2)) is Some);
                        let j1 = find_slot(m.l1@, spec_entry_frame(e2))->Some_0;
                        lemma_find_slot_spec(m.l1@, spec_entry_frame(e2));
                        assert(find_slot(m2.l1@, spec_entry_frame(e2)) == Some(j1));
                        assert(m2.l1@[j1] == m.l1@[j1]);
                    }
                }
            }
        }
    }
    assert(slot_frames(m2.l2@) =~= slot_frames(m.l2@));
    assert(slot_frames(m2.l1@) =~= slot_frames(m.l1@).insert(fnew));
    assert(m2.table_frames() =~= m.table_frames().insert(fnew));
}

/// Installing a leaf entry changes the translation of exactly the addresses
/// of its page: by the no-shared-children discipline, the resolved leaf slot
/// is reached by no other index path.
proof fn lemma_install_leaf(
    m: Mapper,
    m2: Mapper,
    i4: u64,
    i3: u64,
    i2: u64,
    i1: u64,
    j3: int,
    j2: int,
    j1: int,
    e: u64,
)
    requires
        m.wf(),
        i4 < 512,
        i3 < 512,
        i2 < 512,
        i1 < 512,
        spec_present(m.l4@[i4 as int]),
        !spec_huge(m.l4@[i4 as int]),
        find_slot(m.l3@, spec_entry_frame(m.l4@[i4 as int])) == Some(j3),
        spec_present(m.l3@[j3].table@[i3 as int]),
        !spec_huge(m.l3@[j3].table@[i3 as int]),
        find_slot(m.l2@, spec_entry_frame(m.l3@[j3].table@[i3 as int])) == Some(j2),
        spec_present(m.l2@[j2].table@[i2 as int]),
        !spec_huge(m.l2@[j2].table@[i2 as int]),
        find_slot(m.l1@, spec_entry_frame(m.l2@[j2].table@[i2 as int])) == Some(j1),
        !spec_present(m.l1@[j1].table@[i1 as int]),
        spec_present(e),
        m2.l4@ == m.l4@,
        m2.l3@ == m.l3@,
        m2.l2@ == m.l2@,
        m2.l1@.len() == m.l1@.len(),
        m2.l1@[j1].frame == m.l1@[j1].frame,
        m2.l1@[j1].table@ == m.l1@[j1].table@.update(i1 as int, e),
        forall|k: int| 0 <= k < m.l1@.len() && k != j1 ==> m2.l1@[k] == m.l1@[k],
    ensures
        m2.wf(),
        forall|a: u64|
            spec_p4_index(a) == i4 && spec_p3_index(a) == i3 && spec_p2_index(a) == i2
                && spec_p1_index(a) == i1 ==> spec_walk(m2, a) == WalkResult::Mapped(
                (spec_entry_frame(e) + spec_page_offset(a)) as u64,
            ),
        forall|a: u64|
            !(spec_p4_index(a) == i4 && spec_p3_index(a) == i3 && spec_p2_index(a) == i2
                && spec_p1_index(a) == i1) ==> spec_walk(m2, a) == spec_walk(m, a),
        m2.table_frames() == m.table_frames(),
{
    lemma_find_slot_spec(m.l3@, spec_entry_frame(m.l4@[i4 as int]));
    lemma_find_slot_spec(m.l2@, spec_entry_frame(m.l3@[j3].table@[i3 as int]));
    lemma_find_slot_spec(m.l1@, spec_entry_frame(m.l2@[j2].table@[i2 as int]));
    assert forall|f: u64| true implies find_slot(m2.l1@, f) == find_slot(m.l1@, f) by {
        lemma_find_slot_frames_eq(m2.l1@, m.l1@, f);
    }
    // Structural invariant: only one level-1 table changed, its frame kept.
    assert(forall|i: int|
        0 <= i < m2.l1@.len() ==> (#[trigger] m2.l1@[i]).frame == m.l1@[i].frame);
    assert(m2.l1@[j1].table.wf());
    assert(forall|i: int| 0 <= i < m2.l1@.len() ==> (#[trigger] m2.l1@[i]).table.wf());
    assert(l4_links_ok(m2));
    assert(mid_links_ok(m2.l3@, m2.l2@));
    assert forall|s: int, i: int|
        0 <= s < m2.l2@.len() && 0 <= i < 512 && spec_present(#[trigger] m2.l2@[s].table@[i])
            && !spec_huge(m2.l2@[s].table@[i]) implies find_slot(
        m2.l1@,
        spec_entry_frame(m2.l2@[s].table@[i]),
    ) is Some by {
        assert(find_slot(m.l1@, spec_entry_frame(m.l2@[s].table@[i])) is Some);
    }
    assert(m2.wf());
    let ft = spec_entry_frame(e);
    assert forall|a: u64| true implies spec_walk(m2, a) == (if spec_p4_index(a) == i4
        && spec_p3_index(a) == i3 && spec_p2_index(a) == i2 && spec_p1_index(a) == i1 {
        WalkResult::Mapped((ft + spec_page_offset(a)) as u64)
    } else {
        spec_walk(m, a)
    }) by {
        crate::addr::lemma_decomposition_bounds(a);
        let p4 = spec_p4_index(a) as int;
        let p3 = spec_p3_index(a) as int;
        let p2 = spec_p2_index(a) as int;
        let p1 = spec_p1_index(a) as int;
        if p4 == i4 as int && p3 == i3 as int && p2 == i2 as int && p1 == i1 as int {
            assert(m2.l1@[j1].table@[p1] == e);
            assert(spec_walk(m2, a) == WalkResult::Mapped((ft + spec_page_offset(a)) as u64));
        } else {
            let e4 = m.l4@[p4];
            if spec_present(e4) && !spec_huge(e4) {
                assert(find_slot(m.l3@, spec_entry_frame(e4)) is Some);
                let k3 = find_slot(m.l3@, spec_entry_frame(e4))->Some_0;
                lemma_find_slot_spec(m.l3@, spec_entry_frame(e4));
                let e3 = m.l3@[k3].table@[p3];
                if spec_present(e3) && !spec_huge(e3) {
                    assert(find_slot(m.l2@, spec_entry_frame(e3)) is Some);
                    let k2 = find_slot(m.l2@, spec_entry_frame(e3))->Some_0;
                    lemma_find_slot_spec(m.l2@, spec_entry_frame(e3));
                    let e2 = m.l2@[k2].table@[p2];
                    if spec_present(e2) && !spec_huge(e2) {
                        assert(find_slot(m.l1@, spec_entry_frame(e2)) is Some);
                        let k1 = find_slot(m.l1@, spec_entry_frame(e2))->Some_0;
                        lemma_find_slot_spec(m.l1@, spec_entry_frame(e2));
                        assert(find_slot(m2.l1@, spec_entry_frame(e2)) == Some(k1));
                        if k1 == j1 && p1 == i1 as int {
                            // The path would end in the changed slot: the
                            // no-shared-children discipline forces every
                            // upper index to agree, against the case split.
                            assert(m.l1@[j1].frame == spec_entry_frame(e2));
                            assert(m.l1@[j1].frame == spec_entry_frame(
                                m.l2@[j2].table@[i2 as int],
                            ));
                            assert(spec_entry_frame(e2) == spec_entry_frame(
                                m.l2@[j2].table@[i2 as int],
                            ));
                            assert(k2 == j2 && p2 == i2 as int);
                            assert(m.l2@[j2].frame == spec_entry_frame(e3));
                            assert(m.l2@[j2].frame == spec_entry_frame(
                                m.l3@[j3].table@[i3 as int],
                            ));
                            assert(k3 == j3 && p3 == i3 as int);
                            assert(m.l3@[j3].frame == spec_entry_frame(e4));
                            assert(m.l3@[j3].frame == spec_entry_frame(m.l4@[i4 as int]));
                            assert(p4 == i4 as int);
                            assert(false);
                        } else {
                            if k1 == j1 {
                                assert(m2.l1@[k1].table@[p1] == m.l1@[k1].table@[p1]);
                            } else {
                                assert(m2.l1@[k1] == m.l1@[k1]);
                            }
                            assert(spec_walk(m2, a) == spec_walk(m, a));
                        }
                    }
                }
            }
        }
    }
    assert(slot_frames(m2.l1@) =~= slot_frames(m.l1@));
    assert(m2.table_frames() =~= m.table_frames());
}

/// The level-3 table on the path of `a`, if the top-level entry leads to
/// one.
pub open spec fn l3_table_of(m: Mapper, a: u64) -> Option<PageTable> {
    let e4 = m.l4@[spec_p4_index(a) as int];
    if spec_present(e4) && !spec_huge(e4) {
        match find_slot(m.l3@, spec_entry_frame(e4)) {
            None => None,
            Some(j) => Some(m.l3@[j].table),
        }
    } else {
        None
    }
}

/// The level-2 table on the path of `a`, if the path leads to one.
pub open spec fn l2_table_of(m: Mapper, a: u64) -> Option<PageTable> {
    match l3_table_of(m, a) {
        None => None,
        Some(t3) => {
            let e3 = t3@[spec_p3_index(a) as int];
            if spec_present(e3) && !spec_huge(e3) {
                match find_slot(m.l2@, spec_entry_frame(e3)) {
                    None => None,
                    Some(j) => Some(m.l2@[j].table),
                }
            } else {
                None
            }
        },
    }
}

/// The level-1 table on the path of `a`, if the path leads to one.
pub open spec fn l1_table_of(m: Mapper, a: u64) -> Option<PageTable> {
    match l2_table_of(m, a) {
        None => None,
        Some(t2) => {
            let e2 = t2@[spec_p2_index(a) as int];
            if spec_present(e2) && !spec_huge(e2) {
                match find_slot(m.l1@, spec_entry_frame(e2)) {
                    None => None,
                    Some(j) => Some(m.l1@[j].table),
                }
            } else {
                None
            }
        },
    }
}

/// Unmapped lookup: an unused entry anywhere on the path of `a` — at any
/// level — makes the whole translation unmapped.
pub proof fn lemma_unmapped_lookup(m: Mapper, a: u64)
    requires
        ({
            ||| !spec_present(m.l4@[spec_p4_index(a) as int])
            ||| (l3_table_of(m, a) matches Some(t) && !spec_present(t@[spec_p3_index(a) as int]))
            ||| (l2_table_of(m, a) matches Some(t) && !spec_present(t@[spec_p2_index(a) as int]))
            ||| (l1_table_of(m, a) matches Some(t) && !spec_present(t@[spec_p1_index(a) as int]))
        }),
    ensures
        spec_walk(m, a) == WalkResult::Unmapped,
{
}

/// Huge-entry rejection: a present entry with the huge flag at level 4, 3,
/// or 2 on the path of `a` makes the walk fail with the unsupported
/// configuration, never with a (wrong) resolved address.
pub proof fn lemma_huge_rejection(m: Mapper, a: u64)
    requires
        ({
            let e4 = m.l4@[spec_p4_index(a) as int];
            ||| (spec_present(e4) && spec_huge(e4))
            ||| (l3_table_of(m, a) matches Some(t) && spec_present(t@[spec_p3_index(a) as int])
                && spec_huge(t@[spec_p3_index(a) as int]))
            ||| (l2_table_of(m, a) matches Some(t) && spec_present(t@[spec_p2_index(a) as int])
                && spec_huge(t@[spec_p2_index(a) as int]))
        }),
    ensures
        spec_walk(m, a) == WalkResult::Huge,
{
}

/// Translate matches install: once every address of a page is mapped to the
/// corresponding byte of one frame, translating `page.start + k` yields
/// `frame.start + k` for every offset `k` within the page.
pub proof fn lemma_translate_matches_install(m: Mapper, page: Page, frame: crate::frame::Frame)
    requires
        page.wf(),
        frame.wf(),
        forall|a: u64|
            canonical(a) && spec_page_base(a) == page.start ==> spec_walk(m, a)
                == WalkResult::Mapped((frame.start + spec_page_offset(a)) as u64),
    ensures
        forall|k: u64|
            k < 4096 ==> #[trigger] spec_walk(m, (page.start + k) as u64) == WalkResult::Mapped(
                (frame.start + k) as u64,
            ),
{
    assert forall|k: u64| k < 4096 implies #[trigger] spec_walk(m, (page.start + k) as u64)
        == WalkResult::Mapped((frame.start + k) as u64) by {
        let p = page.start;
        let a = (p + k) as u64;
        assert((p % 4096 == 0 && (p < 0x0000_8000_0000_0000u64 || p >= 0xffff_8000_0000_0000u64)
            && k < 4096) ==> {
            let x = (p + k) as u64;
            &&& (x < 0x0000_8000_0000_0000u64 || x >= 0xffff_8000_0000_0000u64)
            &&& (x & 0xffff_ffff_ffff_f000u64) == p
            &&& (x & 0xfffu64) == k
        }) by (bit_vector);
        assert(canonical(a) && spec_page_base(a) == p && spec_page_offset(a) == k);
    }
}

/// The set of frames in a short prefix of a frame sequence, written out.
proof fn lemma_prefix_set(s: Seq<u64>, n: int)
    requires
        0 <= n <= s.len(),
        n <= 3,
    ensures
        n == 0 ==> s.subrange(0, n).to_set() == Set::<u64>::empty(),
        n == 1 ==> s.subrange(0, n).to_set() == Set::<u64>::empty().insert(s[0]),
        n == 2 ==> s.subrange(0, n).to_set() == Set::<u64>::empty().insert(s[0]).insert(s[1]),
        n == 3 ==> s.subrange(0, n).to_set() == Set::<u64>::empty().insert(s[0]).insert(
            s[1],
        ).insert(s[2]),
{
    let p = s.subrange(0, n);
    assert(forall|i: int| 0 <= i < n ==> p[i] == s[i]);
    assert forall|x: u64| p.to_set().contains(x) implies exists|i: int| 0 <= i < n && s[i] == x by {
        let i = choose|i: int| 0 <= i < p.len() && p[i] == x;
        assert(s[i] == x);
    }
    assert forall|x: u64| (exists|i: int| 0 <= i < n && s[i] == x) implies p.to_set().contains(
        x,
    ) by {
        let i = choose|i: int| 0 <= i < n && s[i] == x;
        assert(p[i] == x);
    }
    if n == 0 {
        assert(p.to_set() =~= Set::<u64>::empty());
    } else if n == 1 {
        assert(p.to_set() =~= Set::<u64>::empty().insert(s[0]));
    } else if n == 2 {
        assert(p.to_set() =~= Set::<u64>::empty().insert(s[0]).insert(s[1]));
    } else {
        assert(p.to_set() =~= Set::<u64>::empty().insert(s[0]).insert(s[1]).insert(s[2]));
    }
}

/// Find the arena slot holding the table for a frame base.
fn find_slot_idx(slots: &Vec<TableSlot>, f: u64) -> (r: Option<usize>)
    ensures
        match r {
            Some(i) => find_slot(slots@, f) == Some(i as int),
            None => find_slot(slots@, f) is None,
        },
{
    let mut i: usize = 0;
    while i < slots.len()
        invariant
            i <= slots@.len(),
            forall|k: int| 0 <= k < i as int ==> (#[trigger] slots@[k]).frame != f,
        decreases slots@.len() - i,
    {
        if slots[i].frame == f {
            proof {
                lemma_find_slot_spec(slots@, f);
                if find_slot(slots@, f) is None {
                    assert(false);
                } else {
                    let j = find_slot(slots@, f)->Some_0;
                    assert(j == i as int);
                }
            }
            return Some(i);
        }
        i = i + 1;
    }
    proof {
        lemma_find_slot_spec(slots@, f);
        if find_slot(slots@, f) is Some {
            let j = find_slot(slots@, f)->Some_0;
            assert(slots@[j].frame == f);
            assert(false);
        }
    }
    None
}

impl Mapper {
    /// An empty hierarchy: a zeroed top-level table, no lower tables, so no
    /// address is mapped.
    pub fn new() -> (r: Mapper)
        ensures
            r.wf(),
            forall|a: u64| spec_walk(r, a) == WalkResult::Unmapped,
            forall|a: u64| tables_needed(r, a) == 3,
            r.table_frames() == Set::<u64>::empty(),
    {
        let m = Mapper { l4: PageTable::empty(), l3: Vec::new(), l2: Vec::new(), l1: Vec::new() };
        proof {
            assert(0u64 & 0x1u64 == 0u64) by (bit_vector);
            assert(forall|i: int| 0 <= i < 512 ==> !spec_present(#[trigger] m.l4@[i]));
            assert forall|a: u64| spec_walk(m, a) == WalkResult::Unmapped && tables_needed(m, a)
                == 3 by {
                crate::addr::lemma_decomposition_bounds(a);
                assert(m.l4@[spec_p4_index(a) as int] == 0u64);
            }
            assert(m.table_frames() =~= Set::<u64>::empty());
        }
        m
    }

    /// Assemble a hierarchy from explicit tables, e.g. one found at boot or
    /// a synthetic one. The caller vouches for the structural invariant.
    pub fn from_parts(l4: PageTable, l3: Vec<TableSlot>, l2: Vec<TableSlot>, l1: Vec<TableSlot>) -> (r:
        Mapper)
        requires
            (Mapper { l4, l3, l2, l1 }).wf(),
        ensures
            r == (Mapper { l4, l3, l2, l1 }),
            r.wf(),
    {
        Mapper { l4, l3, l2, l1 }
    }

    /// Install a mapping from `page` to `frame` with the given leaf flags,
    /// allocating intermediate tables from the frame source as needed.
    /// Intermediate entries are always present and writable; the caller's
    /// flags go only on the leaf entry. On success the caller must still
    /// flush any stale translation cache entry for `page` before relying on
    /// the new mapping. On failure, tables already allocated stay in place
    /// (no rollback), but no translation changes.
    #[verifier::rlimit(100)]
    pub fn map_to<FS: FrameAllocator>(
        &mut self,
        page: Page,
        frame: UnusedFrame,
        flags: PageTableFlags,
        fa: &mut FS,
    ) -> (r: Result<(), MapError>)
        requires
            old(self).wf(),
            page.wf(),
            frame.frame.wf(),
            flags.wf(),
            flags.is_present(),
            !flags.is_huge(),
            old(fa).inv(),
            forall|i: int, j: int|
                0 <= i < j < old(fa).frames_view().len()
                    ==> old(fa).frames_view()[i] != old(fa).frames_view()[j],
            forall|i: int|
                0 <= i < old(fa).frames_view().len() ==> !old(self).table_frames().contains(
                    #[trigger] old(fa).frames_view()[i],
                ),
        ensures
            final(self).wf(),
            final(fa).inv(),
            r is Ok <==> spec_walk(*old(self), page.start) is Unmapped
                && old(fa).frames_view().len() >= tables_needed(*old(self), page.start),
            r == Err::<(), MapError>(MapError::AlreadyMapped) <==> spec_walk(
                *old(self),
                page.start,
            ) is Mapped,
            r == Err::<(), MapError>(MapError::HugePageConflict) <==> spec_walk(
                *old(self),
                page.start,
            ) is Huge,
            r is Ok ==> {
                &&& final(fa).frames_view() == old(fa).frames_view().skip(
                    tables_needed(*old(self), page.start) as int,
                )
                &&& forall|a: u64|
                    canonical(a) ==> spec_walk(*final(self), a) == (if spec_page_base(a)
                        == page.start {
                        WalkResult::Mapped((frame.frame.start + spec_page_offset(a)) as u64)
                    } else {
                        spec_walk(*old(self), a)
                    })
                &&& final(self).table_frames() == old(self).table_frames().union(
                    old(fa).frames_view().subrange(
                        0,
                        tables_needed(*old(self), page.start) as int,
                    ).to_set(),
                )
            },
            !(r is Ok) ==> forall|a: u64| spec_walk(*final(self), a) == spec_walk(*old(self), a),
            r == Err::<(), MapError>(MapError::FrameAllocationFailed)
                ==> final(fa).frames_view().len() == 0,
            r == Err::<(), MapError>(MapError::AlreadyMapped) || r == Err::<(), MapError>(
                MapError::HugePageConflict,
            ) ==> final(fa).frames_view() == old(fa).frames_view() && final(self).table_frames()
                == old(self).table_frames(),
    {
        let ghost m0 = *old(self);
        let ghost fv0 = old(fa).frames_view();
        let ghost needed = tables_needed(m0, page.start);
        proof {
            assert(1u64 | 2u64 == 3u64 && 3u64 & 0x1u64 != 0 && 3u64 & 0x80u64 == 0u64
                && 0u64 & 0x1u64 == 0u64 && 0u64 & 0x80u64 == 0u64) by (bit_vector);
        }
        let pstart = page.start_address();
        let (i4, i3, i2, i1, _off) = crate::addr::decompose(pstart);

        // Level 4: find or create the level-3 table.
        let e4 = self.l4.entry(i4 as usize);
        let j3: usize;
        if e4 & FLAG_PRESENT == 0 {
            proof {
                assert(spec_walk(m0, page.start) is Unmapped);
                assert(needed == 3);
            }
            match fa.allocate_frame() {
                None => {
                    proof {
                        assert(fv0.len() == 0);
                    }
                    return Err(MapError::FrameAllocationFailed);
                },
                Some(uf) => {
                    let fnew = uf.frame.start;
                    let tz = PageTable::empty();
                    self.l4.set_entry(i4 as usize, fnew | (FLAG_PRESENT | FLAG_WRITABLE));
                    self.l3.push(TableSlot { frame: fnew, table: tz });
                    j3 = self.l3.len() - 1;
                    proof {
                        assert(fnew == fv0[0]);
                        lemma_entry_encode(fnew, FLAG_PRESENT | FLAG_WRITABLE);
                        lemma_extend_l4(m0, *self, i4 as int, fnew | (FLAG_PRESENT
                            | FLAG_WRITABLE), tz);
                        assert(fa.frames_view() == fv0.skip(1));
                        assert(forall|i: int|
                            0 <= i < fa.frames_view().len() ==> #[trigger] fa.frames_view()[i]
                                == fv0[i + 1]);
                    }
                },
            }
        } else if e4 & FLAG_HUGE != 0 {
            proof {
                assert(spec_walk(m0, page.start) is Huge);
            }
            return Err(MapError::HugePageConflict);
        } else {
            let f3 = e4 & crate::table::ENTRY_FRAME_MASK;
            proof {
                assert(find_slot(m0.l3@, f3) is Some);
            }
            match find_slot_idx(&self.l3, f3) {
                Some(j) => {
                    j3 = j;
                },
                None => {
                    proof {
                        assert(false);
                    }
                    j3 = vstd::pervasive::unreached();
                },
            }
        }
        // Checkpoint after level 4: the walk is unchanged, and the level-3
        // table for the target path sits at slot `j3`.
        proof {
            assert(self.wf());
            assert(forall|a: u64| spec_walk(*self, a) == spec_walk(m0, a));
            assert(spec_present(self.l4@[i4 as int]) && !spec_huge(self.l4@[i4 as int]));
            assert(find_slot(self.l3@, spec_entry_frame(self.l4@[i4 as int])) == Some(
                j3 as int,
            ));
            lemma_find_slot_spec(self.l3@, spec_entry_frame(self.l4@[i4 as int]));
        }

        // Level 3: find or create the level-2 table.
        let e3 = self.l3[j3].table.entry(i3 as usize);
        let ghost m_a = *self;
        let j2: usize;
        if e3 & FLAG_PRESENT == 0 {
            proof {
                if e4 & FLAG_PRESENT != 0 {
                    // The level-3 table existed already: the old walk stops
                    // at this unused entry.
                    assert(spec_walk(m0, page.start) is Unmapped);
                    assert(needed == 2);
                }
            }
            match fa.allocate_frame() {
                None => {
                    proof {
                        if e4 & FLAG_PRESENT != 0 {
                            assert(fv0.len() == 0);
                        } else {
                            assert(fa.frames_view() == fv0.skip(1));
                            assert(fv0.len() == 1);
                        }
                        assert(fv0.len() < needed);
                    }
                    return Err(MapError::FrameAllocationFailed);
                },
                Some(uf) => {
                    let fnew = uf.frame.start;
                    let tz = PageTable::empty();
                    self.l3[j3].table.set_entry(i3 as usize, fnew | (FLAG_PRESENT
                        | FLAG_WRITABLE));
                    self.l2.push(TableSlot { frame: fnew, table: tz });
                    j2 = self.l2.len() - 1;
                    proof {
                        lemma_entry_encode(fnew, FLAG_PRESENT | FLAG_WRITABLE);
                        lemma_extend_l3(m_a, *self, j3 as int, i3 as int, fnew | (FLAG_PRESENT
                            | FLAG_WRITABLE), tz);
                        if e4 & FLAG_PRESENT != 0 {
                            assert(fnew == fv0[0]);
                            assert(fa.frames_view() == fv0.skip(1));
                        } else {
                            assert(fnew == fv0[1]);
                            assert(fa.frames_view() == fv0.skip(1).drop_first());
                            assert(fa.frames_view() =~= fv0.skip(2));
                        }
                    }
                },
            }
        } else if e3 & FLAG_HUGE != 0 {
            proof {
                // A freshly created table has no present entries, so the
                // level-3 table predates this call: the old walk hits the
                // huge entry.
                assert(e4 & FLAG_PRESENT != 0);
                assert(spec_walk(m0, page.start) is Huge);
            }
            return Err(MapError::HugePageConflict);
        } else {
            let f2 = e3 & crate::table::ENTRY_FRAME_MASK;
            proof {
                assert(e4 & FLAG_PRESENT != 0);
                assert(find_slot(self.l2@, f2) is Some);
            }
            match find_slot_idx(&self.l2, f2) {
                Some(j) => {
                    j2 = j;
                },
                None => {
                    proof {
                        assert(false);
                    }
                    j2 = vstd::pervasive::unreached();
                },
            }
        }
        // Checkpoint after level 3.
        proof {
            assert(self.wf());
            assert(forall|a: u64| spec_walk(*self, a) == spec_walk(m0, a));
            assert(self.l4@ == m_a.l4@ && spec_present(self.l4@[i4 as int]) && !spec_huge(
                self.l4@[i4 as int],
            ));
            assert(find_slot(self.l3@, spec_entry_frame(self.l4@[i4 as int])) == Some(
                j3 as int,
            ));
            assert(spec_present(self.l3@[j3 as int].table@[i3 as int]) && !spec_huge(
                self.l3@[j3 as int].table@[i3 as int],
            ));
            assert(find_slot(self.l2@, spec_entry_frame(self.l3@[j3 as int].table@[i3 as int]))
                == Some(j2 as int));
            lemma_find_slot_spec(
                self.l2@,
                spec_entry_frame(self.l3@[j3 as int].table@[i3 as int]),
            );
        }

        // Level 2: find or create the level-1 table.
        let e2 = self.l2[j2].table.entry(i2 as usize);
        let ghost m_b = *self;
        let j1: usize;
        if e2 & FLAG_PRESENT == 0 {
            proof {
                if e4 & FLAG_PRESENT != 0 && e3 & FLAG_PRESENT != 0 {
                    assert(spec_walk(m0, page.start) is Unmapped);
                    assert(needed == 1);
                }
            }
            match fa.allocate_frame() {
                None => {
                    proof {
                        if e4 & FLAG_PRESENT != 0 && e3 & FLAG_PRESENT != 0 {
                            assert(fv0.len() == 0);
                        } else if e4 & FLAG_PRESENT != 0 {
                            assert(fv0.len() == 1);
                        } else {
                            assert(fv0.len() == 2);
                        }
                        assert(fv0.len() < needed);
                    }
                    return Err(MapError::FrameAllocationFailed);
                },
                Some(uf) => {
                    let fnew = uf.frame.start;
                    let tz = PageTable::empty();
                    self.l2[j2].table.set_entry(i2 as usize, fnew | (FLAG_PRESENT
                        | FLAG_WRITABLE));
                    self.l1.push(TableSlot { frame: fnew, table: tz });
                    j1 = self.l1.len() - 1;
                    proof {
                        lemma_entry_encode(fnew, FLAG_PRESENT | FLAG_WRITABLE);
                        lemma_extend_l2(m_b, *self, j2 as int, i2 as int, fnew | (FLAG_PRESENT
                            | FLAG_WRITABLE), tz);
                        if e4 & FLAG_PRESENT != 0 && e3 & FLAG_PRESENT != 0 {
                            assert(fnew == fv0[0]);
                            assert(fa.frames_view() == fv0.skip(1));
                        } else if e4 & FLAG_PRESENT != 0 {
                            assert(fnew == fv0.skip(1)[0] && fnew == fv0[1]);
                            assert(fa.frames_view() =~= fv0.skip(2));
                        } else {
                            assert(fnew == fv0.skip(2)[0] && fnew == fv0[2]);
                            assert(fa.frames_view() =~= fv0.skip(3));
                        }
                    }
                },
            }
        } else if e2 & FLAG_HUGE != 0 {
            proof {
                assert(e4 & FLAG_PRESENT != 0 && e3 & FLAG_PRESENT != 0);
                assert(spec_walk(m0, page.start) is Huge);
            }
            return Err(MapError::HugePageConflict);
        } else {
            let f1 = e2 & crate::table::ENTRY_FRAME_MASK;
            proof {
                assert(e4 & FLAG_PRESENT != 0 && e3 & FLAG_PRESENT != 0);
                assert(find_slot(self.l1@, f1) is Some);
            }
            match find_slot_idx(&self.l1, f1) {
                Some(j) => {
                    j1 = j;
                },
                None => {
                    proof {
                        assert(false);
                    }
                    j1 = vstd::pervasive::unreached();
                },
            }
        }
        // Checkpoint after level 2.
        proof {
            assert(self.wf());
            assert(forall|a: u64| spec_walk(*self, a) == spec_walk(m0, a));
            assert(spec_present(self.l4@[i4 as int]) && !spec_huge(self.l4@[i4 as int]));
            assert(find_slot(self.l3@, spec_entry_frame(self.l4@[i4 as int])) == Some(
                j3 as int,
            ));
            assert(spec_present(self.l3@[j3 as int].table@[i3 as int]) && !spec_huge(
                self.l3@[j3 as int].table@[i3 as int],
            ));
            assert(find_slot(self.l2@, spec_entry_frame(self.l3@[j3 as int].table@[i3 as int]))
                == Some(j2 as int));
            assert(spec_present(self.l2@[j2 as int].table@[i2 as int]) && !spec_huge(
                self.l2@[j2 as int].table@[i2 as int],
            ));
            assert(find_slot(self.l1@, spec_entry_frame(self.l2@[j2 as int].table@[i2 as int]))
                == Some(j1 as int));
            lemma_find_slot_spec(
                self.l1@,
                spec_entry_frame(self.l2@[j2 as int].table@[i2 as int]),
            );
        }

        // Level 1: refuse to overwrite, else install the leaf entry.
        let e1 = self.l1[j1].table.entry(i1 as usize);
        let ghost m_c = *self;
        if e1 & FLAG_PRESENT != 0 {
            proof {
                assert(e4 & FLAG_PRESENT != 0 && e3 & FLAG_PRESENT != 0 && e2 & FLAG_PRESENT
                    != 0);
                assert(spec_walk(m0, page.start) is Mapped);
            }
            return Err(MapError::AlreadyMapped);
        }
        let leaf = frame.frame.start | flags.bits;
        self.l1[j1].table.set_entry(i1 as usize, leaf);
        proof {
            lemma_entry_encode(frame.frame.start, flags.bits);
            lemma_install_leaf(m_c, *self, i4, i3, i2, i1, j3 as int, j2 as int, j1 as int, leaf);
            // The old walk for the target page was unmapped, and exactly
            // `needed` frames were consumed.
            if e4 & FLAG_PRESENT != 0 && e3 & FLAG_PRESENT != 0 && e2 & FLAG_PRESENT != 0 {
                assert(spec_walk(m0, page.start) is Unmapped);
                assert(needed == 0);
                assert(fa.frames_view() =~= fv0.skip(0));
                lemma_prefix_set(fv0, 0);
                assert(self.table_frames() =~= m0.table_frames().union(
                    fv0.subrange(0, 0).to_set(),
                ));
            } else if e4 & FLAG_PRESENT != 0 && e3 & FLAG_PRESENT != 0 {
                assert(needed == 1);
                lemma_prefix_set(fv0, 1);
                assert(self.table_frames() =~= m0.table_frames().union(
                    fv0.subrange(0, 1).to_set(),
                ));
            } else if e4 & FLAG_PRESENT != 0 {
                assert(needed == 2);
                lemma_prefix_set(fv0, 2);
                assert(self.table_frames() =~= m0.table_frames().union(
                    fv0.subrange(0, 2).to_set(),
                ));
            } else {
                assert(needed == 3);
                lemma_prefix_set(fv0, 3);
                assert(self.table_frames() =~= m0.table_frames().union(
                    fv0.subrange(0, 3).to_set(),
                ));
            }
            // Translate the index form of the leaf lemma into the
            // same-page form of the contract.
            crate::addr::lemma_aligned_offset(page.start);
            assert forall|a: u64| canonical(a) implies spec_walk(*self, a) == (if spec_page_base(
                a,
            ) == page.start {
                WalkResult::Mapped((frame.frame.start + spec_page_offset(a)) as u64)
            } else {
                spec_walk(m0, a)
            }) by {
                crate::addr::lemma_same_page_same_indices(a, page.start);
                crate::frame::lemma_page_base(page.start);
                assert(spec_page_base(page.start) == page.start);
                if spec_page_base(a) == page.start {
                    assert(spec_p4_index(a) == i4 && spec_p3_index(a) == i3 && spec_p2_index(a)
                        == i2 && spec_p1_index(a) == i1);
                    assert(spec_entry_frame(leaf) == frame.frame.start);
                }
            }
        }
        Ok(())
    }

    /// Resolve a virtual address, distinguishing the unsupported huge-entry
    /// configuration from an ordinary unmapped address.
    pub fn translate_addr_checked(&self, addr: VirtAddr) -> (r: Result<
        Option<PhysAddr>,
        TranslateError,
    >)
        requires
            self.wf(),
            addr.wf(),
        ensures
            match spec_walk(*self, addr.addr) {
                WalkResult::Mapped(p) => r matches Ok(Some(pa)) && pa.addr == p && pa.wf(),
                WalkResult::Unmapped => r == Ok::<Option<PhysAddr>, TranslateError>(None),
                WalkResult::Huge => r == Err::<Option<PhysAddr>, TranslateError>(
                    TranslateError::HugePageUnsupported,
                ),
            },
    {
        let (i4, i3, i2, i1, off) = crate::addr::decompose(addr);
        let e4 = self.l4.entry(i4 as usize);
        if e4 & FLAG_PRESENT == 0 {
            return Ok(None);
        }
        if e4 & crate::table::FLAG_HUGE != 0 {
            return Err(TranslateError::HugePageUnsupported);
        }
        let f3 = e4 & crate::table::ENTRY_FRAME_MASK;
        let j3 = match find_slot_idx(&self.l3, f3) {
            None => {
                return Ok(None);
            },
            Some(j) => j,
        };
        proof {
            lemma_find_slot_spec(self.l3@, f3);
        }
        let e3 = self.l3[j3].table.entry(i3 as usize);
        if e3 & FLAG_PRESENT == 0 {
            return Ok(None);
        }
        if e3 & crate::table::FLAG_HUGE != 0 {
            return Err(TranslateError::HugePageUnsupported);
        }
        let f2 = e3 & crate::table::ENTRY_FRAME_MASK;
        let j2 = match find_slot_idx(&self.l2, f2) {
            None => {
                return Ok(None);
            },
            Some(j) => j,
        };
        proof {
            lemma_find_slot_spec(self.l2@, f2);
        }
        let e2 = self.l2[j2].table.entry(i2 as usize);
        if e2 & FLAG_PRESENT == 0 {
            return Ok(None);
        }
        if e2 & crate::table::FLAG_HUGE != 0 {
            return Err(TranslateError::HugePageUnsupported);
        }
        let f1 = e2 & crate::table::ENTRY_FRAME_MASK;
        let j1 = match find_slot_idx(&self.l1, f1) {
            None => {
                return Ok(None);
            },
            Some(j) => j,
        };
        proof {
            lemma_find_slot_spec(self.l1@, f1);
        }
        let e1 = self.l1[j1].table.entry(i1 as usize);
        if e1 & FLAG_PRESENT == 0 {
            return Ok(None);
        }
        let base = e1 & crate::table::ENTRY_FRAME_MASK;
        proof {
            lemma_entry_frame_bounds(e1);
        }
        Ok(Some(PhysAddr { addr: base + off }))
    }

    /// Resolve a virtual address to a physical one, or report it unmapped.
    /// The walk must not meet a huge entry: that configuration is excluded
    /// up front because no caller can recover from it.
    pub fn translate_addr(&self, addr: VirtAddr) -> (r: Option<PhysAddr>)
        requires
            self.wf(),
            addr.wf(),
            spec_walk(*self, addr.addr) != WalkResult::Huge,
        ensures
            match spec_walk(*self, addr.addr) {
                WalkResult::Mapped(p) => r matches Some(pa) && pa.addr == p && pa.wf(),
                WalkResult::Unmapped => r is None,
                WalkResult::Huge => false,
            },
    {
        match self.translate_addr_checked(addr) {
            Ok(r) => r,
            Err(_) => None,
        }
    }
}

/// One line of a table dump: a present entry's raw bits, with the level of
/// its table and its index there.
#[derive(Clone, Copy, PartialEq, Eq, Structural, Debug)]
pub struct DumpEntry {
    pub level: u64,
    pub index: u64,
    pub bits: u64,
}

/// The arena holding the children of tables at the given level.
pub open spec fn child_slots(m: Mapper, level: u64) -> Seq<TableSlot> {
    if level == 4 {
        m.l3@
    } else if level == 3 {
        m.l2@
    } else {
        m.l1@
    }
}

/// Depth-first dump of one table from entry `i` on: every present entry is
/// reported; below `stop` the walk does not descend, and neither into a
/// huge entry nor into a frame that holds no table.
pub open spec fn spec_dump_table(
    m: Mapper,
    t: PageTable,
    level: u64,
    stop: u64,
    i: int,
) -> Seq<DumpEntry>
    decreases level, 512 - i,
{
    if i < 0 || i >= 512 {
        Seq::empty()
    } else {
        let e = t@[i];
        let here = if spec_present(e) {
            seq![DumpEntry { level, index: i as u64, bits: e }]
        } else {
            Seq::empty()
        };
        let below = if spec_present(e) && !spec_huge(e) && level > stop && level >= 2 {
            match find_slot(child_slots(m, level), spec_entry_frame(e)) {
                None => Seq::<DumpEntry>::empty(),
                Some(j) => spec_dump_table(
                    m,
                    child_slots(m, level)[j].table,
                    (level - 1) as u64,
                    stop,
                    0,
                ),
            }
        } else {
            Seq::empty()
        };
        here + below + spec_dump_table(m, t, level, stop, i + 1)
    }
}

/// The whole diagnostic dump, from the top-level table down to `stop`
/// (inclusive); a `stop` outside 1..=4 yields nothing.
pub open spec fn spec_dump(m: Mapper, stop: u64) -> Seq<DumpEntry> {
    if 1 <= stop <= 4 {
        spec_dump_table(m, m.l4, 4, stop, 0)
    } else {
        Seq::empty()
    }
}

/// Append the dump of one table to `out`, levels `level` down to `stop`.
fn dump_table(m: &Mapper, t: &PageTable, level: u64, stop: u64, out: &mut Vec<DumpEntry>)
    requires
        m.wf(),
        t.wf(),
        1 <= stop <= 4,
        stop <= level <= 4,
    ensures
        final(out)@ == old(out)@ + spec_dump_table(*m, *t, level, stop, 0),
    decreases level,
{
    let ghost base = out@;
    let mut i: usize = 0;
    while i < 512
        invariant
            m.wf(),
            t.wf(),
            1 <= stop <= 4,
            stop <= level <= 4,
            i <= 512,
            base + spec_dump_table(*m, *t, level, stop, 0) == out@ + spec_dump_table(
                *m,
                *t,
                level,
                stop,
                i as int,
            ),
        decreases 512 - i,
    {
        let e = t.entry(i);
        let ghost pre = out@;
        if e & FLAG_PRESENT != 0 {
            out.push(DumpEntry { level, index: i as u64, bits: e });
            if e & FLAG_HUGE == 0 && level > stop {
                let f = e & crate::table::ENTRY_FRAME_MASK;
                let children = if level == 4 {
                    &m.l3
                } else if level == 3 {
                    &m.l2
                } else {
                    &m.l1
                };
                match find_slot_idx(children, f) {
                    None => {
                        proof {
                            assert(out@ == pre + seq![
                                DumpEntry { level, index: i as u64, bits: e },
                            ]);
                        }
                    },
                    Some(j) => {
                        proof {
                            lemma_find_slot_spec(children@, f);
                        }
                        dump_table(m, &children[j].table, level - 1, stop, out);
                    },
                }
            }
        }
        proof {
            let full = spec_dump_table(*m, *t, level, stop, i as int);
            let here = if spec_present(t@[i as int]) {
                seq![DumpEntry { level, index: i as u64, bits: t@[i as int] }]
            } else {
                Seq::<DumpEntry>::empty()
            };
            let below = if spec_present(t@[i as int]) && !spec_huge(t@[i as int]) && level > stop
                && level >= 2 {
                match find_slot(child_slots(*m, level), spec_entry_frame(t@[i as int])) {
                    None => Seq::<DumpEntry>::empty(),
                    Some(j) => spec_dump_table(
                        *m,
                        child_slots(*m, level)[j].table,
                        (level - 1) as u64,
                        stop,
                        0,
                    ),
                }
            } else {
                Seq::<DumpEntry>::empty()
            };
            assert(full == here + below + spec_dump_table(*m, *t, level, stop, i + 1));
            assert(out@ == pre + here + below);
        }
        i = i + 1;
    }
    proof {
        assert(spec_dump_table(*m, *t, level, stop, 512) == Seq::<DumpEntry>::empty());
        assert(out@ =~= base + spec_dump_table(*m, *t, level, stop, 0));
    }
}

/// Diagnostic depth-first dump of the hierarchy, from the top-level table
/// down to `stop` (inclusive): one line per present entry, nothing mutated.
/// A `stop` outside 1..=4 is a no-op, not a fault. Rendering the lines is
/// the caller's business.
pub fn dump_page_tables_2(mapper: &Mapper, stop: u64) -> (r: Vec<DumpEntry>)
    requires
        mapper.wf(),
    ensures
        r@ == spec_dump(*mapper, stop),
{
    let mut out: Vec<DumpEntry> = Vec::new();
    if stop < 1 || stop > 4 {
        return out;
    }
    dump_table(mapper, &mapper.l4, 4, stop, &mut out);
    out
}

/// Map one page to a known hardware-backed frame — the
/// explicitly-unchecked aliasing path, e.g. for a device buffer — with
/// present and writable flags, as boot-time wiring does. The boot
/// sequence treats a mapping failure as fatal, so the failing inputs are
/// excluded here rather than reported.
pub fn create_mapping<FS: FrameAllocator>(
    page: Page,
    frame: crate::frame::Frame,
    mapper: &mut Mapper,
    frame_allocator: &mut FS,
)
    requires
        old(mapper).wf(),
        page.wf(),
        frame.wf(),
        old(frame_allocator).inv(),
        forall|i: int, j: int|
            0 <= i < j < old(frame_allocator).frames_view().len()
                ==> old(frame_allocator).frames_view()[i] != old(
                frame_allocator,
            ).frames_view()[j],
        forall|i: int|
            0 <= i < old(frame_allocator).frames_view().len() ==> !old(
                mapper,
            ).table_frames().contains(#[trigger] old(frame_allocator).frames_view()[i]),
        spec_walk(*old(mapper), page.start) is Unmapped,
        old(frame_allocator).frames_view().len() >= tables_needed(*old(mapper), page.start),
    ensures
        final(mapper).wf(),
        final(frame_allocator).inv(),
        forall|a: u64|
            canonical(a) ==> spec_walk(*final(mapper), a) == (if spec_page_base(a)
                == page.start {
                WalkResult::Mapped((frame.start + spec_page_offset(a)) as u64)
            } else {
                spec_walk(*old(mapper), a)
            }),
{
    let flags = PageTableFlags::present_writable();
    let unused_frame = UnusedFrame::new_unchecked(frame);
    let res = mapper.map_to(page, unused_frame, flags, frame_allocator);
    match res {
        Ok(()) => (),
        Err(_) => {
            proof {
                assert(false);
            }
            vstd::pervasive::unreached()
        },
    }
}


} // verus!

