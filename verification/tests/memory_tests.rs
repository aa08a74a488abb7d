use mtos::addr::VirtAddr;
use mtos::allocator;
use mtos::frame::{Frame, Page, UnusedFrame};
use mtos::frame_source::{BootInfoFrameAllocator, BootInfoFrameAllocator_new, EmptyFrameAllocator, FrameAllocator};
use mtos::mapper::{
    create_mapping, dump_page_tables_2, MapError, Mapper, TableSlot, TranslateError,
};
use mtos::memory_map::{MemoryRegion, RegionKind};
use mtos::table::{PageTable, PageTableFlags, FLAG_HUGE, FLAG_PRESENT, FLAG_WRITABLE};

fn usable(start: u64, end: u64) -> MemoryRegion {
    MemoryRegion::new(start, end, RegionKind::Usable)
}

fn table_source(n_frames: u64) -> BootInfoFrameAllocator {
    // Frames 0x100000, 0x101000, ... — disjoint from everything the tests
    // map.
    let map = vec![usable(0x10_0000, 0x10_0000 + n_frames * 4096)];
    BootInfoFrameAllocator::new(&map)
}

fn va(a: u64) -> VirtAddr {
    VirtAddr::new(a).unwrap()
}

#[test]
fn empty_allocator_is_always_exhausted() {
    let mut fa = EmptyFrameAllocator;
    assert!(fa.allocate_frame().is_none());
    assert!(fa.allocate_frame().is_none());
}

#[test]
fn frame_source_two_regions_yield_five_frames_then_none() {
    // Two usable regions of 3 and 2 frames, a reserved one in between.
    let map = vec![
        usable(0x1000, 0x4000),
        MemoryRegion::new(0x5000, 0x8000, RegionKind::Reserved),
        usable(0x1_0000, 0x1_2000),
    ];
    let mut fa = BootInfoFrameAllocator::new(&map);
    let mut got = Vec::new();
    for _ in 0..5 {
        got.push(fa.allocate_frame().expect("frame expected").frame().start);
    }
    assert_eq!(got, vec![0x1000, 0x2000, 0x3000, 0x1_0000, 0x1_1000]);
    for i in 0..got.len() {
        for j in (i + 1)..got.len() {
            assert_ne!(got[i], got[j]);
        }
    }
    assert!(got.windows(2).all(|w| w[0] < w[1]));
    assert!(fa.allocate_frame().is_none());
}

#[test]
fn frame_source_free_function_matches_method() {
    let map = vec![usable(0x2000, 0x3000)];
    let mut fa = BootInfoFrameAllocator_new(&map);
    assert_eq!(fa.allocate_frame().unwrap().frame().start, 0x2000);
    assert!(fa.allocate_frame().is_none());
}

#[test]
fn translate_on_empty_mapper_is_none() {
    let m = Mapper::new();
    assert_eq!(m.translate_addr(va(0x1000)), None);
    assert_eq!(m.translate_addr(va(0xffff_8000_0000_0000)), None);
}

#[test]
fn map_then_translate_matches_install() {
    let mut m = Mapper::new();
    let mut fa = table_source(8);
    let page = Page::containing_address(va(0x1000));
    let frame = Frame { start: 0xb8000 };
    create_mapping(page, frame, &mut m, &mut fa);
    assert_eq!(m.translate_addr(va(0x1000)).unwrap().value(), 0xb8000);
    assert_eq!(m.translate_addr(va(0x1000 + 10)).unwrap().value(), 0xb800a);
    assert_eq!(m.translate_addr(va(0x1fff)).unwrap().value(), 0xb8fff);
    // Chains broken at any level stay unmapped: sibling page (level 1),
    // sibling level-2 and level-3 entries, other top-level entry.
    assert_eq!(m.translate_addr(va(0x0)), None);
    assert_eq!(m.translate_addr(va(0x2000)), None);
    assert_eq!(m.translate_addr(va(0x20_0000)), None);
    assert_eq!(m.translate_addr(va(0x4000_0000)), None);
    assert_eq!(m.translate_addr(va(0xffff_8000_0000_0000)), None);
}

#[test]
fn map_to_reports_every_translation_of_the_page() {
    let mut m = Mapper::new();
    let mut fa = table_source(8);
    let page = Page::containing_address(va(0x40_0000));
    let frame = UnusedFrame::new_unchecked(Frame { start: 0x7000 });
    let flags = PageTableFlags::new(FLAG_PRESENT | FLAG_WRITABLE);
    assert!(m.map_to(page, frame, flags, &mut fa).is_ok());
    for k in [0u64, 1, 4095] {
        assert_eq!(m.translate_addr(va(0x40_0000 + k)).unwrap().value(), 0x7000 + k);
    }
}

#[test]
fn second_map_of_same_page_is_rejected_and_first_survives() {
    let mut m = Mapper::new();
    let mut fa = table_source(8);
    let page = Page::containing_address(va(0x1000));
    let flags = PageTableFlags::new(FLAG_PRESENT | FLAG_WRITABLE);
    let first = UnusedFrame::new_unchecked(Frame { start: 0xb8000 });
    assert!(m.map_to(page, first, flags, &mut fa).is_ok());
    let second = UnusedFrame::new_unchecked(Frame { start: 0x5000 });
    assert_eq!(m.map_to(page, second, flags, &mut fa), Err(MapError::AlreadyMapped));
    assert_eq!(m.translate_addr(va(0x1000)).unwrap().value(), 0xb8000);
}

#[test]
fn sibling_page_needs_no_new_tables() {
    let mut m = Mapper::new();
    let mut fa = table_source(8);
    let flags = PageTableFlags::new(FLAG_PRESENT | FLAG_WRITABLE);
    let a = UnusedFrame::new_unchecked(Frame { start: 0xb8000 });
    assert!(m.map_to(Page::containing_address(va(0x1000)), a, flags, &mut fa).is_ok());
    // Same level-1 table: the degenerate source suffices.
    let mut none_left = EmptyFrameAllocator;
    let b = UnusedFrame::new_unchecked(Frame { start: 0x9000 });
    assert!(m.map_to(Page::containing_address(va(0x2000)), b, flags, &mut none_left).is_ok());
    assert_eq!(m.translate_addr(va(0x2000)).unwrap().value(), 0x9000);
}

#[test]
fn map_without_frames_fails() {
    let mut m = Mapper::new();
    let mut fa = EmptyFrameAllocator;
    let flags = PageTableFlags::new(FLAG_PRESENT | FLAG_WRITABLE);
    let f = UnusedFrame::new_unchecked(Frame { start: 0xb8000 });
    assert_eq!(
        m.map_to(Page::containing_address(va(0x1000)), f, flags, &mut fa),
        Err(MapError::FrameAllocationFailed)
    );
    assert_eq!(m.translate_addr(va(0x1000)), None);
}

fn synthetic_huge_mapper() -> Mapper {
    // Level 4 entry 0 -> table in frame 0x2000; its entry 0 -> table in
    // frame 0x3000; whose entry 0 carries the huge flag.
    let mut l4 = PageTable::empty();
    l4.set_entry(0, 0x2000 | FLAG_PRESENT);
    let mut t3 = PageTable::empty();
    t3.set_entry(0, 0x3000 | FLAG_PRESENT);
    let mut t2 = PageTable::empty();
    t2.set_entry(0, 0x20_0000 | FLAG_PRESENT | FLAG_HUGE);
    Mapper::from_parts(
        l4,
        vec![TableSlot { frame: 0x2000, table: t3 }],
        vec![TableSlot { frame: 0x3000, table: t2 }],
        vec![],
    )
}

#[test]
fn huge_level2_entry_fails_translation_with_distinct_signal() {
    let m = synthetic_huge_mapper();
    assert_eq!(
        m.translate_addr_checked(va(0x1000)),
        Err(TranslateError::HugePageUnsupported)
    );
    // An address through another top-level entry is simply unmapped.
    assert_eq!(m.translate_addr_checked(va(0x80_0000_0000)), Ok(None));
}

#[test]
fn map_through_huge_entry_is_a_conflict() {
    let mut m = synthetic_huge_mapper();
    let mut fa = table_source(8);
    let flags = PageTableFlags::new(FLAG_PRESENT | FLAG_WRITABLE);
    let f = UnusedFrame::new_unchecked(Frame { start: 0xb8000 });
    assert_eq!(
        m.map_to(Page::containing_address(va(0x1000)), f, flags, &mut fa),
        Err(MapError::HugePageConflict)
    );
}

#[test]
fn heap_init_maps_whole_range() {
    let mut m = Mapper::new();
    let heap_start = 0x4444_4444_0000u64;
    let heap_size = 3 * 4096 + 5;  // covers four pages
    let mut fa = table_source(16);
    assert!(allocator::init(heap_start, heap_size, &mut m, &mut fa).is_ok());
    for a in [
        heap_start,
        heap_start + 1,
        heap_start + 4096,
        heap_start + 2 * 4096 + 17,
        heap_start + heap_size - 1,
    ] {
        assert!(m.translate_addr(va(a)).is_some());
    }
    // One page past the covered range stays unmapped.
    assert_eq!(m.translate_addr(va(heap_start + 4 * 4096)), None);
}

#[test]
fn heap_init_without_frames_fails() {
    let mut m = Mapper::new();
    let mut fa = EmptyFrameAllocator;
    assert_eq!(
        allocator::init(0x4444_4444_0000, 4096, &mut m, &mut fa),
        Err(MapError::FrameAllocationFailed)
    );
}

#[test]
fn dump_is_empty_for_empty_mapper_and_bad_stop() {
    let m = Mapper::new();
    assert!(dump_page_tables_2(&m, 1).is_empty());
    let m2 = synthetic_huge_mapper();
    assert!(dump_page_tables_2(&m2, 0).is_empty());
    assert!(dump_page_tables_2(&m2, 5).is_empty());
}

#[test]
fn dump_walks_levels_down_to_stop() {
    let mut m = Mapper::new();
    let mut fa = table_source(8);
    let page = Page::containing_address(va(0x1000));
    create_mapping(page, Frame { start: 0xb8000 }, &mut m, &mut fa);
    let top = dump_page_tables_2(&m, 4);
    assert_eq!(top.len(), 1);
    assert_eq!(top[0].level, 4);
    assert_eq!(top[0].index, 0);
    let all = dump_page_tables_2(&m, 1);
    let levels: Vec<u64> = all.iter().map(|e| e.level).collect();
    assert_eq!(levels, vec![4, 3, 2, 1]);
    assert_eq!(all[3].index, 1);  // page 0x1000 sits at level-1 index 1
    assert_eq!(all[3].bits & 0x000f_ffff_ffff_f000, 0xb8000);
}
