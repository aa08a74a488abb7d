use mtos::addr::{compose, decompose, PhysAddr, VirtAddr};
use mtos::frame::{Frame, Page};

#[test]
fn virt_addr_accepts_canonical_low_half() {
    let v = VirtAddr::new(0x7fff_ffff_ffff).unwrap();
    assert_eq!(v.value(), 0x7fff_ffff_ffff);
}

#[test]
fn virt_addr_accepts_canonical_high_half() {
    let v = VirtAddr::new(0xffff_8000_0000_0000).unwrap();
    assert_eq!(v.value(), 0xffff_8000_0000_0000);
}

#[test]
fn virt_addr_rejects_non_canonical() {
    assert!(VirtAddr::new(0x0000_8000_0000_0000).is_none());
    assert!(VirtAddr::new(0xffff_7fff_ffff_ffff).is_none());
    assert!(VirtAddr::new(0x1234_5678_9abc_def0).is_none());
}

#[test]
fn phys_addr_rejects_beyond_52_bits() {
    assert!(PhysAddr::new(0x000f_ffff_ffff_ffff).is_some());
    assert!(PhysAddr::new(0x0010_0000_0000_0000).is_none());
}

#[test]
fn decompose_splits_indices_and_offset() {
    // ((1 * 512 + 2) * 512 + 3) * 512 + 4, pages of 4096, offset 5.
    let addr = (((1u64 * 512 + 2) * 512 + 3) * 512 + 4) * 4096 + 5;
    let v = VirtAddr::new(addr).unwrap();
    let (i4, i3, i2, i1, off) = decompose(v);
    assert_eq!((i4, i3, i2, i1, off), (1, 2, 3, 4, 5));
}

#[test]
fn compose_rebuilds_from_parts() {
    let v = compose(1, 2, 3, 4, 5);
    assert_eq!(v.value(), (((1u64 * 512 + 2) * 512 + 3) * 512 + 4) * 4096 + 5);
}

#[test]
fn compose_sign_extends_high_half() {
    let v = compose(256, 0, 0, 0, 0);
    assert_eq!(v.value(), 0xffff_8000_0000_0000);
}

#[test]
fn decompose_compose_round_trip() {
    for addr in [
        0u64,
        0x1000,
        0x7fff_ffff_ffff,
        0xffff_8000_0000_0000,
        0xffff_ffff_ffff_f123,
        0xdead_beef_123,
    ] {
        let v = VirtAddr::new(addr).unwrap();
        let (i4, i3, i2, i1, off) = decompose(v);
        assert_eq!(compose(i4, i3, i2, i1, off).value(), addr);
    }
}

#[test]
fn page_and_frame_round_down() {
    let p = Page::containing_address(VirtAddr::new(0x1a2b).unwrap());
    assert_eq!(p.start, 0x1000);
    assert_eq!(p.start_address().value(), 0x1000);
    let f = Frame::containing_address(PhysAddr::new(0xb8123).unwrap());
    assert_eq!(f.start, 0xb8000);
    assert_eq!(f.start_address().value(), 0xb8000);
}
