use mtos::gdt;
use mtos::interrupts;
use mtos::vga::{Color, ColorCode, Writer};

fn writer() -> Writer {
    Writer::new(ColorCode::new(Color::LightGray, Color::Blue))
}

#[test]
fn color_code_packs_background_high_foreground_low() {
    assert_eq!(ColorCode::new(Color::LightGray, Color::Blue).bits, 0x17);
    assert_eq!(ColorCode::new(Color::White, Color::Black).bits, 0x0f);
    assert_eq!(ColorCode::new(Color::Yellow, Color::Red).bits, 0x4e);
}

#[test]
fn new_writer_is_blank() {
    let w = writer();
    assert_eq!(w.column(), 0);
    for r in [0usize, 12, 24] {
        for c in [0usize, 40, 79] {
            assert_eq!(w.char_at(r, c).ascii, b' ');
        }
    }
}

#[test]
fn write_byte_lands_on_bottom_row() {
    let mut w = writer();
    w.write_byte(b'a');
    assert_eq!(w.char_at(24, 0).ascii, b'a');
    assert_eq!(w.char_at(24, 0).color.bits, 0x17);
    assert_eq!(w.column(), 1);
}

#[test]
fn newline_scrolls_rows_up() {
    let mut w = writer();
    w.write_byte(b'x');
    w.write_byte(b'\n');
    assert_eq!(w.char_at(23, 0).ascii, b'x');
    assert_eq!(w.char_at(24, 0).ascii, b' ');
    assert_eq!(w.column(), 0);
}

#[test]
fn write_string_splits_on_newline() {
    let mut w = writer();
    w.write_string("hi\nok");
    assert_eq!(w.char_at(23, 0).ascii, b'h');
    assert_eq!(w.char_at(23, 1).ascii, b'i');
    assert_eq!(w.char_at(24, 0).ascii, b'o');
    assert_eq!(w.char_at(24, 1).ascii, b'k');
    assert_eq!(w.column(), 2);
}

#[test]
fn unprintable_byte_becomes_replacement_glyph() {
    let mut w = writer();
    w.write_string("\u{1}");
    assert_eq!(w.char_at(24, 0).ascii, 0xfe);
}

#[test]
fn full_row_wraps_to_next_line() {
    let mut w = writer();
    for _ in 0..80 {
        w.write_byte(b'a');
    }
    assert_eq!(w.column(), 80);
    w.write_byte(b'b');
    assert_eq!(w.column(), 1);
    assert_eq!(w.char_at(24, 0).ascii, b'b');
    assert_eq!(w.char_at(23, 0).ascii, b'a');
    assert_eq!(w.char_at(23, 79).ascii, b'a');
}

#[test]
fn double_fault_stack_is_configured_without_guard_page() {
    let ts = gdt::init(0x8000);
    assert_eq!(
        ts.ist_entry(gdt::DOUBLE_FAULT_IST_INDEX),
        0x8000 + gdt::DOUBLE_FAULT_STACK_SIZE
    );
    // The other slots stay unused.
    for slot in 1u16..7 {
        assert_eq!(ts.ist_entry(slot), 0);
    }
}

#[test]
fn interrupt_configs_bind_double_fault_to_dedicated_stack() {
    let boot = interrupts::init();
    assert!(boot.breakpoint_handled);
    assert_eq!(boot.double_fault_stack_slot, Some(gdt::DOUBLE_FAULT_IST_INDEX));
    let probe = interrupts::init_test_idt();
    assert!(!probe.breakpoint_handled);
    assert_eq!(probe.double_fault_stack_slot, Some(gdt::DOUBLE_FAULT_IST_INDEX));
}
