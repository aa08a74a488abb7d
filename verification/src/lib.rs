//! Virtual-memory bring-up for a minimal bare-metal kernel, as verified data
//! structures: address decomposition, a frame source over the firmware memory
//! map, a four-level page-table model with translation and mapping, heap
//! bootstrap, the double-fault stack configuration, and the text console
//! state machine. Hardware access (control registers, physical memory,
//! ports) lives outside this crate; everything here is plain values.


pub mod addr;
pub mod allocator;
pub mod frame;
pub mod frame_source;
pub mod gdt;
pub mod interrupts;
pub mod mapper;
pub mod memory_map;
pub mod table;
pub mod vga;


