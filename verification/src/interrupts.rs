//! Protection fallback, part two: which exception vectors are configured,
//! and which alternate stack the double-fault vector switches to. Loading
//! the table into the CPU is hardware work outside this crate.

use vstd::prelude::*;
use crate::gdt::DOUBLE_FAULT_IST_INDEX;

verus! {

/// The interrupt configuration this kernel installs: whether a breakpoint
/// handler is present, and the interrupt-stack-table slot the double-fault
/// vector runs on, if one is set.
#[derive(Clone, Copy, PartialEq, Eq, Structural, Debug)]
pub struct InterruptConfig {
    pub breakpoint_handled: bool,
    pub double_fault_stack_slot: Option<u16>,
}

/// The boot-time configuration: breakpoint handler installed and the
/// double-fault vector bound to the dedicated stack slot.
pub fn init() -> (r: InterruptConfig)
    ensures
        r.breakpoint_handled,
        r.double_fault_stack_slot == Some(DOUBLE_FAULT_IST_INDEX),
{
    InterruptConfig {
        breakpoint_handled: true,
        double_fault_stack_slot: Some(DOUBLE_FAULT_IST_INDEX),
    }
}

/// The reduced table used when probing the double-fault path alone: only
/// the double-fault vector is configured, again on the dedicated stack.
pub fn init_test_idt() -> (r: InterruptConfig)
    ensures
        !r.breakpoint_handled,
        r.double_fault_stack_slot == Some(DOUBLE_FAULT_IST_INDEX),
{
    InterruptConfig {
        breakpoint_handled: false,
        double_fault_stack_slot: Some(DOUBLE_FAULT_IST_INDEX),
    }
}

} // verus!
