//! Protection fallback, part one: the task-state model holding the
//! interrupt stack table, with one slot reserved for a dedicated
//! double-fault stack. A fault while the memory subsystem runs (e.g. stack
//! exhaustion) then switches to that stack and is reported instead of
//! silently resetting the machine. Loading the resulting configuration into
//! the CPU is hardware work outside this crate.

use vstd::prelude::*;

verus! {

/// Interrupt-stack-table slot reserved for the double-fault handler.
pub const DOUBLE_FAULT_IST_INDEX: u16 = 0;

/// Number of interrupt-stack-table slots the architecture provides.
pub const IST_LEN: usize = 7;

/// Size in bytes of the statically reserved double-fault stack.
pub const DOUBLE_FAULT_STACK_SIZE: u64 = 4096;

/// The task-state model: seven interrupt-stack-table slots, each holding
/// the top address of an alternate stack, or zero when unused.
#[derive(Debug)]
pub struct TaskState {
    ist: Vec<u64>,
}

impl TaskState {
    pub closed spec fn view(self) -> Seq<u64> {
        self.ist@
    }

    pub open spec fn wf(self) -> bool {
        self.view().len() == IST_LEN
    }

    /// A task state with every alternate-stack slot unused.
    pub fn new() -> (r: TaskState)
        ensures
            r.wf(),
            forall|i: int| 0 <= i < IST_LEN ==> r.view()[i] == 0u64,
    {
        let mut ist: Vec<u64> = Vec::new();
        let mut i: usize = 0;
        while i < IST_LEN
            invariant
                i <= IST_LEN,
                ist@.len() == i as int,
                forall|j: int| 0 <= j < i as int ==> ist@[j] == 0u64,
            decreases IST_LEN - i,
        {
            ist.push(0);
            i = i + 1;
        }
        TaskState { ist }
    }

    pub fn ist_entry(&self, slot: u16) -> (r: u64)
        requires
            self.wf(),
            slot < 7,
        ensures
            r == self.view()[slot as int],
    {
        self.ist[slot as usize]
    }

    pub fn set_ist_entry(&mut self, slot: u16, stack_top: u64)
        requires
            old(self).wf(),
            slot < 7,
        ensures
            final(self).wf(),
            final(self).view() == old(self).view().update(slot as int, stack_top),
    {
        self.ist.set(slot as usize, stack_top);
    }
}

/// Populate the double-fault slot with the top of the statically reserved
/// stack region starting at `stack_start`. Stacks grow downwards, so the
/// slot holds the end of the region; no guard page lies below it —
/// overflowing this stack is an acknowledged unhandled case.
pub fn init(stack_start: u64) -> (r: TaskState)
    requires
        stack_start + DOUBLE_FAULT_STACK_SIZE <= u64::MAX,
    ensures
        r.wf(),
        r.view()[DOUBLE_FAULT_IST_INDEX as int] == stack_start + DOUBLE_FAULT_STACK_SIZE,
        forall|i: int|
            0 <= i < IST_LEN && i != DOUBLE_FAULT_IST_INDEX as int ==> r.view()[i] == 0u64,
{
    let mut ts = TaskState::new();
    ts.set_ist_entry(DOUBLE_FAULT_IST_INDEX, stack_start + DOUBLE_FAULT_STACK_SIZE);
    ts
}

} // verus!
