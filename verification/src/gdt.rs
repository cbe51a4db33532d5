//! Descriptor tables: the global descriptor table's code and task-state
//! segment descriptors, and the task state segment carrying the dedicated
//! double-fault stack. Built once at boot; the hardware edge loads them.

use vstd::prelude::*;

verus! {

/// Stack-table slot reserved for the double-fault exception's stack.
pub const DOUBLE_FAULT_IST_INDEX: u64 = 0;

/// The 64-bit kernel code segment descriptor: present, executable,
/// descriptor type set, long mode.
pub const KERNEL_CODE_DESCRIPTOR: u64 = 0x0020_9A00_0000_0000;

/// The task state segment: seven interrupt-stack-table slots, each either
/// zero (unused) or the top of a dedicated stack.
pub struct TaskStateSegment {
    pub interrupt_stack_table: Vec<u64>,
}

impl TaskStateSegment {
    pub open spec fn wf(self) -> bool {
        self.interrupt_stack_table.len() == 7
    }

    /// A TSS with no dedicated stacks.
    pub fn new() -> (tss: TaskStateSegment)
        ensures
            tss.wf(),
            forall|i: int| 0 <= i < 7 ==> tss.interrupt_stack_table@[i] == 0,
    {
        let mut t: Vec<u64> = Vec::new();
        let mut k: usize = 0;
        while k < 7
            invariant
                k <= 7,
                t.len() == k,
                forall|i: int| 0 <= i < k ==> t@[i] == 0,
            decreases 7 - k,
        {
            t.push(0);
            k = k + 1;
        }
        TaskStateSegment { interrupt_stack_table: t }
    }

    /// Dedicate the stack whose top is `stack_top` to slot `index`.
    pub fn set_stack(&mut self, index: usize, stack_top: u64)
        requires
            old(self).wf(),
            index < 7,
        ensures
            final(self).wf(),
            final(self).interrupt_stack_table@ == old(self).interrupt_stack_table@.update(
                index as int,
                stack_top,
            ),
    {
        let ghost pre = self.interrupt_stack_table@;
        self.interrupt_stack_table.remove(index);
        self.interrupt_stack_table.insert(index, stack_top);
        proof {
            assert(self.interrupt_stack_table@ =~= pre.update(index as int, stack_top));
        }
    }
}

/// The low quadword of a TSS system-segment descriptor for a segment at
/// `base` with the given `limit`: limit bits, base bits 0..24, type
/// "available 64-bit TSS" (0x9), present.
pub open spec fn spec_tss_descriptor_low(base: u64, limit: u32) -> u64 {
    ((limit & 0xFFFF) as u64) | (((base & 0xFF_FFFF) as u64) << 16) | (0x89u64 << 40) | ((((limit
        >> 16) & 0xF) as u64) << 48) | ((((base >> 24) & 0xFF) as u64) << 56)
}

/// The high quadword: base bits 32..64.
pub open spec fn spec_tss_descriptor_high(base: u64) -> u64 {
    base >> 32
}

/// Pack a TSS system-segment descriptor (it spans two GDT slots).
pub fn tss_descriptor(base: u64, limit: u32) -> (d: (u64, u64))
    ensures
        d.0 == spec_tss_descriptor_low(base, limit),
        d.1 == spec_tss_descriptor_high(base),
{
    let low = ((limit & 0xFFFF) as u64) | (((base & 0xFF_FFFF) as u64) << 16) | (0x89u64 << 40) | (
    (((limit >> 16) & 0xF) as u64) << 48) | ((((base >> 24) & 0xFF) as u64) << 56);
    let high = base >> 32;
    (low, high)
}

/// The global descriptor table under construction, and the selectors its
/// entries were handed out under.
pub struct Gdt {
    pub table: Vec<u64>,
}

impl Gdt {
    /// Slot 0 is the mandatory null descriptor.
    pub open spec fn wf(self) -> bool {
        self.table.len() >= 1 && self.table@[0] == 0
    }

    /// A table holding only the null descriptor.
    pub fn new() -> (g: Gdt)
        ensures
            g.wf(),
            g.table@ == seq![0u64],
    {
        let mut table: Vec<u64> = Vec::new();
        table.push(0);
        let g = Gdt { table };
        proof {
            assert(g.table@ =~= seq![0u64]);
        }
        g
    }

    /// Append a descriptor and hand back its ring-0 selector: the entry's
    /// byte offset in the table.
    pub fn add_entry(&mut self, descriptor: u64) -> (selector: u16)
        requires
            old(self).wf(),
            old(self).table.len() < 8192,
        ensures
            final(self).wf(),
            final(self).table@ == old(self).table@.push(descriptor),
            selector == old(self).table.len() * 8,
    {
        let index = self.table.len();
        self.table.push(descriptor);
        (index as u16) * 8
    }
}

} // verus!
