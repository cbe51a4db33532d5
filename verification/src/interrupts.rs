//! The interrupt descriptor table and the setup state machine: 256 gates,
//! every one written before the table may be loaded, the double fault on its
//! dedicated stack, and interrupts enabled only after the controllers are
//! initialized.

use vstd::prelude::*;

verus! {

/// The divide-error exception vector.
pub const DIVIDE_ERROR_VECTOR: u8 = 0;

/// The breakpoint exception vector.
pub const BREAKPOINT_VECTOR: u8 = 3;

/// The double-fault exception vector.
pub const DOUBLE_FAULT_VECTOR: u8 = 8;

/// The page-fault exception vector.
pub const PAGE_FAULT_VECTOR: u8 = 14;

/// First vector of the remapped hardware interrupt range.
pub const PIC_OFFSET: u8 = 32;

/// The remapped timer vector.
pub const TIMER_VECTOR: u8 = 32;

/// The remapped keyboard vector.
pub const KEYBOARD_VECTOR: u8 = 33;

/// One interrupt gate: a handler entry point, the code segment to run it
/// in, and which interrupt-stack-table slot to switch to (0 = none,
/// 1..=7 = slot index plus one, as the hardware encodes it).
#[derive(Clone, Copy, PartialEq, Eq, Structural, Debug)]
pub struct Gate {
    pub present: bool,
    pub handler: u64,
    pub selector: u16,
    pub stack_index: u8,
}

/// The 256-entry interrupt descriptor table.
pub struct Idt {
    pub gates: Vec<Gate>,
}

impl Idt {
    pub open spec fn wf(self) -> bool {
        self.gates.len() == 256
    }

    /// Every vector points at a real handler: the invariant the loader
    /// demands, so no vector is left pointing at garbage.
    pub open spec fn all_present(self) -> bool {
        forall|v: int| 0 <= v < 256 ==> (#[trigger] self.gates@[v]).present
    }

    /// A table whose every gate runs `fallback` in segment `selector` on the
    /// running stack: built fully populated, then overridden per vector.
    pub fn new(fallback: u64, selector: u16) -> (idt: Idt)
        ensures
            idt.wf(),
            idt.all_present(),
            forall|v: int|
                0 <= v < 256 ==> (#[trigger] idt.gates@[v]) == (Gate {
                    present: true,
                    handler: fallback,
                    selector,
                    stack_index: 0,
                }),
    {
        let mut gates: Vec<Gate> = Vec::new();
        let mut k: usize = 0;
        while k < 256
            invariant
                k <= 256,
                gates.len() == k,
                forall|v: int|
                    0 <= v < k ==> (#[trigger] gates@[v]) == (Gate {
                        present: true,
                        handler: fallback,
                        selector,
                        stack_index: 0,
                    }),
            decreases 256 - k,
        {
            gates.push(Gate { present: true, handler: fallback, selector, stack_index: 0 });
            k = k + 1;
        }
        Idt { gates }
    }

    /// Bind `vector` to `handler` in segment `selector`, staying on the
    /// running stack.
    pub fn set_handler(&mut self, vector: u8, handler: u64, selector: u16)
        requires
            old(self).wf(),
        ensures
            final(self).wf(),
            final(self).gates@ == old(self).gates@.update(
                vector as int,
                Gate { present: true, handler, selector, stack_index: 0 },
            ),
            old(self).all_present() ==> final(self).all_present(),
    {
        self.set_gate(vector, Gate { present: true, handler, selector, stack_index: 0 });
    }

    /// Bind `vector` to `handler`, switching to interrupt stack `stack_index`
    /// (hardware encoding: slot + 1) on entry. The double-fault gate uses
    /// this so a stack overflow stays diagnosable.
    pub fn set_handler_with_stack(&mut self, vector: u8, handler: u64, selector: u16, stack_index: u8)
        requires
            old(self).wf(),
            1 <= stack_index <= 7,
        ensures
            final(self).wf(),
            final(self).gates@ == old(self).gates@.update(
                vector as int,
                Gate { present: true, handler, selector, stack_index },
            ),
            old(self).all_present() ==> final(self).all_present(),
    {
        self.set_gate(vector, Gate { present: true, handler, selector, stack_index });
    }

    /// Write one gate.
    fn set_gate(&mut self, vector: u8, gate: Gate)
        requires
            old(self).wf(),
        ensures
            final(self).wf(),
            final(self).gates@ == old(self).gates@.update(vector as int, gate),
            old(self).all_present() && gate.present ==> final(self).all_present(),
    {
        let ghost pre = self.gates@;
        self.gates.remove(vector as usize);
        self.gates.insert(vector as usize, gate);
        proof {
            assert(self.gates@ =~= pre.update(vector as int, gate));
            if old(self).all_present() && gate.present {
                assert forall|v: int| 0 <= v < 256 implies (#[trigger] self.gates@[v]).present by {
                    if v != vector as int {
                        assert(self.gates@[v] == pre[v]);
                    }
                }
            }
        }
    }
}

/// Where the boot sequence stands: the table may only be loaded once fully
/// built, and interrupts only enabled once it is loaded.
#[derive(Clone, Copy, PartialEq, Eq, Structural, Debug)]
pub enum SetupPhase {
    Unbuilt,
    TableBuilt,
    Loaded,
    InterruptsEnabled,
}

/// The interrupt subsystem's setup state machine.
pub struct InterruptSetup {
    pub idt: Idt,
    pub phase: SetupPhase,
}

impl InterruptSetup {
    pub open spec fn wf(self) -> bool {
        &&& self.idt.wf()
        &&& (self.phase != SetupPhase::Unbuilt ==> self.idt.all_present())
    }

    /// Take a fully built table; only then can the sequence advance.
    pub fn new(idt: Idt) -> (s: InterruptSetup)
        requires
            idt.wf(),
            idt.all_present(),
        ensures
            s.wf(),
            s.phase == SetupPhase::TableBuilt,
            s.idt == idt,
    {
        InterruptSetup { idt, phase: SetupPhase::TableBuilt }
    }

    /// Load the table into the CPU (the edge runs the load instruction):
    /// only a fully built table may be loaded, and only once.
    pub fn load(&mut self)
        requires
            old(self).wf(),
            old(self).phase == SetupPhase::TableBuilt,
        ensures
            final(self).wf(),
            final(self).idt == old(self).idt,
            final(self).phase == SetupPhase::Loaded,
    {
        self.phase = SetupPhase::Loaded;
    }

    /// Enable hardware interrupts: only after the table is loaded, so no
    /// vector can fire into garbage.
    pub fn enable_interrupts(&mut self)
        requires
            old(self).wf(),
            old(self).phase == SetupPhase::Loaded,
        ensures
            final(self).wf(),
            final(self).idt == old(self).idt,
            final(self).phase == SetupPhase::InterruptsEnabled,
    {
        self.phase = SetupPhase::InterruptsEnabled;
    }
}

} // verus!
