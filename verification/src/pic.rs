//! The dual 8259 programmable interrupt controller: remapping both
//! controllers off the BIOS vectors, masking, end-of-interrupt signalling,
//! and the priority model that decides when a line's interrupt may be
//! delivered. Port writes are returned as values; the hardware edge carries
//! them out in order.

use vstd::prelude::*;

verus! {

/// Command port of the master controller.
pub const PIC1_COMMAND: u16 = 0x20;

/// Data port of the master controller.
pub const PIC1_DATA: u16 = 0x21;

/// Command port of the slave controller.
pub const PIC2_COMMAND: u16 = 0xA0;

/// Data port of the slave controller.
pub const PIC2_DATA: u16 = 0xA1;

/// First initialization command word: begin init, expect a fourth word.
pub const ICW1_INIT: u8 = 0x11;

/// Fourth initialization command word: 8086 mode.
pub const ICW4_8086: u8 = 0x01;

/// The end-of-interrupt acknowledgment command.
pub const EOI_COMMAND: u8 = 0x20;

/// One byte written to one I/O port.
#[derive(Clone, Copy, PartialEq, Eq, Structural, Debug)]
pub struct PortWrite {
    pub port: u16,
    pub value: u8,
}

/// The remapped pair of 8259 controllers: vector offsets and interrupt
/// masks.
pub struct Pics {
    pub offset1: u8,
    pub offset2: u8,
    pub mask1: u8,
    pub mask2: u8,
    pub initialized: bool,
}

impl Pics {
    /// `vector` was remapped onto one of the two controllers.
    pub open spec fn handles_interrupt(self, vector: u8) -> bool {
        (self.offset1 <= vector < self.offset1 + 8) || (self.offset2 <= vector < self.offset2 + 8)
    }

    /// `vector` belongs to the slave controller.
    pub open spec fn handled_by_slave(self, vector: u8) -> bool {
        self.offset2 <= vector < self.offset2 + 8
    }

    /// A controller pair configured but not yet initialized on the hardware.
    pub fn new(offset1: u8, offset2: u8, mask1: u8, mask2: u8) -> (p: Pics)
        ensures
            p.offset1 == offset1,
            p.offset2 == offset2,
            p.mask1 == mask1,
            p.mask2 == mask2,
            !p.initialized,
    {
        Pics { offset1, offset2, mask1, mask2, initialized: false }
    }

    /// The standard four-command-word initialization conversation: begin
    /// init on both controllers, set the vector offsets, wire the cascade
    /// (slave on the master's line 2), select 8086 mode, and restore the
    /// masks. The returned writes must reach the ports in this order.
    pub fn initialize(&mut self) -> (writes: Vec<PortWrite>)
        ensures
            final(self).offset1 == old(self).offset1,
            final(self).offset2 == old(self).offset2,
            final(self).mask1 == old(self).mask1,
            final(self).mask2 == old(self).mask2,
            final(self).initialized,
            writes@ == seq![
                PortWrite { port: PIC1_COMMAND, value: ICW1_INIT },
                PortWrite { port: PIC2_COMMAND, value: ICW1_INIT },
                PortWrite { port: PIC1_DATA, value: old(self).offset1 },
                PortWrite { port: PIC2_DATA, value: old(self).offset2 },
                PortWrite { port: PIC1_DATA, value: 4u8 },
                PortWrite { port: PIC2_DATA, value: 2u8 },
                PortWrite { port: PIC1_DATA, value: ICW4_8086 },
                PortWrite { port: PIC2_DATA, value: ICW4_8086 },
                PortWrite { port: PIC1_DATA, value: old(self).mask1 },
                PortWrite { port: PIC2_DATA, value: old(self).mask2 },
            ],
    {
        let mut writes: Vec<PortWrite> = Vec::new();
        writes.push(PortWrite { port: PIC1_COMMAND, value: ICW1_INIT });
        writes.push(PortWrite { port: PIC2_COMMAND, value: ICW1_INIT });
        writes.push(PortWrite { port: PIC1_DATA, value: self.offset1 });
        writes.push(PortWrite { port: PIC2_DATA, value: self.offset2 });
        writes.push(PortWrite { port: PIC1_DATA, value: 4 });
        writes.push(PortWrite { port: PIC2_DATA, value: 2 });
        writes.push(PortWrite { port: PIC1_DATA, value: ICW4_8086 });
        writes.push(PortWrite { port: PIC2_DATA, value: ICW4_8086 });
        writes.push(PortWrite { port: PIC1_DATA, value: self.mask1 });
        writes.push(PortWrite { port: PIC2_DATA, value: self.mask2 });
        self.initialized = true;
        proof {
            assert(writes@ =~= seq![
                PortWrite { port: PIC1_COMMAND, value: ICW1_INIT },
                PortWrite { port: PIC2_COMMAND, value: ICW1_INIT },
                PortWrite { port: PIC1_DATA, value: old(self).offset1 },
                PortWrite { port: PIC2_DATA, value: old(self).offset2 },
                PortWrite { port: PIC1_DATA, value: 4u8 },
                PortWrite { port: PIC2_DATA, value: 2u8 },
                PortWrite { port: PIC1_DATA, value: ICW4_8086 },
                PortWrite { port: PIC2_DATA, value: ICW4_8086 },
                PortWrite { port: PIC1_DATA, value: old(self).mask1 },
                PortWrite { port: PIC2_DATA, value: old(self).mask2 },
            ]);
        }
        writes
    }

    /// The acknowledgment writes owed after servicing `vector`: the slave
    /// first if the interrupt came through it, then always the master for a
    /// handled vector; none for a vector the pair does not handle.
    pub fn notify_end_of_interrupt(&self, vector: u8) -> (writes: Vec<PortWrite>)
        ensures
            self.handled_by_slave(vector) ==> writes@ == seq![
                PortWrite { port: PIC2_COMMAND, value: EOI_COMMAND },
                PortWrite { port: PIC1_COMMAND, value: EOI_COMMAND },
            ],
            self.handles_interrupt(vector) && !self.handled_by_slave(vector) ==> writes@ == seq![
                PortWrite { port: PIC1_COMMAND, value: EOI_COMMAND },
            ],
            !self.handles_interrupt(vector) ==> writes@ == Seq::<PortWrite>::empty(),
    {
        let mut writes: Vec<PortWrite> = Vec::new();
        let slave = self.offset2 <= vector && (vector as u16) < self.offset2 as u16 + 8;
        let master = self.offset1 <= vector && (vector as u16) < self.offset1 as u16 + 8;
        if slave {
            writes.push(PortWrite { port: PIC2_COMMAND, value: EOI_COMMAND });
        }
        if slave || master {
            writes.push(PortWrite { port: PIC1_COMMAND, value: EOI_COMMAND });
        }
        proof {
            if self.handled_by_slave(vector) {
                assert(writes@ =~= seq![
                    PortWrite { port: PIC2_COMMAND, value: EOI_COMMAND },
                    PortWrite { port: PIC1_COMMAND, value: EOI_COMMAND },
                ]);
            } else if self.handles_interrupt(vector) {
                assert(writes@ =~= seq![PortWrite { port: PIC1_COMMAND, value: EOI_COMMAND }]);
            } else {
                assert(writes@ =~= Seq::<PortWrite>::empty());
            }
        }
        writes
    }
}

/// Which lines of the controller pair are in service (delivered, not yet
/// acknowledged). Line numbers order priority: line 0 is highest.
pub struct DeliveryState {
    pub in_service: Vec<bool>,
}

/// Some line of priority at least that of `line` (index at most `line`) is
/// in service in `s`.
pub open spec fn blocked_in(s: Seq<bool>, line: int) -> bool {
    exists|l: int| 0 <= l <= line && l < s.len() && s[l]
}

impl DeliveryState {
    /// Sixteen lines: eight per controller.
    pub open spec fn wf(self) -> bool {
        self.in_service.len() == 16
    }

    /// No line is awaiting its acknowledgment.
    pub open spec fn idle(self) -> bool {
        forall|l: int| 0 <= l < self.in_service.len() ==> !self.in_service@[l]
    }

    /// A controller pair with no interrupt in service.
    pub fn new() -> (s: DeliveryState)
        ensures
            s.wf(),
            s.idle(),
    {
        let mut v: Vec<bool> = Vec::new();
        let mut k: usize = 0;
        while k < 16
            invariant
                k <= 16,
                v.len() == k,
                forall|l: int| 0 <= l < k ==> !v@[l],
            decreases 16 - k,
        {
            v.push(false);
            k = k + 1;
        }
        DeliveryState { in_service: v }
    }

    /// A hardware interrupt arrives on `line`: it is delivered exactly when
    /// no line of the same or higher priority is still awaiting its
    /// end-of-interrupt; a delivered line enters service.
    pub fn try_deliver(&mut self, line: u8) -> (delivered: bool)
        requires
            old(self).wf(),
            line < 16,
        ensures
            final(self).wf(),
            delivered <==> !blocked_in(old(self).in_service@, line as int),
            delivered ==> final(self).in_service@ == old(self).in_service@.update(
                line as int,
                true,
            ),
            !delivered ==> *final(self) == *old(self),
    {
        let mut l: usize = 0;
        while l <= line as usize
            invariant
                *self == *old(self),
                self.wf(),
                line < 16,
                l <= line as usize + 1,
                forall|k: int| 0 <= k < l ==> !self.in_service@[k],
            decreases line as usize + 1 - l,
        {
            if self.in_service[l] {
                proof {
                    assert(blocked_in(self.in_service@, line as int));
                }
                return false;
            }
            l = l + 1;
        }
        let ghost pre = self.in_service@;
        self.in_service.remove(line as usize);
        self.in_service.insert(line as usize, true);
        proof {
            assert(self.in_service@ =~= pre.update(line as int, true));
        }
        true
    }

    /// Acknowledge the highest-priority line in service (what a non-specific
    /// end-of-interrupt command does), re-arming lines of the same or lower
    /// priority.
    pub fn acknowledge(&mut self) -> (line: Option<u8>)
        requires
            old(self).wf(),
        ensures
            final(self).wf(),
            line matches Some(l) ==> l < 16 && old(self).in_service@[l as int] && (forall|k: int|
                0 <= k < l ==> !old(self).in_service@[k]) && final(self).in_service@ == old(
                self,
            ).in_service@.update(l as int, false),
            line is None ==> old(self).idle() && *final(self) == *old(self),
    {
        let mut l: usize = 0;
        while l < 16
            invariant
                *self == *old(self),
                self.wf(),
                l <= 16,
                forall|k: int| 0 <= k < l ==> !self.in_service@[k],
            decreases 16 - l,
        {
            if self.in_service[l] {
                let ghost pre = self.in_service@;
                self.in_service.remove(l);
                self.in_service.insert(l, false);
                proof {
                    assert(self.in_service@ =~= pre.update(l as int, false));
                }
                return Some(l as u8);
            }
            l = l + 1;
        }
        None
    }
}

/// *End-of-interrupt ordering.* From an idle controller, an interrupt on
/// line `a` is delivered; while its acknowledgment is outstanding, a second
/// interrupt on `b`, of the same or lower priority, is not delivered; once
/// the end-of-interrupt for `a` is sent, `b` is delivered.
pub proof fn lemma_eoi_ordering(s: Seq<bool>, a: int, b: int)
    requires
        s.len() == 16,
        0 <= a <= b < 16,
        forall|l: int| 0 <= l < s.len() ==> !s[l],
    ensures
        !blocked_in(s, a),
        blocked_in(s.update(a, true), b),
        !blocked_in(s.update(a, true).update(a, false), b),
{
    assert(s.update(a, true)[a]);
    let cleared = s.update(a, true).update(a, false);
    assert forall|l: int| 0 <= l <= b && l < cleared.len() implies !cleared[l] by {
        if l != a {
            assert(cleared[l] == s[l]);
        }
    }
}

} // verus!
