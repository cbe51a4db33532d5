//! The handler registry and the dispatch model: one replaceable callback
//! slot per hardware event kind (timer tick, decoded key event), and a
//! simulator that delivers interrupts through the priority model, invokes
//! the registered handler, and acknowledges the controller. Callbacks are
//! identified by opaque handles; the hardware edge maps a handle to the
//! actual function it installed.

use vstd::prelude::*;
use crate::pic::DeliveryState;

verus! {

/// The two hardware events the registry dispatches.
#[derive(Clone, Copy, PartialEq, Eq, Structural, Debug)]
pub enum EventKind {
    TimerTick,
    KeyEvent,
}

/// One slot per event kind, each holding at most one callback handle.
/// Registering a new handler replaces the previous one; there is no chain.
#[derive(Clone, Copy, PartialEq, Eq, Structural, Debug)]
pub struct HandlerRegistry {
    pub timer: Option<u64>,
    pub keyboard: Option<u64>,
}

/// `reg` after a timer-handler registration of `h`.
pub open spec fn with_timer(reg: HandlerRegistry, h: u64) -> HandlerRegistry {
    HandlerRegistry { timer: Some(h), keyboard: reg.keyboard }
}

/// `reg` after a keyboard-handler registration of `h`.
pub open spec fn with_keyboard(reg: HandlerRegistry, h: u64) -> HandlerRegistry {
    HandlerRegistry { timer: reg.timer, keyboard: Some(h) }
}

impl HandlerRegistry {
    /// A registry with no handler installed: events are dropped.
    pub fn new() -> (reg: HandlerRegistry)
        ensures
            reg.timer is None,
            reg.keyboard is None,
    {
        HandlerRegistry { timer: None, keyboard: None }
    }

    /// Install `h` as the timer-tick callback, replacing any previous one.
    pub fn register_timer_handler(&mut self, h: u64)
        ensures
            *final(self) == with_timer(*old(self), h),
    {
        self.timer = Some(h);
    }

    /// Install `h` as the keyboard callback, replacing any previous one.
    pub fn register_keyboard_handler(&mut self, h: u64)
        ensures
            *final(self) == with_keyboard(*old(self), h),
    {
        self.keyboard = Some(h);
    }
}

/// *Handler replacement.* Registering handler `b` for an event after
/// handler `a` leaves only `b` installed: every later occurrence of the
/// event dispatches to `b`, and to `a` never again (unless `a == b`).
pub proof fn lemma_handler_replacement(reg: HandlerRegistry, a: u64, b: u64)
    ensures
        with_timer(with_timer(reg, a), b).timer == Some(b),
        a != b ==> with_timer(with_timer(reg, a), b).timer != Some(a),
        with_keyboard(with_keyboard(reg, a), b).keyboard == Some(b),
        a != b ==> with_keyboard(with_keyboard(reg, a), b).keyboard != Some(a),
        with_timer(with_timer(reg, a), b).keyboard == reg.keyboard,
        with_keyboard(with_keyboard(reg, a), b).timer == reg.timer,
{
}

/// One recorded handler invocation.
#[derive(Clone, Copy, PartialEq, Eq, Structural, Debug)]
pub struct Invocation {
    pub kind: EventKind,
    pub handler: u64,
}

/// How many invocations of `kind` the log holds.
pub open spec fn count_kind(s: Seq<Invocation>, kind: EventKind) -> int
    decreases s.len(),
{
    if s.len() == 0 {
        0
    } else {
        (if s[0].kind == kind {
            1int
        } else {
            0int
        }) + count_kind(s.drop_first(), kind)
    }
}

/// The dispatch machine: the registry, the controller's in-service state, a
/// monotonically increasing tick counter handed to the timer handler, and
/// the log of handler invocations.
pub struct Dispatcher {
    pub registry: HandlerRegistry,
    pub lines: DeliveryState,
    pub ticks: u64,
    pub log: Vec<Invocation>,
}

/// The timer sits on line 0, the keyboard on line 1.
pub const TIMER_LINE: u8 = 0;

/// The keyboard's interrupt line.
pub const KEYBOARD_LINE: u8 = 1;

impl Dispatcher {
    pub open spec fn wf(self) -> bool {
        self.lines.wf()
    }

    /// A dispatcher around `registry` with an idle controller and no events
    /// seen yet.
    pub fn new(registry: HandlerRegistry) -> (d: Dispatcher)
        ensures
            d.wf(),
            d.registry == registry,
            d.lines.idle(),
            d.ticks == 0,
            d.log@ == Seq::<Invocation>::empty(),
    {
        Dispatcher { registry, lines: DeliveryState::new(), ticks: 0, log: Vec::new() }
    }

    /// One timer interrupt: if the line is free, the tick counter advances,
    /// the registered timer handler (if any) runs with it, and the
    /// controller is acknowledged before returning, so the line is free
    /// again. The keyboard slot is untouched.
    pub fn deliver_timer(&mut self) -> (delivered: bool)
        requires
            old(self).wf(),
            old(self).ticks < u64::MAX,
        ensures
            final(self).wf(),
            final(self).registry == old(self).registry,
            delivered <==> !crate::pic::blocked_in(old(self).lines.in_service@, TIMER_LINE as int),
            delivered ==> final(self).ticks == old(self).ticks + 1 && final(self).lines.in_service@
                == old(self).lines.in_service@.update(TIMER_LINE as int, true).update(
                TIMER_LINE as int,
                false,
            ) && (match old(self).registry.timer {
                Some(h) => final(self).log@ == old(self).log@.push(
                    Invocation { kind: EventKind::TimerTick, handler: h },
                ),
                None => final(self).log@ == old(self).log@,
            }),
            !delivered ==> *final(self) == *old(self),
    {
        let delivered = self.lines.try_deliver(TIMER_LINE);
        if !delivered {
            return false;
        }
        self.ticks = self.ticks + 1;
        match self.registry.timer {
            Some(h) => {
                self.log.push(Invocation { kind: EventKind::TimerTick, handler: h });
            },
            None => {},
        }
        let ghost after_deliver = self.lines.in_service@;
        let acked = self.lines.acknowledge();
        proof {
            assert(after_deliver[TIMER_LINE as int]);
            match acked {
                Some(l) => {
                    assert(l == TIMER_LINE) by {
                        if l != TIMER_LINE {
                            assert(!after_deliver[TIMER_LINE as int]);
                        }
                    }
                },
                None => {
                    assert(!after_deliver[TIMER_LINE as int]);
                },
            }
        }
        true
    }

    /// One keyboard interrupt carrying what the decoder made of the port
    /// byte: delivered when no line of the same or higher priority is in
    /// service; a decoded input is handed to the registered keyboard handler,
    /// an incomplete or unrecognized sequence (`None`) is ignored, not
    /// crashed on. Acknowledged before returning.
    pub fn deliver_keyboard(&mut self, key: Option<crate::keyboard::KeyInput>) -> (delivered: bool)
        requires
            old(self).wf(),
        ensures
            final(self).wf(),
            final(self).registry == old(self).registry,
            final(self).ticks == old(self).ticks,
            delivered <==> !crate::pic::blocked_in(
                old(self).lines.in_service@,
                KEYBOARD_LINE as int,
            ),
            delivered ==> final(self).lines.in_service@ == old(self).lines.in_service@.update(
                KEYBOARD_LINE as int,
                true,
            ).update(KEYBOARD_LINE as int, false) && (match (key, old(self).registry.keyboard) {
                (Some(_), Some(h)) => final(self).log@ == old(self).log@.push(
                    Invocation { kind: EventKind::KeyEvent, handler: h },
                ),
                _ => final(self).log@ == old(self).log@,
            }),
            !delivered ==> *final(self) == *old(self),
    {
        let delivered = self.lines.try_deliver(KEYBOARD_LINE);
        if !delivered {
            return false;
        }
        match (key, self.registry.keyboard) {
            (Some(_), Some(h)) => {
                self.log.push(Invocation { kind: EventKind::KeyEvent, handler: h });
            },
            _ => {},
        }
        let ghost after_deliver = self.lines.in_service@;
        let acked = self.lines.acknowledge();
        proof {
            assert(after_deliver[KEYBOARD_LINE as int]);
            assert(!after_deliver[TIMER_LINE as int]);
            match acked {
                Some(l) => {
                    assert(l == KEYBOARD_LINE) by {
                        if l != KEYBOARD_LINE && l != TIMER_LINE {
                            assert(!after_deliver[KEYBOARD_LINE as int]);
                        }
                    }
                },
                None => {
                    assert(!after_deliver[KEYBOARD_LINE as int]);
                },
            }
        }
        true
    }

    /// Run `n` back-to-back timer interrupts from an idle controller: each
    /// is delivered only after the previous acknowledgment, the tick counter
    /// advances by exactly `n`, the timer handler is invoked exactly `n`
    /// times, and the keyboard handler not at all.
    pub fn run_timer_ticks(&mut self, n: u64) -> (delivered: u64)
        requires
            old(self).wf(),
            old(self).lines.idle(),
            old(self).ticks + n <= u64::MAX,
        ensures
            final(self).wf(),
            final(self).registry == old(self).registry,
            delivered == n,
            final(self).ticks == old(self).ticks + n,
            old(self).registry.timer is Some ==> count_kind(final(self).log@, EventKind::TimerTick)
                == count_kind(old(self).log@, EventKind::TimerTick) + n,
            old(self).registry.timer is None ==> final(self).log@ == old(self).log@,
            count_kind(final(self).log@, EventKind::KeyEvent) == count_kind(
                old(self).log@,
                EventKind::KeyEvent,
            ),
    {
        let mut done: u64 = 0;
        while done < n
            invariant
                self.wf(),
                self.lines.idle(),
                self.registry == old(self).registry,
                0 <= done <= n,
                old(self).ticks + n <= u64::MAX,
                self.ticks == old(self).ticks + done,
                old(self).registry.timer is Some ==> count_kind(self.log@, EventKind::TimerTick)
                    == count_kind(old(self).log@, EventKind::TimerTick) + done,
                old(self).registry.timer is None ==> self.log@ == old(self).log@,
                count_kind(self.log@, EventKind::KeyEvent) == count_kind(
                    old(self).log@,
                    EventKind::KeyEvent,
                ),
            decreases n - done,
        {
            let ghost pre_log = self.log@;
            let ghost pre_lines = self.lines.in_service@;
            let ok = self.deliver_timer();
            proof {
                assert(ok) by {
                    if crate::pic::blocked_in(pre_lines, TIMER_LINE as int) {
                        let l = choose|l: int|
                            0 <= l <= TIMER_LINE as int && l < pre_lines.len() && pre_lines[l];
                    }
                }
                assert forall|l: int| 0 <= l < self.lines.in_service@.len() implies !self.lines.in_service@[l] by {
                    if l != TIMER_LINE as int {
                        assert(self.lines.in_service@[l] == pre_lines[l]);
                    }
                }
                match old(self).registry.timer {
                    Some(h) => {
                        lemma_count_push(pre_log, Invocation { kind: EventKind::TimerTick, handler: h });
                    },
                    None => {},
                }
            }
            done = done + 1;
        }
        done
    }
}

/// Appending one invocation raises its kind's count by one and leaves the
/// other kind's count unchanged.
proof fn lemma_count_push(s: Seq<Invocation>, inv: Invocation)
    ensures
        forall|k: EventKind|
            count_kind(s.push(inv), k) == count_kind(s, k) + (if inv.kind == k {
                1int
            } else {
                0int
            }),
    decreases s.len(),
{
    if s.len() == 0 {
        assert forall|k: EventKind|
            count_kind(s.push(inv), k) == count_kind(s, k) + (if inv.kind == k {
                1int
            } else {
                0int
            }) by {
            assert(s.push(inv).len() == 1);
            assert(s.push(inv)[0] == inv);
            assert(s.push(inv).drop_first() =~= Seq::<Invocation>::empty());
            assert(count_kind(Seq::<Invocation>::empty(), k) == 0);
            assert(count_kind(s, k) == 0);
        }
    } else {
        lemma_count_push(s.drop_first(), inv);
        assert forall|k: EventKind|
            count_kind(s.push(inv), k) == count_kind(s, k) + (if inv.kind == k {
                1int
            } else {
                0int
            }) by {
            assert(s.push(inv)[0] == s[0]);
            assert(s.push(inv).drop_first() =~= s.drop_first().push(inv));
            assert(count_kind(s.push(inv), k) == (if s[0].kind == k {
                1int
            } else {
                0int
            }) + count_kind(s.drop_first().push(inv), k));
            assert(count_kind(s, k) == (if s[0].kind == k {
                1int
            } else {
                0int
            }) + count_kind(s.drop_first(), k));
        }
    }
}

} // verus!
