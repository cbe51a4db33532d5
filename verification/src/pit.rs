//! The programmable interval timer: the one-shot frequency-divider write
//! sequence. The returned port writes are carried out by the hardware edge
//! with interrupts disabled.

use vstd::prelude::*;
use crate::pic::PortWrite;

verus! {

/// The PIT command port.
pub const PIT_COMMAND: u16 = 0x43;

/// The PIT channel-0 data port.
pub const PIT_CHANNEL0: u16 = 0x40;

/// The mode/command byte selecting channel 0, lobyte/hibyte access, square
/// wave.
pub const PIT_SET_DIVISOR: u8 = 0x36;

/// The write sequence that sets the timer's frequency divider: the command
/// byte, then the divisor's two bytes little-endian on channel 0.
pub fn set_pit_frequency(divider: u16) -> (writes: Vec<PortWrite>)
    ensures
        writes@ == seq![
            PortWrite { port: PIT_COMMAND, value: PIT_SET_DIVISOR },
            PortWrite { port: PIT_CHANNEL0, value: (divider & 0xff) as u8 },
            PortWrite { port: PIT_CHANNEL0, value: (divider >> 8) as u8 },
        ],
{
    let lo = (divider & 0xff) as u8;
    let hi = (divider >> 8) as u8;
    let mut writes: Vec<PortWrite> = Vec::new();
    writes.push(PortWrite { port: PIT_COMMAND, value: PIT_SET_DIVISOR });
    writes.push(PortWrite { port: PIT_CHANNEL0, value: lo });
    writes.push(PortWrite { port: PIT_CHANNEL0, value: hi });
    proof {
        assert(writes@ =~= seq![
            PortWrite { port: PIT_COMMAND, value: PIT_SET_DIVISOR },
            PortWrite { port: PIT_CHANNEL0, value: (divider & 0xff) as u8 },
            PortWrite { port: PIT_CHANNEL0, value: (divider >> 8) as u8 },
        ]);
    }
    writes
}

} // verus!
