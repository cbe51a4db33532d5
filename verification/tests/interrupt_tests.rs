use elios_core::handlers::{Dispatcher, EventKind, HandlerRegistry};
use elios_core::interrupts::{
    Idt, InterruptSetup, SetupPhase, DOUBLE_FAULT_VECTOR, KEYBOARD_VECTOR, TIMER_VECTOR,
};
use elios_core::pic::{DeliveryState, Pics, PortWrite};
use elios_core::pit::set_pit_frequency;

#[test]
fn pit_divisor_write_sequence() {
    // Command byte 0x36, then the 16-bit divisor little-endian on channel 0.
    let writes = set_pit_frequency(0xFFFF);
    assert_eq!(writes.len(), 3);
    assert_eq!(writes[0], PortWrite { port: 0x43, value: 0x36 });
    assert_eq!(writes[1], PortWrite { port: 0x40, value: 0xFF });
    assert_eq!(writes[2], PortWrite { port: 0x40, value: 0xFF });
    let writes = set_pit_frequency(0x1234);
    assert_eq!(writes[1], PortWrite { port: 0x40, value: 0x34 });
    assert_eq!(writes[2], PortWrite { port: 0x40, value: 0x12 });
}

#[test]
fn pic_initialization_sequence() {
    let mut pics = Pics::new(32, 40, 0, 0);
    let w = pics.initialize();
    let expected = [
        (0x20, 0x11),
        (0xA0, 0x11),
        (0x21, 32),
        (0xA1, 40),
        (0x21, 4),
        (0xA1, 2),
        (0x21, 0x01),
        (0xA1, 0x01),
        (0x21, 0),
        (0xA1, 0),
    ];
    assert_eq!(w.len(), expected.len());
    for (got, want) in w.iter().zip(expected.iter()) {
        assert_eq!((got.port, got.value), *want);
    }
}

#[test]
fn eoi_acknowledges_the_right_controllers() {
    let pics = Pics::new(32, 40, 0, 0);
    let master = pics.notify_end_of_interrupt(32);
    assert_eq!(master.len(), 1);
    assert_eq!(master[0], PortWrite { port: 0x20, value: 0x20 });
    let slave = pics.notify_end_of_interrupt(44);
    assert_eq!(slave.len(), 2);
    assert_eq!(slave[0], PortWrite { port: 0xA0, value: 0x20 });
    assert_eq!(slave[1], PortWrite { port: 0x20, value: 0x20 });
    let none = pics.notify_end_of_interrupt(5);
    assert_eq!(none.len(), 0);
}

#[test]
fn second_irq_waits_for_eoi() {
    // Two back-to-back interrupts: the second (same or lower priority) is
    // not delivered until the first one's end-of-interrupt.
    let mut lines = DeliveryState::new();
    assert!(lines.try_deliver(0), "idle controller delivers");
    assert!(!lines.try_deliver(0), "same line blocked before EOI");
    assert!(!lines.try_deliver(1), "lower priority blocked before EOI");
    assert_eq!(lines.acknowledge(), Some(0));
    assert!(lines.try_deliver(1), "delivered after the EOI");
    assert_eq!(lines.acknowledge(), Some(1));
    assert_eq!(lines.acknowledge(), None);
}

#[test]
fn hundred_timer_ticks_invoke_only_the_timer_handler() {
    // A handler that increments a counter, modelled as handle 7: after 100
    // deliveries its invocation count is exactly 100 and the keyboard
    // handler was never invoked.
    let mut registry = HandlerRegistry::new();
    registry.register_timer_handler(7);
    registry.register_keyboard_handler(9);
    let mut d = Dispatcher::new(registry);
    let delivered = d.run_timer_ticks(100);
    assert_eq!(delivered, 100);
    assert_eq!(d.ticks, 100);
    let timer_count = d
        .log
        .iter()
        .filter(|i| i.kind == EventKind::TimerTick && i.handler == 7)
        .count();
    let key_count = d.log.iter().filter(|i| i.kind == EventKind::KeyEvent).count();
    assert_eq!(timer_count, 100);
    assert_eq!(key_count, 0);
}

#[test]
fn registering_b_after_a_invokes_only_b() {
    let mut registry = HandlerRegistry::new();
    registry.register_timer_handler(1);
    registry.register_timer_handler(2);
    assert_eq!(registry.timer, Some(2));
    let mut d = Dispatcher::new(registry);
    assert!(d.deliver_timer());
    assert_eq!(d.log.len(), 1);
    assert_eq!(d.log[0].handler, 2, "handler B runs");
    assert!(d.log.iter().all(|i| i.handler != 1), "handler A never runs again");
}

#[test]
fn keyboard_event_reaches_the_keyboard_handler() {
    let mut registry = HandlerRegistry::new();
    registry.register_keyboard_handler(5);
    let mut d = Dispatcher::new(registry);
    assert!(d.deliver_keyboard(Some(elios_core::keyboard::KeyInput::Char('x'))));
    assert_eq!(d.log.len(), 1);
    assert_eq!(d.log[0].kind, EventKind::KeyEvent);
    assert_eq!(d.log[0].handler, 5);
    // An undecoded byte is ignored, not crashed on.
    assert!(d.deliver_keyboard(None));
    assert_eq!(d.log.len(), 1);
}

#[test]
fn idt_is_fully_populated_before_load() {
    let mut idt = Idt::new(0xDEAD, 8);
    for v in 0..256usize {
        assert!(idt.gates[v].present, "no vector left pointing at garbage");
    }
    idt.set_handler(TIMER_VECTOR, 0x1000, 8);
    idt.set_handler(KEYBOARD_VECTOR, 0x2000, 8);
    idt.set_handler_with_stack(DOUBLE_FAULT_VECTOR, 0x3000, 8, 1);
    assert_eq!(idt.gates[TIMER_VECTOR as usize].handler, 0x1000);
    assert_eq!(idt.gates[KEYBOARD_VECTOR as usize].handler, 0x2000);
    assert_eq!(idt.gates[DOUBLE_FAULT_VECTOR as usize].stack_index, 1);
    let mut setup = InterruptSetup::new(idt);
    assert_eq!(setup.phase, SetupPhase::TableBuilt);
    setup.load();
    assert_eq!(setup.phase, SetupPhase::Loaded);
    setup.enable_interrupts();
    assert_eq!(setup.phase, SetupPhase::InterruptsEnabled);
}
