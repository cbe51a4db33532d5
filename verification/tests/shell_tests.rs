use elios_core::gdt::{tss_descriptor, Gdt, TaskStateSegment, KERNEL_CODE_DESCRIPTOR};
use elios_core::keyboard::{KeyInput, KeyboardDecoder};
use elios_core::processes::{Process, ProcessState};
use elios_core::shell::CommandRegistry;

#[test]
fn command_registration_and_lookup() {
    let mut reg = CommandRegistry::new();
    assert_eq!(reg.get_handler(&b"test".to_vec()), None);
    reg.register_command(b"test".to_vec(), 11, b"test program".to_vec());
    reg.register_command(b"help".to_vec(), 12, b"print this help message".to_vec());
    assert_eq!(reg.get_handler(&b"test".to_vec()), Some(11));
    assert_eq!(reg.get_handler(&b"help".to_vec()), Some(12));
    assert_eq!(reg.get_handler(&b"nope".to_vec()), None);
    // Re-registration replaces: the last writer wins.
    reg.register_command(b"test".to_vec(), 42, b"newer test".to_vec());
    assert_eq!(reg.get_handler(&b"test".to_vec()), Some(42));
    assert_eq!(reg.get_handler(&b"help".to_vec()), Some(12));
}

#[test]
fn init_shell_installs_keyboard_callback_and_test_command() {
    let mut handlers = elios_core::handlers::HandlerRegistry::new();
    handlers.register_timer_handler(1);
    handlers.register_keyboard_handler(99);
    let (shell, commands) = elios_core::shell::init_shell(&mut handlers, 2, 11);
    assert_eq!(handlers.keyboard, Some(2), "the shell's callback replaces the old one");
    assert_eq!(handlers.timer, Some(1), "the timer slot is untouched");
    assert_eq!(shell.cursor, 0);
    assert_eq!(commands.get_handler(&b"test".to_vec()), Some(11));
}

#[test]
fn scancode_a_decodes_to_character() {
    let mut kb = KeyboardDecoder::new();
    // Scan-code set 1: 0x1E is the "A" key going down.
    assert_eq!(kb.decode_scancode(0x1E), Some(KeyInput::Char('a')));
    // 0xE0 starts an extended sequence: incomplete, nothing decoded yet.
    assert_eq!(kb.decode_scancode(0xE0), None);
}

#[test]
fn tss_descriptor_packs_base_and_limit() {
    let (low, high) = tss_descriptor(0, 103);
    assert_eq!(low, 103 | (0x89u64 << 40));
    assert_eq!(high, 0);
    let (low, high) = tss_descriptor(0x1_2345_6789, 103);
    assert_eq!(low & 0xFFFF, 103);
    assert_eq!((low >> 16) & 0xFF_FFFF, 0x45_6789);
    assert_eq!((low >> 56) & 0xFF, 0x23);
    assert_eq!(high, 0x1_2345_6789u64 >> 32);
}

#[test]
fn gdt_selectors_are_byte_offsets() {
    let mut gdt = Gdt::new();
    let code = gdt.add_entry(KERNEL_CODE_DESCRIPTOR);
    assert_eq!(code, 8);
    let (low, _high) = tss_descriptor(0x9000, 103);
    let tss_sel = gdt.add_entry(low);
    assert_eq!(tss_sel, 16);
    assert_eq!(gdt.table[0], 0, "slot 0 stays the null descriptor");
    assert_eq!(gdt.table[1], KERNEL_CODE_DESCRIPTOR);
}

#[test]
fn tss_double_fault_stack_slot() {
    let mut tss = TaskStateSegment::new();
    tss.set_stack(0, 0xCAFE_0000);
    assert_eq!(tss.interrupt_stack_table[0], 0xCAFE_0000);
    assert_eq!(tss.interrupt_stack_table[1], 0);
}

#[test]
fn process_starts_waiting() {
    let p = Process::new(3, 0x7000, 0x4000, 0x1000);
    assert_eq!(p.pid, 3);
    assert!(matches!(p.state, ProcessState::Waiting));
    assert_eq!(p.frame.instruction_pointer, 0x4000);
    assert_eq!(p.frame.stack_pointer, 0x7000);
}
