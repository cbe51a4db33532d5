use elios_core::keyboard::KeyInput;
use elios_core::shell::{CommandRegistry, Shell, ShellAction, ShellEffect};
use elios_core::writer::{Writer, WHITE};

#[test]
fn write_byte_advances_the_cursor() {
    let mut w = Writer::new(0);
    w.write_byte(b'h', WHITE);
    w.write_byte(b'i', WHITE);
    assert_eq!(w.column_position, 2);
    assert_eq!(w.get_char(24, 0), (b'h', WHITE));
    assert_eq!(w.get_char(24, 1), (b'i', WHITE));
    assert_eq!(w.get_char(24, 2), (b' ', WHITE));
}

#[test]
fn newline_scrolls_one_row_up() {
    let mut w = Writer::new(0);
    w.write_byte(b'x', 7);
    w.write_byte(b'\n', WHITE);
    assert_eq!(w.column_position, 0);
    assert_eq!(w.get_char(23, 0), (b'x', 7), "the bottom row moved up");
    assert_eq!(w.get_char(24, 0), (b' ', WHITE), "the bottom row is blank");
}

#[test]
fn full_row_wraps_before_writing() {
    let mut w = Writer::new(0);
    for _ in 0..80 {
        w.write_byte(b'a', WHITE);
    }
    assert_eq!(w.column_position, 80);
    w.write_byte(b'b', WHITE);
    assert_eq!(w.column_position, 1);
    assert_eq!(w.get_char(24, 0), (b'b', WHITE));
    assert_eq!(w.get_char(23, 79), (b'a', WHITE));
}

#[test]
fn unprintable_bytes_show_as_blocks() {
    let mut w = Writer::new(0);
    w.write_string(b"a\x01b", WHITE);
    assert_eq!(w.get_char(24, 0).0, b'a');
    assert_eq!(w.get_char(24, 1).0, 0xDB);
    assert_eq!(w.get_char(24, 2).0, b'b');
}

#[test]
fn delete_last_erases_one_cell() {
    let mut w = Writer::new(0);
    w.write_string(b"ab", WHITE);
    w.delete_last();
    assert_eq!(w.column_position, 1);
    assert_eq!(w.get_char(24, 1), (b' ', WHITE));
    assert_eq!(w.get_char(24, 0), (b'a', WHITE));
    w.delete_last();
    w.delete_last(); // at column 0: nothing changes
    assert_eq!(w.column_position, 0);
}

#[test]
fn shell_line_editing_and_submit() {
    let mut reg = CommandRegistry::new();
    reg.register_command(b"test".to_vec(), 11, b"test program".to_vec());
    let mut sh = Shell::new();
    for c in "tesx".chars() {
        assert!(matches!(sh.keyboard_handler(KeyInput::Char(c), &reg), ShellEffect::Echo(_)));
    }
    assert_eq!(sh.keyboard_handler(KeyInput::Char('\u{8}'), &reg), ShellEffect::Backspace);
    assert!(matches!(sh.keyboard_handler(KeyInput::Char('t'), &reg), ShellEffect::Echo(_)));
    let effect = sh.keyboard_handler(KeyInput::Char('\n'), &reg);
    assert_eq!(effect, ShellEffect::Submit(ShellAction::Run { handler: 11 }));
    assert_eq!(sh.input.len(), 0, "the line is cleared after submit");
    // Unrecognized input is ignored, not crashed on.
    assert_eq!(sh.keyboard_handler(KeyInput::Char('\t'), &reg), ShellEffect::Ignored);
    assert_eq!(sh.keyboard_handler(KeyInput::Raw(59), &reg), ShellEffect::Ignored);
}

#[test]
fn exec_dispatches_by_first_token() {
    let mut reg = CommandRegistry::new();
    reg.register_command(b"test".to_vec(), 11, b"test program".to_vec());
    assert_eq!(reg.exec(&b"  test err".to_vec()), ShellAction::Run { handler: 11 });
    assert_eq!(reg.exec(&b"help".to_vec()), ShellAction::Help);
    assert_eq!(reg.exec(&b"frobnicate".to_vec()), ShellAction::Unknown);
    assert_eq!(reg.exec(&b"   ".to_vec()), ShellAction::Empty);
    assert_eq!(reg.exec(&b"".to_vec()), ShellAction::Empty);
}
