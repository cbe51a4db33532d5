//! Scan-code decoding: the bytes the keyboard controller hands over are
//! turned into key inputs by the `pc_keyboard` decoder, behind trusted
//! declarations; everything downstream of the decoder is verified for every
//! value it may produce.

use vstd::prelude::*;

verus! {

/// A decoded key input: a printable (or control) character, or the raw code
/// of a key with no character meaning.
#[derive(Clone, Copy, PartialEq, Eq, Structural, Debug)]
pub enum KeyInput {
    Char(char),
    Raw(u8),
}

/// `pc_keyboard`'s key event (a key code and whether it went down or up).
#[verifier::external_type_specification]
#[verifier::external_body]
pub struct ExKeyEvent(pc_keyboard::KeyEvent);

/// Holds `pc_keyboard`'s PS/2 decoder (scan-code set 1, US 104-key layout).
/// The decoder type's trait-bounded generics cannot be declared to the
/// verifier, so the whole holder is opaque: what a byte decodes to depends
/// on the decoder's hidden modifier and sequence state, and nothing is
/// promised of it — every consumer is verified for every value.
#[verifier::external_body]
pub struct KeyboardDecoder {
    inner: pc_keyboard::PS2Keyboard<pc_keyboard::layouts::Us104Key, pc_keyboard::ScancodeSet1>,
}

/// Relies on pc_keyboard::PS2Keyboard::new: a fresh decoder for scan-code
/// set 1 and the US 104-key layout, control keys left alone.
#[verifier::external_body]
fn new_ps2_decoder() -> KeyboardDecoder {
    KeyboardDecoder {
        inner: pc_keyboard::PS2Keyboard::new(
            pc_keyboard::ScancodeSet1::new(),
            pc_keyboard::layouts::Us104Key,
            pc_keyboard::HandleControl::Ignore,
        ),
    }
}

/// Relies on pc_keyboard::PS2Keyboard::add_byte: advances the decoder with
/// one scan-code byte; a completed key event comes back, an incomplete or
/// unrecognized sequence does not (errors are dropped, not crashed on).
#[verifier::external_body]
fn add_scancode_byte(kb: &mut KeyboardDecoder, scancode: u8) -> Option<pc_keyboard::KeyEvent> {
    match kb.inner.add_byte(scancode) {
        Ok(ev) => ev,
        Err(_) => None,
    }
}

/// Relies on pc_keyboard::PS2Keyboard::process_keyevent: applies the layout
/// and modifier state to a key event; a decoded Unicode character becomes a
/// character input, a bare key code a raw input.
#[verifier::external_body]
fn process_key_event(kb: &mut KeyboardDecoder, ev: pc_keyboard::KeyEvent) -> Option<KeyInput> {
    match kb.inner.process_keyevent(ev) {
        Some(pc_keyboard::DecodedKey::Unicode(c)) => Some(KeyInput::Char(c)),
        Some(pc_keyboard::DecodedKey::RawKey(code)) => Some(KeyInput::Raw(code as u8)),
        None => None,
    }
}

impl KeyboardDecoder {
    pub fn new() -> KeyboardDecoder {
        new_ps2_decoder()
    }

    /// Feed one byte read from the keyboard's data port through the decoder.
    pub fn decode_scancode(&mut self, scancode: u8) -> Option<KeyInput> {
        match add_scancode_byte(self, scancode) {
            Some(ev) => process_key_event(self, ev),
            None => None,
        }
    }
}

} // verus!
