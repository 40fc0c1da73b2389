use vstd::prelude::*;
use pc_keyboard::{layouts, DecodedKey, HandleControl, KeyEvent, Keyboard, ScancodeSet1};
use crate::console::{echo_of, key_arrives, set_current_byte_in_stdin, Console, ConsoleView, Echo, BACKSPACE};

verus! {

/// pc_keyboard's decoder for a US 104-key keyboard sending scancode set 1,
/// with the Ctrl key passed through as a key of its own; its state is
/// opaque.
#[verifier::external_body]
pub struct KeyDecoder {
    keyboard: Keyboard<layouts::Us104Key, ScancodeSet1>,
}

#[verifier::external_type_specification]
#[verifier::external_body]
pub struct ExKeyEvent(KeyEvent);

#[verifier::external_type_specification]
#[verifier::external_body]
pub struct ExDecodedKey(DecodedKey);

/// The scancode part of the decoder is as a new one leaves it: no byte of a
/// key event is waiting for the rest.
pub uninterp spec fn scancodes_as_new(decoder: KeyDecoder) -> bool;

/// The key part of the decoder is as a new one leaves it: no modifier key is
/// held (Num Lock is on, as a new decoder has it).
pub uninterp spec fn keys_as_new(decoder: KeyDecoder) -> bool;

/// The key event that a scancode byte gives a decoder whose scancode part is
/// as new (`None` for no event or a decoding error).
pub uninterp spec fn event_from_start(byte: u8) -> Option<KeyEvent>;

/// The key that an event gives a decoder whose key part is as new.
pub uninterp spec fn key_from_new(event: KeyEvent) -> Option<DecodedKey>;

/// The character of a key: that of a `Unicode` key, `None` for a `RawKey`.
pub uninterp spec fn unicode_char(key: DecodedKey) -> Option<char>;

/// pc_keyboard's `Keyboard::new` for a US 104-key keyboard sending scancode
/// set 1, with the Ctrl key passed through as a key of its own: a decoder
/// whose two parts are as new.
#[verifier::external_body]
fn new_keyboard() -> (decoder: KeyDecoder)
    ensures
        scancodes_as_new(decoder),
        keys_as_new(decoder),
{
    KeyDecoder { keyboard: Keyboard::new(ScancodeSet1::new(), layouts::Us104Key, HandleControl::Ignore) }
}

/// pc_keyboard's `Keyboard::add_byte`: feeds one scancode byte to the
/// scancode part of the decoder, which gives a key event once a whole one
/// has arrived (the decoding error is mapped to `None`). It leaves the key
/// part alone; from a scancode part as new, the event depends on the byte
/// alone.
#[verifier::external_body]
fn add_byte(decoder: &mut KeyDecoder, byte: u8) -> (event: Option<KeyEvent>)
    ensures
        scancodes_as_new(*old(decoder)) ==> event == event_from_start(byte),
        keys_as_new(*final(decoder)) == keys_as_new(*old(decoder)),
{
    match decoder.keyboard.add_byte(byte) {
        Ok(event) => event,
        Err(_) => None,
    }
}

/// pc_keyboard's `Keyboard::process_keyevent`: turns a key event into a
/// key, if it stands for one; from a key part as new, the key depends on
/// the event alone.
#[verifier::external_body]
fn process_keyevent(decoder: &mut KeyDecoder, event: KeyEvent) -> (key: Option<DecodedKey>)
    ensures
        keys_as_new(*old(decoder)) ==> key == key_from_new(event),
{
    decoder.keyboard.process_keyevent(event)
}

/// Tells pc_keyboard's `DecodedKey` variants apart: the character of a
/// `Unicode` key, `None` for a `RawKey`.
#[verifier::external_body]
fn unicode_of(key: DecodedKey) -> (c: Option<char>)
    ensures
        c == unicode_char(key),
{
    match key {
        DecodedKey::Unicode(character) => Some(character),
        DecodedKey::RawKey(_) => None,
    }
}

/// The character a scancode stands for when a new keyboard decodes it:
/// `None` when it makes no key event or the key has no character.
pub open spec fn scancode_char(scancode: u8) -> Option<char> {
    match event_from_start(scancode) {
        Some(event) => match key_from_new(event) {
            Some(key) => unicode_char(key),
            None => None,
        },
        None => None,
    }
}

/// The character a scancode stands for, decoded by a fresh keyboard (so no
/// key held down earlier, such as Shift, is taken into account); `None`
/// when the scancode makes no key event or the key has no character.
pub fn decode_keypress(scancode: u8) -> (c: Option<char>)
    ensures
        c == scancode_char(scancode),
        c is Some <==> exists|e: KeyEvent, k: DecodedKey|
            event_from_start(scancode) == Some(e) && key_from_new(e) == Some(k) && unicode_char(k) is Some,
        forall|e: KeyEvent, k: DecodedKey|
            #![trigger key_from_new(e), unicode_char(k)]
            event_from_start(scancode) == Some(e) && key_from_new(e) == Some(k) && unicode_char(k) is Some
                ==> c == unicode_char(k),
{
    proof {
        law_every_character_decoded(scancode);
    }
    let mut keyboard = new_keyboard();
    match add_byte(&mut keyboard, scancode) {
        Some(key_event) => match process_keyevent(&mut keyboard, key_event) {
            Some(key) => unicode_of(key),
            None => None,
        },
        None => None,
    }
}

/// Every key with a character reaches standard input as that character
/// (none is held back), and a scancode whose event gives no key, or a key
/// without a character, gives no character.
pub proof fn law_every_character_decoded(scancode: u8)
    ensures
        forall|e: KeyEvent, k: DecodedKey|
            #![trigger key_from_new(e), unicode_char(k)]
            event_from_start(scancode) == Some(e) && key_from_new(e) == Some(k) && unicode_char(k) is Some
                ==> scancode_char(scancode) == unicode_char(k),
        scancode_char(scancode) is Some <==> exists|e: KeyEvent, k: DecodedKey|
            event_from_start(scancode) == Some(e) && key_from_new(e) == Some(k) && unicode_char(k) is Some,
{
    if let Some(e) = event_from_start(scancode) {
        if let Some(k) = key_from_new(e) {
            if unicode_char(k) is Some {
                assert(event_from_start(scancode) == Some(e) && key_from_new(e) == Some(k) && unicode_char(k) is Some);
            }
        }
    }
}

/// A key with a character other than a backspace is printed and becomes the
/// pending key; a backspace key erases one character when there is one.
pub proof fn law_keypress_reaches_stdin(c: ConsoleView, scancode: u8, ch: char)
    requires
        scancode_char(scancode) == Some(ch),
    ensures
        ch != BACKSPACE ==> keypress_effect(c, scancode).0 == Echo::Print(ch),
        keypress_effect(c, scancode).1.pending == ch,
        ch == BACKSPACE && c.erasable > 0 ==> keypress_effect(c, scancode).0 == Echo::Backspace,
{
    crate::console::law_key_echo(c, ch);
}

/// The echo and the console after a scancode arrived: a key with a
/// character goes to standard input, anything else changes nothing.
pub open spec fn keypress_effect(c: ConsoleView, scancode: u8) -> (Echo, ConsoleView) {
    match scancode_char(scancode) {
        Some(ch) => (echo_of(c, ch), key_arrives(c, ch)),
        None => (Echo::Nothing, c),
    }
}

/// The console can take the key of `scancode`: a character other than a
/// backspace needs room in the erasable count.
pub open spec fn keypress_fits(c: ConsoleView, scancode: u8) -> bool {
    scancode_char(scancode) matches Some(ch) && ch != BACKSPACE ==> c.erasable < u8::MAX
}

/// A scancode arrived from the keyboard: the character it stands for, if
/// any, goes to standard input (see `set_current_byte_in_stdin`); a key
/// release or a key without a character changes nothing.
pub fn handle_keypress(console: &mut Console, scancode: u8) -> (echo: Echo)
    requires
        keypress_fits(old(console)@, scancode),
    ensures
        (echo, final(console)@) == keypress_effect(old(console)@, scancode),
{
    match decode_keypress(scancode) {
        Some(character) => set_current_byte_in_stdin(console, character),
        None => Echo::Nothing,
    }
}

/// `handle_keypress` when the console can take the key; `None`, with the
/// console unchanged, when the key is a character other than a backspace and
/// the erasable count is already at its largest.
pub fn try_handle_keypress(console: &mut Console, scancode: u8) -> (echo: Option<Echo>)
    ensures
        keypress_fits(old(console)@, scancode) ==> echo == Some(keypress_effect(old(console)@, scancode).0)
            && final(console)@ == keypress_effect(old(console)@, scancode).1,
        !keypress_fits(old(console)@, scancode) ==> echo is None && final(console)@ == old(console)@,
{
    let fits = match decode_keypress(scancode) {
        Some(character) => character == BACKSPACE || console.allowed_backspaces() < u8::MAX,
        None => true,
    };
    if fits {
        Some(handle_keypress(console, scancode))
    } else {
        None
    }
}

} // verus!
