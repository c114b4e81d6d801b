//! PS/2 keyboard: controller status bits, the scancode-to-ASCII translator
//! with its modifier state, and the key queue that the interrupt handler fills.
use vstd::prelude::*;

use crate::queue::StaticQueue;

verus! {

/// Number of entries of the scancode mapping table.
pub const KEY_MAPPINGTABLEMAXCOUNT: u8 = 89;

/// Number of key events the key queue can hold.
pub const KEY_MAXQUEUECOUNT: usize = 100;

/// Scancodes that follow a pause prefix and carry no event of their own.
pub const KEY_SKIPCOUNTFORPAUSE: i32 = 2;

/// Flag bit: the key went down (clear: it went up).
pub const KEY_FLAGS_DOWN: u8 = 0x01;

/// Flag bit: the scancode was preceded by the extended prefix `0xE0`.
pub const KEY_FLAGS_EXTENDEDKEY: u8 = 0x02;

/// The bits that a key event's `flags` can carry.
pub enum KeyStatement {
    KeyFlagsUp,
    KeyFlagsDown,
    KeyFlagsExtendedkey,
}

impl KeyStatement {
    pub open spec fn value(&self) -> u8 {
        match self {
            KeyStatement::KeyFlagsUp => 0x00,
            KeyStatement::KeyFlagsDown => KEY_FLAGS_DOWN,
            KeyStatement::KeyFlagsExtendedkey => KEY_FLAGS_EXTENDEDKEY,
        }
    }

    /// The flag bit of this statement.
    pub fn bits(&self) -> (r: u8)
        ensures
            r == self.value(),
    {
        match self {
            KeyStatement::KeyFlagsUp => 0x00,
            KeyStatement::KeyFlagsDown => KEY_FLAGS_DOWN,
            KeyStatement::KeyFlagsExtendedkey => KEY_FLAGS_EXTENDEDKEY,
        }
    }
}

/// The codes that non-printing keys translate to.
pub enum KeySpecial {
    Empty,
    Enter,
    Tab,
    Esc,
    Backspace,
    Ctrl,
    Lshift,
    Rshift,
    PrintScreen,
    Lalt,
    CapsLock,
    F1,
    F2,
    F3,
    F4,
    F5,
    F6,
    F7,
    F8,
    F9,
    F10,
    NumLock,
    ScrollLock,
    Home,
    Up,
    PageUp,
    Left,
    Center,
    Right,
    End,
    Down,
    PageDown,
    Insert,
    Delete,
    F11,
    F12,
    Pause,
}

impl KeySpecial {
    pub open spec fn value(&self) -> u8 {
        match self {
            KeySpecial::Empty => 0x00,
            KeySpecial::Enter => 0x0A,
            KeySpecial::Tab => 0x09,
            KeySpecial::Esc => 0x1B,
            KeySpecial::Backspace => 0x08,
            KeySpecial::Ctrl => 0x81,
            KeySpecial::Lshift => 0x82,
            KeySpecial::Rshift => 0x83,
            KeySpecial::PrintScreen => 0x84,
            KeySpecial::Lalt => 0x85,
            KeySpecial::CapsLock => 0x86,
            KeySpecial::F1 => 0x87,
            KeySpecial::F2 => 0x88,
            KeySpecial::F3 => 0x89,
            KeySpecial::F4 => 0x8A,
            KeySpecial::F5 => 0x8B,
            KeySpecial::F6 => 0x8C,
            KeySpecial::F7 => 0x8D,
            KeySpecial::F8 => 0x8E,
            KeySpecial::F9 => 0x8F,
            KeySpecial::F10 => 0x90,
            KeySpecial::NumLock => 0x91,
            KeySpecial::ScrollLock => 0x92,
            KeySpecial::Home => 0x93,
            KeySpecial::Up => 0x94,
            KeySpecial::PageUp => 0x95,
            KeySpecial::Left => 0x96,
            KeySpecial::Center => 0x97,
            KeySpecial::Right => 0x98,
            KeySpecial::End => 0x99,
            KeySpecial::Down => 0x9A,
            KeySpecial::PageDown => 0x9B,
            KeySpecial::Insert => 0x9C,
            KeySpecial::Delete => 0x9D,
            KeySpecial::F11 => 0x9E,
            KeySpecial::F12 => 0x9F,
            KeySpecial::Pause => 0xA0,
        }
    }

    /// The code this key translates to.
    pub fn code(&self) -> (r: u8)
        ensures
            r == self.value(),
    {
        match self {
            KeySpecial::Empty => 0x00,
            KeySpecial::Enter => 0x0A,
            KeySpecial::Tab => 0x09,
            KeySpecial::Esc => 0x1B,
            KeySpecial::Backspace => 0x08,
            KeySpecial::Ctrl => 0x81,
            KeySpecial::Lshift => 0x82,
            KeySpecial::Rshift => 0x83,
            KeySpecial::PrintScreen => 0x84,
            KeySpecial::Lalt => 0x85,
            KeySpecial::CapsLock => 0x86,
            KeySpecial::F1 => 0x87,
            KeySpecial::F2 => 0x88,
            KeySpecial::F3 => 0x89,
            KeySpecial::F4 => 0x8A,
            KeySpecial::F5 => 0x8B,
            KeySpecial::F6 => 0x8C,
            KeySpecial::F7 => 0x8D,
            KeySpecial::F8 => 0x8E,
            KeySpecial::F9 => 0x8F,
            KeySpecial::F10 => 0x90,
            KeySpecial::NumLock => 0x91,
            KeySpecial::ScrollLock => 0x92,
            KeySpecial::Home => 0x93,
            KeySpecial::Up => 0x94,
            KeySpecial::PageUp => 0x95,
            KeySpecial::Left => 0x96,
            KeySpecial::Center => 0x97,
            KeySpecial::Right => 0x98,
            KeySpecial::End => 0x99,
            KeySpecial::Down => 0x9A,
            KeySpecial::PageDown => 0x9B,
            KeySpecial::Insert => 0x9C,
            KeySpecial::Delete => 0x9D,
            KeySpecial::F11 => 0x9E,
            KeySpecial::F12 => 0x9F,
            KeySpecial::Pause => 0xA0,
        }
    }
}

/// One translated key event.
#[derive(Clone, Copy, PartialEq, Eq, Structural)]
pub struct KeyData {
    pub scan_code: u8,
    pub ascii_code: u8,
    pub flags: u8,
}

impl KeyData {
    /// An all-zero event.
    pub fn new() -> (r: Self)
        ensures
            r == (KeyData { scan_code: 0, ascii_code: 0, flags: 0 }),
    {
        KeyData { scan_code: 0, ascii_code: 0, flags: 0 }
    }
}

/// One row of the mapping table: the code without modifiers, and the code
/// under shift, caps lock or num lock.
#[derive(Clone, Copy, PartialEq, Eq, Structural)]
pub struct KeyMappingEntry(pub u8, pub u8);

impl KeyMappingEntry {
    /// The code without modifiers.
    #[allow(non_snake_case)]
    pub fn NormalCode(&self) -> (r: u8)
        ensures
            r == self.0,
    {
        self.0
    }

    /// The code under shift, caps lock or num lock.
    #[allow(non_snake_case)]
    pub fn CombinedCode(&self) -> (r: u8)
        ensures
            r == self.1,
    {
        self.1
    }
}

/// The mapping table, indexed by scancode without its up bit.
pub open spec fn key_table(scan_code: u8) -> KeyMappingEntry {
    match scan_code {
    0 => KeyMappingEntry(KeySpecial::Empty.value(), KeySpecial::Empty.value()),
        1 => KeyMappingEntry(KeySpecial::Esc.value(), KeySpecial::Esc.value()),
        2 => KeyMappingEntry(0x31, 0x21),  // '1' '!'
        3 => KeyMappingEntry(0x32, 0x40),  // '2' '@'
        4 => KeyMappingEntry(0x33, 0x23),  // '3' '#'
        5 => KeyMappingEntry(0x34, 0x24),  // '4' '$'
        6 => KeyMappingEntry(0x35, 0x25),  // '5' '%'
        7 => KeyMappingEntry(0x36, 0x5E),  // '6' '^'
        8 => KeyMappingEntry(0x37, 0x26),  // '7' '&'
        9 => KeyMappingEntry(0x38, 0x2A),  // '8' '*'
        10 => KeyMappingEntry(0x39, 0x28),  // '9' '('
        11 => KeyMappingEntry(0x30, 0x29),  // '0' ')'
        12 => KeyMappingEntry(0x2D, 0x5F),  // '-' '_'
        13 => KeyMappingEntry(0x3D, 0x2B),  // '=' '+'
        14 => KeyMappingEntry(KeySpecial::Backspace.value(), KeySpecial::Backspace.value()),
        15 => KeyMappingEntry(KeySpecial::Tab.value(), KeySpecial::Tab.value()),
        16 => KeyMappingEntry(0x71, 0x51),  // 'q' 'Q'
        17 => KeyMappingEntry(0x77, 0x57),  // 'w' 'W'
        18 => KeyMappingEntry(0x65, 0x45),  // 'e' 'E'
        19 => KeyMappingEntry(0x72, 0x52),  // 'r' 'R'
        20 => KeyMappingEntry(0x74, 0x54),  // 't' 'T'
        21 => KeyMappingEntry(0x79, 0x59),  // 'y' 'Y'
        22 => KeyMappingEntry(0x75, 0x55),  // 'u' 'U'
        23 => KeyMappingEntry(0x69, 0x49),  // 'i' 'I'
        24 => KeyMappingEntry(0x6F, 0x4F),  // 'o' 'O'
        25 => KeyMappingEntry(0x70, 0x50),  // 'p' 'P'
        26 => KeyMappingEntry(0x5B, 0x7B),  // '[' '{'
        27 => KeyMappingEntry(0x5D, 0x7D),  // ']' '}'
        28 => KeyMappingEntry(KeySpecial::Enter.value(), KeySpecial::Enter.value()),
        29 => KeyMappingEntry(KeySpecial::Ctrl.value(), KeySpecial::Ctrl.value()),
        30 => KeyMappingEntry(0x61, 0x41),  // 'a' 'A'
        31 => KeyMappingEntry(0x73, 0x53),  // 's' 'S'
        32 => KeyMappingEntry(0x64, 0x44),  // 'd' 'D'
        33 => KeyMappingEntry(0x66, 0x46),  // 'f' 'F'
        34 => KeyMappingEntry(0x67, 0x47),  // 'g' 'G'
        35 => KeyMappingEntry(0x68, 0x48),  // 'h' 'H'
        36 => KeyMappingEntry(0x6A, 0x4A),  // 'j' 'J'
        37 => KeyMappingEntry(0x6B, 0x4B),  // 'k' 'K'
        38 => KeyMappingEntry(0x6C, 0x4C),  // 'l' 'L'
        39 => KeyMappingEntry(0x3B, 0x3A),  // ';' ':'
        40 => KeyMappingEntry(0x27, 0x22),  // '\'' '"'
        41 => KeyMappingEntry(0x60, 0x7E),  // '`' '~'
        42 => KeyMappingEntry(KeySpecial::Lshift.value(), KeySpecial::Lshift.value()),
        43 => KeyMappingEntry(0x5C, 0x7C),  // '\\' '|'
        44 => KeyMappingEntry(0x7A, 0x5A),  // 'z' 'Z'
        45 => KeyMappingEntry(0x78, 0x58),  // 'x' 'X'
        46 => KeyMappingEntry(0x63, 0x43),  // 'c' 'C'
        47 => KeyMappingEntry(0x76, 0x56),  // 'v' 'V'
        48 => KeyMappingEntry(0x62, 0x42),  // 'b' 'B'
        49 => KeyMappingEntry(0x6E, 0x4E),  // 'n' 'N'
        50 => KeyMappingEntry(0x6D, 0x4D),  // 'm' 'M'
        51 => KeyMappingEntry(0x2C, 0x3C),  // ',' '<'
        52 => KeyMappingEntry(0x2E, 0x3E),  // '.' '>'
        53 => KeyMappingEntry(0x2F, 0x3F),  // '/' '?'
        54 => KeyMappingEntry(KeySpecial::Rshift.value(), KeySpecial::Rshift.value()),
        55 => KeyMappingEntry(0x2A, 0x2A),  // '*' '*'
        56 => KeyMappingEntry(KeySpecial::Lalt.value(), KeySpecial::Lalt.value()),
        57 => KeyMappingEntry(0x20, 0x20),  // ' ' ' '
        58 => KeyMappingEntry(KeySpecial::CapsLock.value(), KeySpecial::CapsLock.value()),
        59 => KeyMappingEntry(KeySpecial::F1.value(), KeySpecial::F1.value()),
        60 => KeyMappingEntry(KeySpecial::F2.value(), KeySpecial::F2.value()),
        61 => KeyMappingEntry(KeySpecial::F3.value(), KeySpecial::F3.value()),
        62 => KeyMappingEntry(KeySpecial::F4.value(), KeySpecial::F4.value()),
        63 => KeyMappingEntry(KeySpecial::F5.value(), KeySpecial::F5.value()),
        64 => KeyMappingEntry(KeySpecial::F6.value(), KeySpecial::F6.value()),
        65 => KeyMappingEntry(KeySpecial::F7.value(), KeySpecial::F7.value()),
        66 => KeyMappingEntry(KeySpecial::F8.value(), KeySpecial::F8.value()),
        67 => KeyMappingEntry(KeySpecial::F9.value(), KeySpecial::F9.value()),
        68 => KeyMappingEntry(KeySpecial::F10.value(), KeySpecial::F10.value()),
        69 => KeyMappingEntry(KeySpecial::NumLock.value(), KeySpecial::NumLock.value()),
        70 => KeyMappingEntry(KeySpecial::ScrollLock.value(), KeySpecial::ScrollLock.value()),
        71 => KeyMappingEntry(KeySpecial::Home.value(), 0x37),  // '7'
        72 => KeyMappingEntry(KeySpecial::Up.value(), 0x38),  // '8'
        73 => KeyMappingEntry(KeySpecial::PageUp.value(), 0x39),  // '9'
        74 => KeyMappingEntry(0x2D, 0x2D),  // '-' '-'
        75 => KeyMappingEntry(KeySpecial::Left.value(), 0x34),  // '4'
        76 => KeyMappingEntry(KeySpecial::Center.value(), 0x35),  // '5'
        77 => KeyMappingEntry(KeySpecial::Right.value(), 0x36),  // '6'
        78 => KeyMappingEntry(0x2B, 0x2B),  // '+' '+'
        79 => KeyMappingEntry(KeySpecial::End.value(), 0x31),  // '1'
        80 => KeyMappingEntry(KeySpecial::Down.value(), 0x32),  // '2'
        81 => KeyMappingEntry(KeySpecial::PageDown.value(), 0x33),  // '3'
        82 => KeyMappingEntry(KeySpecial::Insert.value(), 0x30),  // '0'
        83 => KeyMappingEntry(KeySpecial::Delete.value(), 0x2E),  // '.'
        84 => KeyMappingEntry(KeySpecial::Empty.value(), KeySpecial::Empty.value()),
        85 => KeyMappingEntry(KeySpecial::Empty.value(), KeySpecial::Empty.value()),
        86 => KeyMappingEntry(KeySpecial::Empty.value(), KeySpecial::Empty.value()),
        87 => KeyMappingEntry(KeySpecial::F11.value(), KeySpecial::F11.value()),
        88 => KeyMappingEntry(KeySpecial::F12.value(), KeySpecial::F12.value()),
        _ => KeyMappingEntry(0, 0),
    }
}

/// Row `scan_code` of the mapping table.
pub fn mapping_entry(scan_code: u8) -> (r: KeyMappingEntry)
    requires
        scan_code < KEY_MAPPINGTABLEMAXCOUNT,
    ensures
        r == key_table(scan_code),
{
    match scan_code {
        0 => KeyMappingEntry(0x00, 0x00),
        1 => KeyMappingEntry(0x1B, 0x1B),
        2 => KeyMappingEntry(0x31, 0x21),  // '1' '!'
        3 => KeyMappingEntry(0x32, 0x40),  // '2' '@'
        4 => KeyMappingEntry(0x33, 0x23),  // '3' '#'
        5 => KeyMappingEntry(0x34, 0x24),  // '4' '$'
        6 => KeyMappingEntry(0x35, 0x25),  // '5' '%'
        7 => KeyMappingEntry(0x36, 0x5E),  // '6' '^'
        8 => KeyMappingEntry(0x37, 0x26),  // '7' '&'
        9 => KeyMappingEntry(0x38, 0x2A),  // '8' '*'
        10 => KeyMappingEntry(0x39, 0x28),  // '9' '('
        11 => KeyMappingEntry(0x30, 0x29),  // '0' ')'
        12 => KeyMappingEntry(0x2D, 0x5F),  // '-' '_'
        13 => KeyMappingEntry(0x3D, 0x2B),  // '=' '+'
        14 => KeyMappingEntry(0x08, 0x08),
        15 => KeyMappingEntry(0x09, 0x09),
        16 => KeyMappingEntry(0x71, 0x51),  // 'q' 'Q'
        17 => KeyMappingEntry(0x77, 0x57),  // 'w' 'W'
        18 => KeyMappingEntry(0x65, 0x45),  // 'e' 'E'
        19 => KeyMappingEntry(0x72, 0x52),  // 'r' 'R'
        20 => KeyMappingEntry(0x74, 0x54),  // 't' 'T'
        21 => KeyMappingEntry(0x79, 0x59),  // 'y' 'Y'
        22 => KeyMappingEntry(0x75, 0x55),  // 'u' 'U'
        23 => KeyMappingEntry(0x69, 0x49),  // 'i' 'I'
        24 => KeyMappingEntry(0x6F, 0x4F),  // 'o' 'O'
        25 => KeyMappingEntry(0x70, 0x50),  // 'p' 'P'
        26 => KeyMappingEntry(0x5B, 0x7B),  // '[' '{'
        27 => KeyMappingEntry(0x5D, 0x7D),  // ']' '}'
        28 => KeyMappingEntry(0x0A, 0x0A),
        29 => KeyMappingEntry(0x81, 0x81),
        30 => KeyMappingEntry(0x61, 0x41),  // 'a' 'A'
        31 => KeyMappingEntry(0x73, 0x53),  // 's' 'S'
        32 => KeyMappingEntry(0x64, 0x44),  // 'd' 'D'
        33 => KeyMappingEntry(0x66, 0x46),  // 'f' 'F'
        34 => KeyMappingEntry(0x67, 0x47),  // 'g' 'G'
        35 => KeyMappingEntry(0x68, 0x48),  // 'h' 'H'
        36 => KeyMappingEntry(0x6A, 0x4A),  // 'j' 'J'
        37 => KeyMappingEntry(0x6B, 0x4B),  // 'k' 'K'
        38 => KeyMappingEntry(0x6C, 0x4C),  // 'l' 'L'
        39 => KeyMappingEntry(0x3B, 0x3A),  // ';' ':'
        40 => KeyMappingEntry(0x27, 0x22),  // '\'' '"'
        41 => KeyMappingEntry(0x60, 0x7E),  // '`' '~'
        42 => KeyMappingEntry(0x82, 0x82),
        43 => KeyMappingEntry(0x5C, 0x7C),  // '\\' '|'
        44 => KeyMappingEntry(0x7A, 0x5A),  // 'z' 'Z'
        45 => KeyMappingEntry(0x78, 0x58),  // 'x' 'X'
        46 => KeyMappingEntry(0x63, 0x43),  // 'c' 'C'
        47 => KeyMappingEntry(0x76, 0x56),  // 'v' 'V'
        48 => KeyMappingEntry(0x62, 0x42),  // 'b' 'B'
        49 => KeyMappingEntry(0x6E, 0x4E),  // 'n' 'N'
        50 => KeyMappingEntry(0x6D, 0x4D),  // 'm' 'M'
        51 => KeyMappingEntry(0x2C, 0x3C),  // ',' '<'
        52 => KeyMappingEntry(0x2E, 0x3E),  // '.' '>'
        53 => KeyMappingEntry(0x2F, 0x3F),  // '/' '?'
        54 => KeyMappingEntry(0x83, 0x83),
        55 => KeyMappingEntry(0x2A, 0x2A),  // '*' '*'
        56 => KeyMappingEntry(0x85, 0x85),
        57 => KeyMappingEntry(0x20, 0x20),  // ' ' ' '
        58 => KeyMappingEntry(0x86, 0x86),
        59 => KeyMappingEntry(0x87, 0x87),
        60 => KeyMappingEntry(0x88, 0x88),
        61 => KeyMappingEntry(0x89, 0x89),
        62 => KeyMappingEntry(0x8A, 0x8A),
        63 => KeyMappingEntry(0x8B, 0x8B),
        64 => KeyMappingEntry(0x8C, 0x8C),
        65 => KeyMappingEntry(0x8D, 0x8D),
        66 => KeyMappingEntry(0x8E, 0x8E),
        67 => KeyMappingEntry(0x8F, 0x8F),
        68 => KeyMappingEntry(0x90, 0x90),
        69 => KeyMappingEntry(0x91, 0x91),
        70 => KeyMappingEntry(0x92, 0x92),
        71 => KeyMappingEntry(0x93, 0x37),  // '7'
        72 => KeyMappingEntry(0x94, 0x38),  // '8'
        73 => KeyMappingEntry(0x95, 0x39),  // '9'
        74 => KeyMappingEntry(0x2D, 0x2D),  // '-' '-'
        75 => KeyMappingEntry(0x96, 0x34),  // '4'
        76 => KeyMappingEntry(0x97, 0x35),  // '5'
        77 => KeyMappingEntry(0x98, 0x36),  // '6'
        78 => KeyMappingEntry(0x2B, 0x2B),  // '+' '+'
        79 => KeyMappingEntry(0x99, 0x31),  // '1'
        80 => KeyMappingEntry(0x9A, 0x32),  // '2'
        81 => KeyMappingEntry(0x9B, 0x33),  // '3'
        82 => KeyMappingEntry(0x9C, 0x30),  // '0'
        83 => KeyMappingEntry(0x9D, 0x2E),  // '.'
        84 => KeyMappingEntry(0x00, 0x00),
        85 => KeyMappingEntry(0x00, 0x00),
        86 => KeyMappingEntry(0x00, 0x00),
        87 => KeyMappingEntry(0x9E, 0x9E),
        88 => KeyMappingEntry(0x9F, 0x9F),
        _ => KeyMappingEntry(0, 0),
    }
}

/// The code of a scancode (up bit cleared) is a lowercase letter (`a` to `z`).
pub open spec fn is_alphabet(scan_code: u8) -> bool {
    0x61 <= key_table(scan_code).0 <= 0x7A
}

/// Digits and symbols of the main block: scancodes 2 to 53 that are no letter.
pub open spec fn is_number_or_symbol(scan_code: u8) -> bool {
    2 <= scan_code <= 53 && !is_alphabet(scan_code)
}

/// Keys of the number pad: scancodes 71 to 83.
pub open spec fn is_number_pad(scan_code: u8) -> bool {
    71 <= scan_code <= 83
}

/// Modifier and prefix state of the keyboard.
#[derive(Clone, Copy, PartialEq, Eq, Structural)]
pub struct KeyboardManager {
    pub shift_down: bool,
    pub caps_lock_on: bool,
    pub num_lock_on: bool,
    pub scroll_lock_on: bool,
    /// An extended prefix `0xE0` was seen and not yet consumed.
    pub extended_code_in: bool,
    /// Scancodes still to be swallowed after a pause prefix `0xE1`.
    pub skip_count_for_pause: i32,
    /// A lock key toggled since the LEDs were last written.
    pub led_update_pending: bool,
}

/// Whether the combined code applies to `scan_code` under the state `m`.
pub open spec fn use_combined(m: KeyboardManager, scan_code: u8) -> bool {
    let code = scan_code & 0x7F;
    if is_alphabet(code) {
        m.shift_down != m.caps_lock_on
    } else if is_number_or_symbol(code) {
        m.shift_down
    } else if is_number_pad(code) && !m.extended_code_in {
        m.num_lock_on
    } else {
        false
    }
}

/// The ASCII code that `scan_code` translates to under the state `m`.
pub open spec fn translated_code(m: KeyboardManager, scan_code: u8) -> u8 {
    if use_combined(m, scan_code) {
        key_table(scan_code & 0x7F).1
    } else {
        key_table(scan_code & 0x7F).0
    }
}

/// The flags of the event for `scan_code` under the state `m`.
pub open spec fn translated_flags(m: KeyboardManager, scan_code: u8) -> u8 {
    (if m.extended_code_in { KEY_FLAGS_EXTENDEDKEY } else { 0u8 }) | (if scan_code & 0x80
        == 0 {
        KEY_FLAGS_DOWN
    } else {
        0u8
    })
}

/// The modifier state after `scan_code`: shift follows its keys, the lock keys
/// toggle on their down edge.
pub open spec fn modifiers_after(m: KeyboardManager, scan_code: u8) -> KeyboardManager {
    let down = scan_code & 0x80 == 0;
    let code = scan_code & 0x7F;
    if code == 42 || code == 54 {
        KeyboardManager { shift_down: down, ..m }
    } else if code == 58 && down {
        KeyboardManager { caps_lock_on: !m.caps_lock_on, led_update_pending: true, ..m }
    } else if code == 69 && down {
        KeyboardManager { num_lock_on: !m.num_lock_on, led_update_pending: true, ..m }
    } else if code == 70 && down {
        KeyboardManager { scroll_lock_on: !m.scroll_lock_on, led_update_pending: true, ..m }
    } else {
        m
    }
}

/// The scancode can be handed to the translator: it is swallowed, is a
/// prefix, or names a row of the mapping table.
pub open spec fn convertible(m: KeyboardManager, scan_code: u8) -> bool {
    m.skip_count_for_pause > 0 || scan_code == 0xE0 || scan_code == 0xE1 || scan_code % 0x80
        < KEY_MAPPINGTABLEMAXCOUNT
}

/// The event that `scan_code` produces under the state `m`: none while a
/// pause sequence is swallowed or for the extended prefix, a pause key-down
/// for `0xE1`, else the table's code with the down and extended flags.
pub open spec fn key_event(m: KeyboardManager, scan_code: u8) -> Option<KeyData> {
    if m.skip_count_for_pause > 0 || scan_code == 0xE0 {
        None
    } else if scan_code == 0xE1 {
        Some(KeyData { scan_code, ascii_code: KeySpecial::Pause.value(), flags: KEY_FLAGS_DOWN })
    } else {
        Some(
            KeyData {
                scan_code,
                ascii_code: translated_code(m, scan_code),
                flags: translated_flags(m, scan_code),
            },
        )
    }
}

/// The state after `scan_code`: one fewer byte to swallow, the pause skip
/// armed, the extended prefix noted, or the prefix consumed and the
/// modifiers updated.
pub open spec fn key_state(m: KeyboardManager, scan_code: u8) -> KeyboardManager {
    if m.skip_count_for_pause > 0 {
        KeyboardManager { skip_count_for_pause: (m.skip_count_for_pause - 1) as i32, ..m }
    } else if scan_code == 0xE1 {
        KeyboardManager { skip_count_for_pause: KEY_SKIPCOUNTFORPAUSE, ..m }
    } else if scan_code == 0xE0 {
        KeyboardManager { extended_code_in: true, ..m }
    } else {
        modifiers_after(KeyboardManager { extended_code_in: false, ..m }, scan_code)
    }
}

/// After the extended prefix, the next key event carries the extended flag
/// and the one after it does not.
pub proof fn lemma_extended_prefix(m: KeyboardManager, first: u8, second: u8)
    requires
        m.skip_count_for_pause <= 0,
        first != 0xE0 && first != 0xE1 && (first & 0x7F) < KEY_MAPPINGTABLEMAXCOUNT,
        second != 0xE0 && second != 0xE1 && (second & 0x7F) < KEY_MAPPINGTABLEMAXCOUNT,
    ensures
        key_event(m, 0xE0) is None,
        key_state(m, 0xE0).extended_code_in,
        key_event(key_state(m, 0xE0), first) is Some,
        key_event(key_state(m, 0xE0), first)->Some_0.flags & KEY_FLAGS_EXTENDEDKEY != 0,
        key_event(key_state(key_state(m, 0xE0), first), second) is Some,
        key_event(key_state(key_state(m, 0xE0), first), second)->Some_0.flags & KEY_FLAGS_EXTENDEDKEY == 0,
{
    let m1 = key_state(m, 0xE0);
    let m2 = key_state(m1, first);
    assert(!m2.extended_code_in);
    assert(m2.skip_count_for_pause == m.skip_count_for_pause);
    let d1: u8 = if first & 0x80 == 0 { KEY_FLAGS_DOWN } else { 0u8 };
    let d2: u8 = if second & 0x80 == 0 { KEY_FLAGS_DOWN } else { 0u8 };
    assert((2u8 | d1) & 2u8 != 0) by (bit_vector);
    assert(d2 <= 1 ==> (0u8 | d2) & 2u8 == 0) by (bit_vector);
}

/// The pause prefix yields one pause key-down, and the next two bytes,
/// whatever they are, yield nothing.
pub proof fn lemma_pause_sequence(m: KeyboardManager, first: u8, second: u8)
    requires
        m.skip_count_for_pause <= 0,
    ensures
        key_event(m, 0xE1) == Some(KeyData { scan_code: 0xE1, ascii_code: KeySpecial::Pause.value(), flags: KEY_FLAGS_DOWN }),
        key_event(key_state(m, 0xE1), first) is None,
        key_event(key_state(key_state(m, 0xE1), first), second) is None,
        key_state(key_state(key_state(m, 0xE1), first), second).skip_count_for_pause == 0,
{
}

/// Every table row under every modifier state translates to its combined
/// code exactly when the combined predicate holds, else to its normal code.
pub proof fn lemma_table_translation(m: KeyboardManager, scan_code: u8)
    requires
        m.skip_count_for_pause <= 0,
        scan_code < KEY_MAPPINGTABLEMAXCOUNT,
    ensures
        key_event(m, scan_code) is Some,
        key_event(m, scan_code)->Some_0.ascii_code == if use_combined(m, scan_code) {
            key_table(scan_code).1
        } else {
            key_table(scan_code).0
        },
        key_event(m, scan_code)->Some_0.flags & KEY_FLAGS_DOWN != 0,
{
    assert(scan_code & 0x7F == scan_code && scan_code & 0x80 == 0) by (bit_vector)
        requires
            scan_code < 89,
    ;
    let e: u8 = if m.extended_code_in { KEY_FLAGS_EXTENDEDKEY } else { 0u8 };
    assert(e <= 2 ==> (e | 1u8) & 1u8 != 0) by (bit_vector);
}

/// The controller's output buffer holds a byte (bit 0 of the status port).
#[allow(non_snake_case)]
pub fn IsOutputBufferFull(status: u8) -> (r: bool)
    ensures
        r == (status & 0x01 != 0),
{
    (status & 0x01) != 0
}

/// The controller's input buffer is still busy (bit 1 of the status port).
#[allow(non_snake_case)]
pub fn IsInputBufferFull(status: u8) -> (r: bool)
    ensures
        r == (status & 0x02 != 0),
{
    (status & 0x02) != 0
}

/// The LED byte that follows the `0xED` command.
pub fn led_command_byte(caps_lock_on: bool, num_lock_on: bool, scroll_lock_on: bool) -> (r: u8)
    ensures
        r == (if caps_lock_on { 4u8 } else { 0u8 }) + (if num_lock_on { 2u8 } else { 0u8 }) + (
        if scroll_lock_on {
            1u8
        } else {
            0u8
        }),
{
    let caps: u8 = if caps_lock_on { 1 } else { 0 };
    let num: u8 = if num_lock_on { 1 } else { 0 };
    let scroll: u8 = if scroll_lock_on { 1 } else { 0 };
    let r = (caps << 2u8) | (num << 1u8) | scroll;
    assert(r == caps * 4 + num * 2 + scroll) by (bit_vector)
        requires
            caps <= 1 && num <= 1 && scroll <= 1,
            r == (caps << 2u8) | (num << 1u8) | scroll,
    ;
    r
}

/// The scancode's row translates to a lowercase letter.
#[allow(non_snake_case)]
pub fn IsAlphabetScanCode(scan_code: u8) -> (r: bool)
    requires
        scan_code < KEY_MAPPINGTABLEMAXCOUNT,
    ensures
        r == is_alphabet(scan_code),
{
    let resolved = mapping_entry(scan_code).NormalCode();
    0x61 <= resolved && resolved <= 0x7A
}

/// The scancode is a digit or symbol key of the main block.
#[allow(non_snake_case)]
pub fn IsNumberOrSymbolScanCode(scan_code: u8) -> (r: bool)
    requires
        scan_code < KEY_MAPPINGTABLEMAXCOUNT,
    ensures
        r == is_number_or_symbol(scan_code),
{
    2 <= scan_code && scan_code <= 53 && !IsAlphabetScanCode(scan_code)
}

/// The scancode is a number-pad key.
#[allow(non_snake_case)]
pub fn IsNumberPadScancode(scan_code: u8) -> (r: bool)
    ensures
        r == is_number_pad(scan_code),
{
    71 <= scan_code && scan_code <= 83
}

impl KeyboardManager {
    /// No modifier held, no lock on, no prefix pending.
    pub fn new() -> (r: Self)
        ensures
            !r.shift_down && !r.caps_lock_on && !r.num_lock_on && !r.scroll_lock_on,
            !r.extended_code_in && r.skip_count_for_pause == 0 && !r.led_update_pending,
    {
        KeyboardManager {
            shift_down: false,
            caps_lock_on: false,
            num_lock_on: false,
            scroll_lock_on: false,
            extended_code_in: false,
            skip_count_for_pause: 0,
            led_update_pending: false,
        }
    }

    /// The LED byte for the current lock state.
    pub fn led_byte(&self) -> (r: u8)
        ensures
            r == (if self.caps_lock_on { 4u8 } else { 0u8 }) + (if self.num_lock_on {
                2u8
            } else {
                0u8
            }) + (if self.scroll_lock_on { 1u8 } else { 0u8 }),
    {
        led_command_byte(self.caps_lock_on, self.num_lock_on, self.scroll_lock_on)
    }

    /// Records that the LEDs were written.
    pub fn led_sent(&mut self)
        ensures
            *final(self) == (KeyboardManager { led_update_pending: false, ..*old(self) }),
    {
        self.led_update_pending = false;
    }

    /// Whether the combined code applies to `scan_code` now.
    #[allow(non_snake_case)]
    pub fn IsUseCombinedCode(&self, scan_code: u8) -> (r: bool)
        requires
            scan_code & 0x7F < KEY_MAPPINGTABLEMAXCOUNT,
        ensures
            r == use_combined(*self, scan_code),
    {
        let code = scan_code & 0x7F;
        if IsAlphabetScanCode(code) {
            self.shift_down != self.caps_lock_on
        } else if IsNumberOrSymbolScanCode(code) {
            self.shift_down
        } else if IsNumberPadScancode(code) && !self.extended_code_in {
            self.num_lock_on
        } else {
            false
        }
    }

    /// Updates shift and the lock keys after `scan_code`; a toggled lock marks
    /// the LEDs for rewriting.
    #[allow(non_snake_case)]
    pub fn UpdateCombinationKeyStatusAndLED(&mut self, scan_code: u8)
        ensures
            *final(self) == modifiers_after(*old(self), scan_code),
    {
        let down = scan_code & 0x80 == 0;
        let code = scan_code & 0x7F;
        if code == 42 || code == 54 {
            self.shift_down = down;
        } else if code == 58 && down {
            self.caps_lock_on = !self.caps_lock_on;
            self.led_update_pending = true;
        } else if code == 69 && down {
            self.num_lock_on = !self.num_lock_on;
            self.led_update_pending = true;
        } else if code == 70 && down {
            self.scroll_lock_on = !self.scroll_lock_on;
            self.led_update_pending = true;
        }
    }

    /// Translates one scancode byte. Returns the event it produces, if any.
    ///
    /// A pending pause skip swallows the byte; `0xE1` yields a pause key-down
    /// and arms the skip; `0xE0` only marks the next event as extended. Any
    /// other byte yields its code from the table and then updates the modifiers.
    #[allow(non_snake_case)]
    pub fn ConvertScanCodeToASCIICode(&mut self, scan_code: u8) -> (r: Option<KeyData>)
        requires
            convertible(*old(self), scan_code),
        ensures
            r == key_event(*old(self), scan_code),
            *final(self) == key_state(*old(self), scan_code),
    {
        if self.skip_count_for_pause > 0 {
            self.skip_count_for_pause = self.skip_count_for_pause - 1;
            return None;
        }
        if scan_code == 0xE1 {
            self.skip_count_for_pause = KEY_SKIPCOUNTFORPAUSE;
            return Some(
                KeyData {
                    scan_code,
                    ascii_code: KeySpecial::Pause.code(),
                    flags: KeyStatement::KeyFlagsDown.bits(),
                },
            );
        } else if scan_code == 0xE0 {
            self.extended_code_in = true;
            return None;
        }
        assert(scan_code & 0x7F == scan_code % 0x80) by (bit_vector);
        let entry = mapping_entry(scan_code & 0x7F);
        let ascii_code = if self.IsUseCombinedCode(scan_code) {
            entry.CombinedCode()
        } else {
            entry.NormalCode()
        };
        let extended: u8 = if self.extended_code_in {
            self.extended_code_in = false;
            KEY_FLAGS_EXTENDEDKEY
        } else {
            0
        };
        let down: u8 = if scan_code & 0x80 == 0 {
            KEY_FLAGS_DOWN
        } else {
            0
        };
        let flags = extended | down;
        self.UpdateCombinationKeyStatusAndLED(scan_code);
        Some(KeyData { scan_code, ascii_code, flags })
    }
}

/// Whether the translator accepts `scan_code` in the state `m`.
pub fn convertible_byte(m: &KeyboardManager, scan_code: u8) -> (r: bool)
    ensures
        r == convertible(*m, scan_code),
{
    assert(scan_code & 0x7F == scan_code % 0x80) by (bit_vector);
    m.skip_count_for_pause > 0 || scan_code == 0xE0 || scan_code == 0xE1 || (scan_code & 0x7F)
        < KEY_MAPPINGTABLEMAXCOUNT
}

/// Makes an empty key queue of `KEY_MAXQUEUECOUNT` events.
pub fn new_key_queue() -> (r: StaticQueue<KeyData>)
    ensures
        r.inv(),
        r@ == Seq::<KeyData>::empty(),
        r.capacity() == KEY_MAXQUEUECOUNT,
{
    let mut buffer: Vec<KeyData> = Vec::new();
    let mut i: usize = 0;
    while i < KEY_MAXQUEUECOUNT
        invariant
            i <= KEY_MAXQUEUECOUNT,
            buffer@.len() == i,
        decreases KEY_MAXQUEUECOUNT - i,
    {
        buffer.push(KeyData::new());
        i = i + 1;
    }
    StaticQueue::new(KEY_MAXQUEUECOUNT, buffer)
}

/// Translates `scan_code` and appends the event it produces, if any, to the
/// key queue. True when an event was queued.
#[allow(non_snake_case)]
pub fn ConvertScanCodeAndPutQueue(
    manager: &mut KeyboardManager,
    queue: &mut StaticQueue<KeyData>,
    scan_code: u8,
) -> (r: bool)
    requires
        old(queue).inv(),
        convertible(*old(manager), scan_code),
    ensures
        final(queue).inv(),
        final(queue).capacity() == old(queue).capacity(),
        *final(manager) == key_state(*old(manager), scan_code),
        r == (key_event(*old(manager), scan_code) is Some && old(queue)@.len() < old(queue).capacity()),
        r ==> final(queue)@ == old(queue)@.push(key_event(*old(manager), scan_code)->Some_0),
        !r ==> final(queue)@ == old(queue)@,
{
    match manager.ConvertScanCodeToASCIICode(scan_code) {
        Some(data) => queue.enqueue(&data),
        None => false,
    }
}

/// Takes the oldest event off the key queue into `data`. False, leaving
/// `data` as it was, when the queue is empty.
#[allow(non_snake_case)]
pub fn GetKeyFromKeyQueue(queue: &mut StaticQueue<KeyData>, data: &mut KeyData) -> (r: bool)
    requires
        old(queue).inv(),
    ensures
        final(queue).inv(),
        final(queue).capacity() == old(queue).capacity(),
        r == (old(queue)@.len() > 0),
        r ==> *final(data) == old(queue)@[0] && final(queue)@ == old(queue)@.drop_first(),
        !r ==> *final(data) == *old(data) && final(queue)@ == old(queue)@,
{
    match queue.dequeue() {
        Ok(res) => {
            *data = res;
            true
        },
        Err(()) => false,
    }
}

/// Drains key events until one that is a key-down and returns its code;
/// `None` when the queue runs dry first.
pub fn getch(queue: &mut StaticQueue<KeyData>) -> (r: Option<u8>)
    requires
        old(queue).inv(),
    ensures
        final(queue).inv(),
        final(queue).capacity() == old(queue).capacity(),
        r is None ==> final(queue)@.len() == 0 && forall|i: int|
            0 <= i < old(queue)@.len() ==> old(queue)@[i].flags & KEY_FLAGS_DOWN == 0,
        r is Some ==> exists|k: int|
            0 <= k < old(queue)@.len() && old(queue)@[k].flags & KEY_FLAGS_DOWN != 0 && (forall|
                i: int,
            |
                0 <= i < k ==> old(queue)@[i].flags & KEY_FLAGS_DOWN == 0) && r == Some(
                old(queue)@[k].ascii_code,
            ) && final(queue)@ == old(queue)@.subrange(k + 1, old(queue)@.len() as int),
{
    let ghost start = queue@;
    let ghost mut taken: int = 0;
    let mut data = KeyData::new();
    loop
        invariant
            queue.inv(),
            queue.capacity() == old(queue).capacity(),
            start == old(queue)@,
            0 <= taken <= start.len(),
            queue@ == start.subrange(taken, start.len() as int),
            forall|i: int| 0 <= i < taken ==> start[i].flags & KEY_FLAGS_DOWN == 0,
        decreases queue@.len(),
    {
        let ghost before = queue@;
        if !GetKeyFromKeyQueue(queue, &mut data) {
            assert(taken == start.len());
            return None;
        }
        proof {
            assert(data == start[taken]);
            taken = taken + 1;
            assert(queue@ =~= start.subrange(taken, start.len() as int));
        }
        if data.flags & KEY_FLAGS_DOWN != 0 {
            assert(start[taken - 1].flags & KEY_FLAGS_DOWN != 0);
            return Some(data.ascii_code);
        }
    }
}

} // verus!
