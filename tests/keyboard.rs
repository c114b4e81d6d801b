use rustos_core::keyboard::{
    mapping_entry, new_key_queue, ConvertScanCodeAndPutQueue, GetKeyFromKeyQueue, IsAlphabetScanCode,
    IsInputBufferFull, IsNumberOrSymbolScanCode, IsNumberPadScancode, IsOutputBufferFull, KeyData,
    KeyboardManager, KeySpecial, convertible_byte, getch, led_command_byte, KEY_FLAGS_DOWN, KEY_FLAGS_EXTENDEDKEY,
};

#[test]
fn plain_letter_down_and_up() {
    let mut m = KeyboardManager::new();
    let down = m.ConvertScanCodeToASCIICode(30).unwrap();
    assert_eq!(down.ascii_code, b'a');
    assert_eq!(down.flags, KEY_FLAGS_DOWN);
    let up = m.ConvertScanCodeToASCIICode(30 | 0x80).unwrap();
    assert_eq!(up.ascii_code, b'a');
    assert_eq!(up.flags, 0);
}

#[test]
fn shift_gives_combined_code() {
    let mut m = KeyboardManager::new();
    assert_eq!(m.ConvertScanCodeToASCIICode(42).unwrap().ascii_code, KeySpecial::Lshift.code());
    assert!(m.shift_down);
    assert_eq!(m.ConvertScanCodeToASCIICode(30).unwrap().ascii_code, b'A');
    assert_eq!(m.ConvertScanCodeToASCIICode(2).unwrap().ascii_code, b'!');
    m.ConvertScanCodeToASCIICode(42 | 0x80);
    assert!(!m.shift_down);
    assert_eq!(m.ConvertScanCodeToASCIICode(2).unwrap().ascii_code, b'1');
}

#[test]
fn caps_lock_toggles_letters_not_digits() {
    let mut m = KeyboardManager::new();
    m.ConvertScanCodeToASCIICode(58);
    assert!(m.caps_lock_on);
    assert!(m.led_update_pending);
    assert_eq!(m.led_byte(), 4);
    m.led_sent();
    assert!(!m.led_update_pending);
    assert_eq!(m.ConvertScanCodeToASCIICode(16).unwrap().ascii_code, b'Q');
    assert_eq!(m.ConvertScanCodeToASCIICode(3).unwrap().ascii_code, b'2');
    m.ConvertScanCodeToASCIICode(42);
    assert_eq!(m.ConvertScanCodeToASCIICode(16).unwrap().ascii_code, b'q');
    m.ConvertScanCodeToASCIICode(58 | 0x80);
    assert!(m.caps_lock_on);
}

#[test]
fn num_lock_and_number_pad() {
    let mut m = KeyboardManager::new();
    assert_eq!(m.ConvertScanCodeToASCIICode(71).unwrap().ascii_code, KeySpecial::Home.code());
    m.ConvertScanCodeToASCIICode(69);
    assert!(m.num_lock_on);
    assert_eq!(m.ConvertScanCodeToASCIICode(71).unwrap().ascii_code, b'7');
    m.ConvertScanCodeToASCIICode(0xE0);
    let e = m.ConvertScanCodeToASCIICode(71).unwrap();
    assert_eq!(e.ascii_code, KeySpecial::Home.code());
    assert_eq!(e.flags, KEY_FLAGS_DOWN | KEY_FLAGS_EXTENDEDKEY);
}

#[test]
fn every_row_under_every_modifier_state() {
    for bits in 0..32u8 {
        for sc in 0..89u8 {
            let mut m = KeyboardManager::new();
            m.shift_down = bits & 1 != 0;
            m.caps_lock_on = bits & 2 != 0;
            m.num_lock_on = bits & 4 != 0;
            m.scroll_lock_on = bits & 8 != 0;
            m.extended_code_in = bits & 16 != 0;
            let before = m;
            let ev = m.ConvertScanCodeToASCIICode(sc).unwrap();
            let entry = mapping_entry(sc);
            let alpha = IsAlphabetScanCode(sc);
            let combined = if alpha {
                before.shift_down != before.caps_lock_on
            } else if IsNumberOrSymbolScanCode(sc) {
                before.shift_down
            } else if IsNumberPadScancode(sc) && !before.extended_code_in {
                before.num_lock_on
            } else {
                false
            };
            assert_eq!(combined, before.IsUseCombinedCode(sc));
            let want = if combined { entry.CombinedCode() } else { entry.NormalCode() };
            assert_eq!(ev.ascii_code, want, "scancode {} state {}", sc, bits);
            assert_ne!(ev.flags & KEY_FLAGS_DOWN, 0);
        }
    }
}

#[test]
fn extended_prefix_marks_only_next_event() {
    let mut m = KeyboardManager::new();
    assert!(m.ConvertScanCodeToASCIICode(0xE0).is_none());
    assert!(m.extended_code_in);
    let first = m.ConvertScanCodeToASCIICode(72).unwrap();
    assert_ne!(first.flags & KEY_FLAGS_EXTENDEDKEY, 0);
    let second = m.ConvertScanCodeToASCIICode(72).unwrap();
    assert_eq!(second.flags & KEY_FLAGS_EXTENDEDKEY, 0);
}

#[test]
fn pause_prefix_swallows_two_bytes() {
    let mut m = KeyboardManager::new();
    let ev = m.ConvertScanCodeToASCIICode(0xE1).unwrap();
    assert_eq!(ev.ascii_code, KeySpecial::Pause.code());
    assert_eq!(ev.flags, KEY_FLAGS_DOWN);
    assert!(m.ConvertScanCodeToASCIICode(0x1D).is_none());
    assert!(m.ConvertScanCodeToASCIICode(0xC5).is_none());
    assert_eq!(m.ConvertScanCodeToASCIICode(30).unwrap().ascii_code, b'a');
}

#[test]
fn status_bits() {
    assert!(IsOutputBufferFull(0x01));
    assert!(!IsOutputBufferFull(0x02));
    assert!(IsInputBufferFull(0x02));
    assert!(!IsInputBufferFull(0xFD));
}

#[test]
fn led_bits() {
    assert_eq!(led_command_byte(true, false, false), 4);
    assert_eq!(led_command_byte(false, true, false), 2);
    assert_eq!(led_command_byte(false, false, true), 1);
    assert_eq!(led_command_byte(true, true, true), 7);
}

#[test]
fn key_queue_round_trip_and_getch() {
    let mut m = KeyboardManager::new();
    let mut q = new_key_queue();
    assert!(ConvertScanCodeAndPutQueue(&mut m, &mut q, 35));
    assert!(ConvertScanCodeAndPutQueue(&mut m, &mut q, 35 | 0x80));
    assert!(!ConvertScanCodeAndPutQueue(&mut m, &mut q, 0xE0));
    assert!(ConvertScanCodeAndPutQueue(&mut m, &mut q, 23));
    let mut data = KeyData::new();
    assert!(GetKeyFromKeyQueue(&mut q, &mut data));
    assert_eq!(data.ascii_code, b'h');
    assert_eq!(data.scan_code, 35);
    assert_eq!(getch(&mut q), Some(b'i'));
    assert_eq!(getch(&mut q), None);
    assert!(!GetKeyFromKeyQueue(&mut q, &mut data));
    assert_eq!(data.ascii_code, b'h');
}

#[test]
fn key_queue_drops_when_full() {
    let mut m = KeyboardManager::new();
    let mut q = new_key_queue();
    for _ in 0..100 {
        assert!(ConvertScanCodeAndPutQueue(&mut m, &mut q, 30));
    }
    assert!(!ConvertScanCodeAndPutQueue(&mut m, &mut q, 31));
    assert!(q.is_full());
}

#[test]
fn translator_accepts_table_rows_and_prefixes() {
    let mut m = KeyboardManager::new();
    assert!(convertible_byte(&m, 0xE0));
    assert!(convertible_byte(&m, 88 | 0x80));
    assert!(!convertible_byte(&m, 89));
    assert!(!convertible_byte(&m, 0x7F));
    m.ConvertScanCodeToASCIICode(0xE1);
    assert!(convertible_byte(&m, 0x7F));
}
