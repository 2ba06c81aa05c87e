use toyos::keyboard::{find_ascii, read_char, KeyPair, Modifiers};

#[test]
fn a_pair_is_pressed_when_either_key_is() {
    assert!(!KeyPair::new().is_pressed());
    assert!(KeyPair { left: true, right: false }.is_pressed());
    assert!(KeyPair { left: false, right: true }.is_pressed());
    assert!(KeyPair { left: true, right: true }.is_pressed());
}

#[test]
fn new_modifiers_hold_nothing() {
    let mods = Modifiers::new();
    assert_eq!(KeyPair { left: false, right: false }, mods.shift);
    assert_eq!(KeyPair { left: false, right: false }, mods.control);
    assert_eq!(KeyPair { left: false, right: false }, mods.alt);
    assert!(!mods.caps_lock);
    assert!(!mods.use_uppercase_letters());
}

#[test]
fn make_and_break_codes_set_and_clear_modifiers() {
    let mut mods = Modifiers::new();
    mods.update(0x1D);
    assert!(mods.control.left && !mods.control.right);
    mods.update(0x2A);
    assert!(mods.shift.left && !mods.shift.right);
    mods.update(0x36);
    assert!(mods.shift.left && mods.shift.right);
    mods.update(0x38);
    assert!(mods.alt.left && !mods.alt.right);
    mods.update(0x9D);
    assert!(!mods.control.left);
    mods.update(0xAA);
    assert!(!mods.shift.left && mods.shift.right);
    mods.update(0xB6);
    assert!(!mods.shift.right);
    mods.update(0xB8);
    assert!(!mods.alt.left);
    assert_eq!(Modifiers::new(), mods);
}

#[test]
fn caps_lock_toggles_on_its_make_code_only() {
    let mut mods = Modifiers::new();
    mods.update(0x3A);
    assert!(mods.caps_lock);
    mods.update(0xBA);
    assert!(mods.caps_lock);
    mods.update(0x3A);
    assert!(!mods.caps_lock);
}

#[test]
fn other_scancodes_leave_the_modifiers() {
    let mut mods = Modifiers::new();
    mods.update(0x2A);
    let before = mods;
    for scancode in [0x00u8, 0x01, 0x1E, 0x39, 0x1C, 0x80, 0xFF, 0x37, 0x9E] {
        mods.update(scancode);
        assert_eq!(before, mods);
    }
}

#[test]
fn shift_and_caps_lock_cancel_each_other() {
    let mut mods = Modifiers::new();
    assert_eq!(b'a', mods.apply_to(b'a'));
    mods.update(0x2A);
    assert!(mods.use_uppercase_letters());
    assert_eq!(b'A', mods.apply_to(b'a'));
    assert_eq!(b'Z', mods.apply_to(b'z'));
    assert_eq!(b'M', mods.apply_to(b'm'));
    mods.update(0x3A);
    assert!(!mods.use_uppercase_letters());
    assert_eq!(b'a', mods.apply_to(b'a'));
    mods.update(0xAA);
    assert!(mods.use_uppercase_letters());
    assert_eq!(b'Q', mods.apply_to(b'q'));
}

#[test]
fn only_lower_case_letters_change() {
    let mut mods = Modifiers::new();
    mods.update(0x36);
    assert_eq!(b'1', mods.apply_to(b'1'));
    assert_eq!(b'`', mods.apply_to(b'`'));
    assert_eq!(b'{', mods.apply_to(b'{'));
    assert_eq!(b'A', mods.apply_to(b'A'));
    assert_eq!(b';', mods.apply_to(b';'));
    assert_eq!(0, mods.apply_to(0));
    assert_eq!(255, mods.apply_to(255));
}

#[test]
fn scancodes_map_to_the_keys_of_each_row() {
    let digits = b"\x1B1234567890-=\0";
    for (i, c) in digits.iter().enumerate() {
        assert_eq!(Some(*c), find_ascii(0x01 + i as u8));
    }
    let upper = b"\tqwertyuiop[]\r";
    for (i, c) in upper.iter().enumerate() {
        assert_eq!(Some(*c), find_ascii(0x0F + i as u8));
    }
    let home = b"asdfghjkl;'";
    for (i, c) in home.iter().enumerate() {
        assert_eq!(Some(*c), find_ascii(0x1E + i as u8));
    }
    let lower = b"zxcvbnm,./";
    for (i, c) in lower.iter().enumerate() {
        assert_eq!(Some(*c), find_ascii(0x2C + i as u8));
    }
    assert_eq!(Some(b' '), find_ascii(0x39));
}

#[test]
fn scancodes_without_a_character_map_to_nothing() {
    for scancode in [0x00u8, 0x1D, 0x29, 0x2A, 0x2B, 0x36, 0x37, 0x38, 0x3A, 0x3B, 0x80, 0x9E, 0xFF] {
        assert_eq!(None, find_ascii(scancode));
    }
    let with_character = (0u16..256).filter(|s| find_ascii(*s as u8).is_some()).count();
    assert_eq!(14 + 14 + 11 + 10 + 1, with_character);
}

#[test]
fn read_char_applies_the_modifiers() {
    let mut mods = Modifiers::new();
    assert_eq!(Some('a'), read_char(&mut mods, 0x1E));
    assert_eq!(None, read_char(&mut mods, 0x2A));
    assert!(mods.shift.left);
    assert_eq!(Some('A'), read_char(&mut mods, 0x1E));
    assert_eq!(Some('1'), read_char(&mut mods, 0x02));
    assert_eq!(None, read_char(&mut mods, 0xAA));
    assert_eq!(Some('a'), read_char(&mut mods, 0x1E));
    assert_eq!(None, read_char(&mut mods, 0x9E));
    assert_eq!(Some('\r'), read_char(&mut mods, 0x1C));
    assert_eq!(Some(' '), read_char(&mut mods, 0x39));
    assert_eq!(Some('\u{1b}'), read_char(&mut mods, 0x01));
    assert_eq!(Some('\0'), read_char(&mut mods, 0x0E));
}

#[test]
fn read_char_takes_note_of_caps_lock_before_the_key() {
    let mut mods = Modifiers::new();
    assert_eq!(None, read_char(&mut mods, 0x3A));
    assert!(mods.caps_lock);
    assert_eq!(Some('Z'), read_char(&mut mods, 0x2C));
    assert_eq!(None, read_char(&mut mods, 0x36));
    assert_eq!(Some('z'), read_char(&mut mods, 0x2C));
}
