//! The logic of a PS/2 keyboard driver: which modifier keys are held, and
//! which character a scancode of scancode set 1 stands for.

use vstd::prelude::*;

verus! {

/// A modifier key that the keyboard has twice, on the left and on the
/// right.
#[derive(Clone, Copy, Debug, PartialEq, Eq, Structural)]
pub struct KeyPair {
    pub left: bool,
    pub right: bool,
}

impl KeyPair {
    /// A pair of keys of which none is held.
    pub fn new() -> (r: KeyPair)
        ensures
            !r.left,
            !r.right,
    {
        KeyPair { left: false, right: false }
    }

    /// Whether one of the two keys is held.
    pub open spec fn spec_is_pressed(&self) -> bool {
        self.left || self.right
    }

    /// Whether one of the two keys is held.
    #[verifier::when_used_as_spec(spec_is_pressed)]
    pub fn is_pressed(&self) -> (r: bool)
        ensures
            r == self.spec_is_pressed(),
    {
        self.left || self.right
    }
}

/// The modifier keys that are held, and whether caps lock is on.
#[derive(Clone, Copy, Debug, PartialEq, Eq, Structural)]
pub struct Modifiers {
    pub shift: KeyPair,
    pub control: KeyPair,
    pub alt: KeyPair,
    pub caps_lock: bool,
}

impl Modifiers {
    /// No key held, caps lock off.
    pub fn new() -> (r: Modifiers)
        ensures
            r == (Modifiers {
                shift: KeyPair { left: false, right: false },
                control: KeyPair { left: false, right: false },
                alt: KeyPair { left: false, right: false },
                caps_lock: false,
            }),
    {
        Modifiers {
            shift: KeyPair::new(),
            control: KeyPair::new(),
            alt: KeyPair::new(),
            caps_lock: false,
        }
    }

    /// Letters are upper case while either shift is held or caps lock is
    /// on, but not both.
    pub open spec fn spec_use_uppercase_letters(&self) -> bool {
        self.shift.is_pressed() != self.caps_lock
    }

    /// Whether letters are upper case now.
    #[verifier::when_used_as_spec(spec_use_uppercase_letters)]
    pub fn use_uppercase_letters(&self) -> (r: bool)
        ensures
            r == self.spec_use_uppercase_letters(),
    {
        self.shift.is_pressed() ^ self.caps_lock
    }

    /// The character that a key gives with these modifiers: the upper-case
    /// letter for a lower-case one while letters are upper case, else the
    /// character itself.
    pub open spec fn spec_apply_to(&self, ascii: u8) -> u8 {
        if 0x61 <= ascii <= 0x7A && self.use_uppercase_letters() {
            (ascii - 0x20) as u8
        } else {
            ascii
        }
    }

    /// The character that a key gives with these modifiers.
    #[verifier::when_used_as_spec(spec_apply_to)]
    pub fn apply_to(&self, ascii: u8) -> (r: u8)
        ensures
            r == self.spec_apply_to(ascii),
    {
        if 0x61 <= ascii && ascii <= 0x7A {
            if self.use_uppercase_letters() {
                return ascii - 0x61 + 0x41;
            }
        }
        ascii
    }

    /// The modifiers after `scancode`: a make code of left control, either
    /// shift or left alt marks the key as held, its break code as released,
    /// the make code of caps lock toggles caps lock, and every other
    /// scancode leaves the modifiers as they are.
    pub open spec fn after(self, scancode: u8) -> Modifiers {
        if scancode == 0x1D {
            Modifiers { control: KeyPair { left: true, ..self.control }, ..self }
        } else if scancode == 0x2A {
            Modifiers { shift: KeyPair { left: true, ..self.shift }, ..self }
        } else if scancode == 0x36 {
            Modifiers { shift: KeyPair { right: true, ..self.shift }, ..self }
        } else if scancode == 0x38 {
            Modifiers { alt: KeyPair { left: true, ..self.alt }, ..self }
        } else if scancode == 0x3A {
            Modifiers { caps_lock: !self.caps_lock, ..self }
        } else if scancode == 0x9D {
            Modifiers { control: KeyPair { left: false, ..self.control }, ..self }
        } else if scancode == 0xAA {
            Modifiers { shift: KeyPair { left: false, ..self.shift }, ..self }
        } else if scancode == 0xB6 {
            Modifiers { shift: KeyPair { right: false, ..self.shift }, ..self }
        } else if scancode == 0xB8 {
            Modifiers { alt: KeyPair { left: false, ..self.alt }, ..self }
        } else {
            self
        }
    }

    /// Takes note of `scancode`.
    pub fn update(&mut self, scancode: u8)
        ensures
            *final(self) == old(self).after(scancode),
    {
        match scancode {
            0x1D => self.control.left = true,
            0x2A => self.shift.left = true,
            0x36 => self.shift.right = true,
            0x38 => self.alt.left = true,
            0x3A => self.caps_lock = !self.caps_lock,
            0x9D => self.control.left = false,
            0xAA => self.shift.left = false,
            0xB6 => self.shift.right = false,
            0xB8 => self.alt.left = false,
            _ => {},
        }
    }
}

/// The characters of the keys with scancodes `0x01` to `0x0E`: escape, the
/// digits, minus and equals; the last key gives a null character.
pub open spec fn digit_row() -> Seq<u8> {
    seq![0x1Bu8, 0x31, 0x32, 0x33, 0x34, 0x35, 0x36, 0x37, 0x38, 0x39, 0x30, 0x2D, 0x3D, 0x00]
}

/// The characters of the keys with scancodes `0x0F` to `0x1C`: tab, `q` to
/// `p`, the square brackets and return.
pub open spec fn upper_row() -> Seq<u8> {
    seq![0x09u8, 0x71, 0x77, 0x65, 0x72, 0x74, 0x79, 0x75, 0x69, 0x6F, 0x70, 0x5B, 0x5D, 0x0D]
}

/// The characters of the keys with scancodes `0x1E` to `0x28`: `a` to `l`,
/// semicolon and apostrophe.
pub open spec fn home_row() -> Seq<u8> {
    seq![0x61u8, 0x73, 0x64, 0x66, 0x67, 0x68, 0x6A, 0x6B, 0x6C, 0x3B, 0x27]
}

/// The characters of the keys with scancodes `0x2C` to `0x35`: `z` to `m`,
/// comma, full stop and slash.
pub open spec fn lower_row() -> Seq<u8> {
    seq![0x7Au8, 0x78, 0x63, 0x76, 0x62, 0x6E, 0x6D, 0x2C, 0x2E, 0x2F]
}

/// The character of the key with the make code `scancode`, if the key has
/// one.
pub open spec fn spec_find_ascii(scancode: u8) -> Option<u8> {
    if 0x01 <= scancode <= 0x0E {
        Some(digit_row()[scancode - 0x01])
    } else if 0x0F <= scancode <= 0x1C {
        Some(upper_row()[scancode - 0x0F])
    } else if 0x1E <= scancode <= 0x28 {
        Some(home_row()[scancode - 0x1E])
    } else if 0x2C <= scancode <= 0x35 {
        Some(lower_row()[scancode - 0x2C])
    } else if scancode == 0x39 {
        Some(0x20u8)
    } else {
        None
    }
}

/// The character of the key with the make code `scancode`, if the key has
/// one.
#[verifier::when_used_as_spec(spec_find_ascii)]
pub fn find_ascii(scancode: u8) -> (r: Option<u8>)
    ensures
        r == spec_find_ascii(scancode),
{
    let idx: usize = scancode as usize;
    if 0x01 <= scancode && scancode <= 0x0E {
        let row: [u8; 14] = [
            0x1B,
            0x31,
            0x32,
            0x33,
            0x34,
            0x35,
            0x36,
            0x37,
            0x38,
            0x39,
            0x30,
            0x2D,
            0x3D,
            0x00,
        ];
        Some(row[idx - 0x01])
    } else if 0x0F <= scancode && scancode <= 0x1C {
        let row: [u8; 14] = [
            0x09,
            0x71,
            0x77,
            0x65,
            0x72,
            0x74,
            0x79,
            0x75,
            0x69,
            0x6F,
            0x70,
            0x5B,
            0x5D,
            0x0D,
        ];
        Some(row[idx - 0x0F])
    } else if 0x1E <= scancode && scancode <= 0x28 {
        let row: [u8; 11] = [0x61, 0x73, 0x64, 0x66, 0x67, 0x68, 0x6A, 0x6B, 0x6C, 0x3B, 0x27];
        Some(row[idx - 0x1E])
    } else if 0x2C <= scancode && scancode <= 0x35 {
        let row: [u8; 10] = [0x7A, 0x78, 0x63, 0x76, 0x62, 0x6E, 0x6D, 0x2C, 0x2E, 0x2F];
        Some(row[idx - 0x2C])
    } else if scancode == 0x39 {
        Some(0x20)
    } else {
        None
    }
}

/// Handles one scancode from the keyboard: the modifiers take note of it,
/// and if it is the make code of a key with a character, that character is
/// returned as the modifiers, the scancode taken note of, give it.
pub fn read_char(mods: &mut Modifiers, scancode: u8) -> (r: Option<char>)
    ensures
        *final(mods) == old(mods).after(scancode),
        r == match find_ascii(scancode) {
            Some(ascii) => Some(final(mods).apply_to(ascii) as char),
            None => None,
        },
{
    // The modifiers come first.
    mods.update(scancode);

    // Then the character of the key.
    if let Some(ascii) = find_ascii(scancode) {
        Some(mods.apply_to(ascii) as char)
    } else {
        None
    }
}

} // verus!
