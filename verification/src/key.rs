//! Key event types.

use vstd::prelude::*;

verus! {

/// A key press or release, as reported by the windowing system.
#[derive(Clone, Copy, Debug, Eq, Hash, PartialEq, Structural)]
pub enum KeyUpdate {
    Down { code: KeyCode, repeat: bool },
    Up { code: KeyCode },
}

/// A physical key, numbered by the toolkit's own layout-independent scheme.
///
/// The named codes are associated constants holding the raw number, so `KeyCode(KeyCode::AN_A)`
/// is the `A` key.
#[derive(Clone, Copy, Debug, Default, Eq, Hash, Ord, PartialEq, PartialOrd, Structural)]
pub struct KeyCode(pub u8);

impl From<u8> for KeyCode {
    fn from(value: u8) -> (r: Self) {
        Self(value)
    }
}

impl vstd::std_specs::convert::FromSpecImpl<u8> for KeyCode {
    open spec fn obeys_from_spec() -> bool {
        true
    }

    open spec fn from_spec(v: u8) -> KeyCode {
        KeyCode(v)
    }
}

impl From<KeyCode> for u8 {
    fn from(value: KeyCode) -> (r: u8) {
        value.0
    }
}

impl vstd::std_specs::convert::FromSpecImpl<KeyCode> for u8 {
    open spec fn obeys_from_spec() -> bool {
        true
    }

    open spec fn from_spec(v: KeyCode) -> u8 {
        v.0
    }
}

// Alphanumeric codes.
impl KeyCode {
    pub const AN_0: u8 = 0;
    pub const AN_1: u8 = 1;
    pub const AN_2: u8 = 2;
    pub const AN_3: u8 = 3;
    pub const AN_4: u8 = 4;
    pub const AN_5: u8 = 5;
    pub const AN_6: u8 = 6;
    pub const AN_7: u8 = 7;
    pub const AN_8: u8 = 8;
    pub const AN_9: u8 = 9;
    pub const AN_A: u8 = 10;
    pub const AN_B: u8 = 11;
    pub const AN_C: u8 = 12;
    pub const AN_D: u8 = 13;
    pub const AN_E: u8 = 14;
    pub const AN_F: u8 = 15;
    pub const AN_G: u8 = 16;
    pub const AN_H: u8 = 17;
    pub const AN_I: u8 = 18;
    pub const AN_J: u8 = 19;
    pub const AN_K: u8 = 20;
    pub const AN_L: u8 = 21;
    pub const AN_M: u8 = 22;
    pub const AN_N: u8 = 23;
    pub const AN_O: u8 = 24;
    pub const AN_P: u8 = 25;
    pub const AN_Q: u8 = 26;
    pub const AN_R: u8 = 27;
    pub const AN_S: u8 = 28;
    pub const AN_T: u8 = 29;
    pub const AN_U: u8 = 30;
    pub const AN_V: u8 = 31;
    pub const AN_W: u8 = 32;
    pub const AN_X: u8 = 33;
    pub const AN_Y: u8 = 34;
    pub const AN_Z: u8 = 35;
}

// Punctuation codes.
impl KeyCode {
    pub const AN_TILDE: u8 = 36;
    pub const AN_MINUS: u8 = 37;
    pub const AN_EQUAL: u8 = 38;
    pub const AN_LBRACKET: u8 = 39;
    pub const AN_RBRACKET: u8 = 40;
    pub const AN_BACKSLASH: u8 = 41;
    pub const AN_SEMICOLON: u8 = 42;
    pub const AN_APOSTROPHE: u8 = 43;
    pub const AN_COMMA: u8 = 44;
    pub const AN_DOT: u8 = 45;
    pub const AN_SLASH: u8 = 46;
}

// Control codes.
impl KeyCode {
    pub const C_LCTRL: u8 = 47;
    pub const C_RCTRL: u8 = 48;
    pub const C_LSHIFT: u8 = 49;
    pub const C_RSHIFT: u8 = 50;
    pub const C_LALT: u8 = 51;
    pub const C_RALT: u8 = 52;
    pub const C_LMETA: u8 = 53;
    pub const C_RMETA: u8 = 54;
    pub const C_SPACE: u8 = 55;
    pub const C_BACKSPACE: u8 = 56;
    pub const C_TAB: u8 = 57;
    pub const C_ENTER: u8 = 58;
    pub const C_ESCAPE: u8 = 59;
    pub const C_MENU: u8 = 60;
    pub const C_INSERT: u8 = 61;
    pub const C_DELETE: u8 = 62;
    pub const C_HOME: u8 = 63;
    pub const C_END: u8 = 64;
    pub const C_PAGEUP: u8 = 65;
    pub const C_PAGEDOWN: u8 = 66;
    pub const C_ARROWUP: u8 = 67;
    pub const C_ARROWDOWN: u8 = 68;
    pub const C_ARROWLEFT: u8 = 69;
    pub const C_ARROWRIGHT: u8 = 70;
}

/// The characters the digit keys give while shift is held, from `0` to `9`.
pub open spec fn shifted_digit_chars() -> Seq<char> {
    seq![')', '!', '@', '#', '$', '%', '^', '&', '*', '(']
}

/// The characters the punctuation keys (codes 36 to 46) give without shift.
pub open spec fn punctuation_chars() -> Seq<char> {
    seq!['`', '-', '=', '[', ']', '\\', ';', '\'', ',', '.', '/']
}

/// The characters the punctuation keys (codes 36 to 46) give while shift is held.
pub open spec fn shifted_punctuation_chars() -> Seq<char> {
    seq!['~', '_', '+', '{', '}', '|', ':', '"', '<', '>', '/']
}

/// The character a key code types, if any.
///
/// Digit keys give `0`-`9` (or the symbol above them when shifted), letter keys give lower-case
/// letters (upper-case when shifted; the `J` key without shift gives `i`, as the key table has
/// it), punctuation keys give their symbol, and space, tab and enter give `' '`, `'\\t'` and
/// `'\\n'` whether shifted or not. Every other code gives nothing.
pub open spec fn spec_key_char(code: u8, shifted: bool) -> Option<char> {
    if code <= 9 {
        if shifted {
            Some(shifted_digit_chars()[code as int])
        } else {
            Some(('0' as u32 + code) as char)
        }
    } else if code <= 35 {
        if shifted {
            Some(('A' as u32 + (code - 10)) as char)
        } else if code == KeyCode::AN_J {
            Some('i')
        } else {
            Some(('a' as u32 + (code - 10)) as char)
        }
    } else if code <= 46 {
        if shifted {
            Some(shifted_punctuation_chars()[code - 36])
        } else {
            Some(punctuation_chars()[code - 36])
        }
    } else if code == KeyCode::C_SPACE {
        Some(' ')
    } else if code == KeyCode::C_TAB {
        Some('\t')
    } else if code == KeyCode::C_ENTER {
        Some('\n')
    } else {
        None
    }
}

// Utilities.
impl KeyCode {
    /// Convert this keycode into a `char`, if possible.
    #[verifier::rlimit(50)]
    pub fn to_char(&self, shifted: bool) -> (r: Option<char>)
        ensures
            r == spec_key_char(self.0, shifted),
    {
        let c = match (self.0, shifted) {
            (0, false) => '0', // AN_0
            (0, true) => ')', // AN_0
            (1, false) => '1', // AN_1
            (1, true) => '!', // AN_1
            (2, false) => '2', // AN_2
            (2, true) => '@', // AN_2
            (3, false) => '3', // AN_3
            (3, true) => '#', // AN_3
            (4, false) => '4', // AN_4
            (4, true) => '$', // AN_4
            (5, false) => '5', // AN_5
            (5, true) => '%', // AN_5
            (6, false) => '6', // AN_6
            (6, true) => '^', // AN_6
            (7, false) => '7', // AN_7
            (7, true) => '&', // AN_7
            (8, false) => '8', // AN_8
            (8, true) => '*', // AN_8
            (9, false) => '9', // AN_9
            (9, true) => '(', // AN_9
            (10, false) => 'a', // AN_A
            (10, true) => 'A', // AN_A
            (11, false) => 'b', // AN_B
            (11, true) => 'B', // AN_B
            (12, false) => 'c', // AN_C
            (12, true) => 'C', // AN_C
            (13, false) => 'd', // AN_D
            (13, true) => 'D', // AN_D
            (14, false) => 'e', // AN_E
            (14, true) => 'E', // AN_E
            (15, false) => 'f', // AN_F
            (15, true) => 'F', // AN_F
            (16, false) => 'g', // AN_G
            (16, true) => 'G', // AN_G
            (17, false) => 'h', // AN_H
            (17, true) => 'H', // AN_H
            (18, false) => 'i', // AN_I
            (18, true) => 'I', // AN_I
            (19, false) => 'i', // AN_J
            (19, true) => 'J', // AN_J
            (20, false) => 'k', // AN_K
            (20, true) => 'K', // AN_K
            (21, false) => 'l', // AN_L
            (21, true) => 'L', // AN_L
            (22, false) => 'm', // AN_M
            (22, true) => 'M', // AN_M
            (23, false) => 'n', // AN_N
            (23, true) => 'N', // AN_N
            (24, false) => 'o', // AN_O
            (24, true) => 'O', // AN_O
            (25, false) => 'p', // AN_P
            (25, true) => 'P', // AN_P
            (26, false) => 'q', // AN_Q
            (26, true) => 'Q', // AN_Q
            (27, false) => 'r', // AN_R
            (27, true) => 'R', // AN_R
            (28, false) => 's', // AN_S
            (28, true) => 'S', // AN_S
            (29, false) => 't', // AN_T
            (29, true) => 'T', // AN_T
            (30, false) => 'u', // AN_U
            (30, true) => 'U', // AN_U
            (31, false) => 'v', // AN_V
            (31, true) => 'V', // AN_V
            (32, false) => 'w', // AN_W
            (32, true) => 'W', // AN_W
            (33, false) => 'x', // AN_X
            (33, true) => 'X', // AN_X
            (34, false) => 'y', // AN_Y
            (34, true) => 'Y', // AN_Y
            (35, false) => 'z', // AN_Z
            (35, true) => 'Z', // AN_Z
            (36, false) => '`', // AN_TILDE
            (37, false) => '-', // AN_MINUS
            (38, false) => '=', // AN_EQUAL
            (39, false) => '[', // AN_LBRACKET
            (40, false) => ']', // AN_RBRACKET
            (41, false) => '\\', // AN_BACKSLASH
            (42, false) => ';', // AN_SEMICOLON
            (43, false) => '\'', // AN_APOSTROPHE
            (44, false) => ',', // AN_COMMA
            (45, false) => '.', // AN_DOT
            (46, false) => '/', // AN_SLASH
            (36, true) => '~', // AN_TILDE
            (37, true) => '_', // AN_MINUS
            (38, true) => '+', // AN_EQUAL
            (39, true) => '{', // AN_LBRACKET
            (40, true) => '}', // AN_RBRACKET
            (41, true) => '|', // AN_BACKSLASH
            (42, true) => ':', // AN_SEMICOLON
            (43, true) => '"', // AN_APOSTROPHE
            (44, true) => '<', // AN_COMMA
            (45, true) => '>', // AN_DOT
            (46, true) => '/', // AN_SLASH
            (55, _) => ' ', // C_SPACE
            (57, _) => '\t', // C_TAB
            (58, _) => '\n', // C_ENTER
            _ => {
                return None;
            },
        };
        Some(c)
    }

    pub fn is_control(&self) -> (r: bool)
        ensures
            r == (self.0 == Self::C_LCTRL || self.0 == Self::C_RCTRL),
    {
        self.0 == Self::C_LCTRL || self.0 == Self::C_RCTRL
    }

    pub fn is_shift(&self) -> (r: bool)
        ensures
            r == (self.0 == Self::C_LSHIFT || self.0 == Self::C_RSHIFT),
    {
        self.0 == Self::C_LSHIFT || self.0 == Self::C_RSHIFT
    }

    pub fn is_alt(&self) -> (r: bool)
        ensures
            r == (self.0 == Self::C_LALT || self.0 == Self::C_RALT),
    {
        self.0 == Self::C_LALT || self.0 == Self::C_RALT
    }

    pub fn is_super(&self) -> (r: bool)
        ensures
            r == (self.0 == Self::C_LMETA || self.0 == Self::C_RMETA),
    {
        self.0 == Self::C_LMETA || self.0 == Self::C_RMETA
    }
}

/// A virtual, more easily understandable version of a [`KeyCode`].
#[derive(Clone, Copy, Debug, Eq, Hash, PartialEq, Structural)]
pub enum Key {
    Char(char),
    Control,
    Shift,
    Alt,
    Super,
    Unknown,
}

/// The virtual key of a key code, given whether shift is held: its character if it types one,
/// else the modifier it is, else `Unknown`.
pub open spec fn spec_key_of(code: u8, shifted: bool) -> Key {
    match spec_key_char(code, shifted) {
        Some(ch) => Key::Char(ch),
        None => if code == KeyCode::C_LCTRL || code == KeyCode::C_RCTRL {
            Key::Control
        } else if code == KeyCode::C_LSHIFT || code == KeyCode::C_RSHIFT {
            Key::Shift
        } else if code == KeyCode::C_LALT || code == KeyCode::C_RALT {
            Key::Alt
        } else if code == KeyCode::C_LMETA || code == KeyCode::C_RMETA {
            Key::Super
        } else {
            Key::Unknown
        },
    }
}

impl Key {
    /// The virtual key for `code`, given whether shift is held.
    pub fn from_code(code: KeyCode, shifted: bool) -> (k: Key)
        ensures
            k == spec_key_of(code.0, shifted),
    {
        if let Some(ch) = code.to_char(shifted) {
            Self::Char(ch)
        } else if code.is_control() {
            Self::Control
        } else if code.is_shift() {
            Self::Shift
        } else if code.is_alt() {
            Self::Alt
        } else if code.is_super() {
            Self::Super
        } else {
            Self::Unknown
        }
    }
}

impl From<(KeyCode, bool)> for Key {
    fn from(value: (KeyCode, bool)) -> (k: Self) {
        Self::from_code(value.0, value.1)
    }
}

impl vstd::std_specs::convert::FromSpecImpl<(KeyCode, bool)> for Key {
    open spec fn obeys_from_spec() -> bool {
        true
    }

    open spec fn from_spec(v: (KeyCode, bool)) -> Key {
        spec_key_of(v.0.0, v.1)
    }
}

/// Exactly the digit, letter and punctuation keys and space, tab and enter type a character; the
/// modifier keys are never mistaken for one, and shift changes the character of no key but the
/// digit, letter and punctuation keys.
pub proof fn lemma_key_char_domain(code: u8, shifted: bool)
    ensures
        spec_key_char(code, shifted) is Some <==> (code <= 46 || code == KeyCode::C_SPACE
            || code == KeyCode::C_TAB || code == KeyCode::C_ENTER),
        code > 46 ==> spec_key_char(code, shifted) == spec_key_char(code, !shifted),
        (KeyCode::C_LCTRL <= code <= KeyCode::C_RMETA) ==> spec_key_of(code, shifted) !is Char,
{
}

/// The characters the keys type, as a keyboard table: the digit keys type `0` to `9` in order
/// without shift and `)!@#$%^&*(` with it; the letter keys (codes 10 to 35) type the capitals `A`
/// to `Z` in order with shift and the same letters in lower case without it (the `J` key gives
/// `i`, as the key table has it); the punctuation keys (codes 36 to 46) type
/// `` ` - = [ ] \ ; ' , . / `` without shift and `~ _ + { } | : " < > /` with it; space, tab and
/// enter type `' '`, `'\t'` and `'\n'` either way.
pub proof fn lemma_key_char_table(code: u8, shifted: bool)
    ensures
        code <= 9 && !shifted ==> spec_key_char(code, false) == Some(
            seq!['0', '1', '2', '3', '4', '5', '6', '7', '8', '9'][code as int],
        ),
        code <= 9 && shifted ==> spec_key_char(code, true) == Some(
            seq![')', '!', '@', '#', '$', '%', '^', '&', '*', '('][code as int],
        ),
        10 <= code <= 35 && shifted ==> spec_key_char(code, true) == Some(
            seq![
                'A', 'B', 'C', 'D', 'E', 'F', 'G', 'H', 'I', 'J', 'K', 'L', 'M', 'N', 'O', 'P',
                'Q', 'R', 'S', 'T', 'U', 'V', 'W', 'X', 'Y', 'Z',
            ][code - 10],
        ),
        10 <= code <= 35 && code != KeyCode::AN_J && !shifted ==> spec_key_char(code, false)
            == Some(
            seq![
                'a', 'b', 'c', 'd', 'e', 'f', 'g', 'h', 'i', 'j', 'k', 'l', 'm', 'n', 'o', 'p',
                'q', 'r', 's', 't', 'u', 'v', 'w', 'x', 'y', 'z',
            ][code - 10],
        ),
        code == KeyCode::AN_J && !shifted ==> spec_key_char(code, false) == Some('i'),
        36 <= code <= 46 && !shifted ==> spec_key_char(code, false) == Some(
            seq!['`', '-', '=', '[', ']', '\\', ';', '\'', ',', '.', '/'][code - 36],
        ),
        36 <= code <= 46 && shifted ==> spec_key_char(code, true) == Some(
            seq!['~', '_', '+', '{', '}', '|', ':', '"', '<', '>', '/'][code - 36],
        ),
        code == KeyCode::C_SPACE ==> spec_key_char(code, shifted) == Some(' '),
        code == KeyCode::C_TAB ==> spec_key_char(code, shifted) == Some('\t'),
        code == KeyCode::C_ENTER ==> spec_key_char(code, shifted) == Some('\n'),
        !(code <= 46 || code == KeyCode::C_SPACE || code == KeyCode::C_TAB || code
            == KeyCode::C_ENTER) ==> spec_key_char(code, shifted) is None,
{
    assert(code <= 9 || 10 <= code <= 35 || 36 <= code <= 46 || code > 46);
    if code == 0 {} else if code == 1 {} else if code == 2 {} else if code == 3 {} else if code == 4 {
    } else if code == 5 {} else if code == 6 {} else if code == 7 {} else if code == 8 {
    } else if code == 9 {} else if code == 10 {} else if code == 11 {} else if code == 12 {
    } else if code == 13 {} else if code == 14 {} else if code == 15 {} else if code == 16 {
    } else if code == 17 {} else if code == 18 {} else if code == 19 {} else if code == 20 {
    } else if code == 21 {} else if code == 22 {} else if code == 23 {} else if code == 24 {
    } else if code == 25 {} else if code == 26 {} else if code == 27 {} else if code == 28 {
    } else if code == 29 {} else if code == 30 {} else if code == 31 {} else if code == 32 {
    } else if code == 33 {} else if code == 34 {} else if code == 35 {}
}

} // verus!
