//! Input handling: keyboard state tracking and mouse button sets.

use vstd::prelude::*;
use rustc_hash::{FxBuildHasher, FxHashSet};
use crate::key::{lemma_key_char_domain, spec_key_of, Key, KeyCode};

verus! {

/// The hasher builder of the set of held keys.
#[verifier::external_type_specification]
#[verifier::external_body]
pub struct ExFxBuildHasher(FxBuildHasher);

/// Inserts `code` into a key set hashed with `FxBuildHasher`, by `HashSet::insert`.
///
/// The hasher is deterministic and `KeyCode`'s `Hash` and `Eq` are derived, so the set behaves
/// as a mathematical set: afterwards it holds `code` and everything it held before, and the result
/// says whether `code` was new.
#[verifier::external_body]
fn key_set_insert(set: &mut FxHashSet<KeyCode>, code: KeyCode) -> (r: bool)
    ensures
        final(set)@ == old(set)@.insert(code),
        r == !old(set)@.contains(code),
{
    set.insert(code)
}

/// Removes `code` from a key set hashed with `FxBuildHasher`, by `HashSet::remove`.
///
/// Afterwards the set holds what it held before but `code`, and the result says whether `code`
/// was there.
#[verifier::external_body]
fn key_set_remove(set: &mut FxHashSet<KeyCode>, code: &KeyCode) -> (r: bool)
    ensures
        final(set)@ == old(set)@.remove(*code),
        r == old(set)@.contains(*code),
{
    set.remove(code)
}

/// An empty key set hashed with `FxBuildHasher`, by `HashSet::default`.
#[verifier::external_body]
fn key_set_new() -> (set: FxHashSet<KeyCode>)
    ensures
        set@ == Set::<KeyCode>::empty(),
{
    FxHashSet::default()
}

/// A key input, read from a raw key event.
#[derive(Clone, Debug)]
pub enum KeyInput {
    /// A key down event.
    Press { key: Key, repeat: bool },
    /// A key up event; `valid` tells whether the key had been seen going down.
    Release { key: Key, valid: bool },
    /// A valid key up event after a valid key down event.
    FullPress(Key),
}

/// Turns raw key events into more intuitive [`KeyInput`]s, keeping track of the modifier
/// keys and of the keys currently held down.
#[derive(Debug)]
pub struct KeyEventParser {
    control_down: bool,
    shift_down: bool,
    alt_down: bool,
    super_down: bool,
    codes_down: FxHashSet<KeyCode>,
}

/// What a key going down does: the key is read with the current shift state, a modifier key
/// marks its modifier as held, the code joins the held keys, and one press is reported.
pub open spec fn key_down_step(
    before: KeyEventParser,
    code: KeyCode,
    repeat: bool,
    after: KeyEventParser,
    inputs: Seq<KeyInput>,
) -> bool {
    let key = spec_key_of(code.0, before.spec_shift());
    &&& inputs == seq![KeyInput::Press { key, repeat }]
    &&& after.spec_control() == (before.spec_control() || key is Control)
    &&& after.spec_shift() == (before.spec_shift() || key is Shift)
    &&& after.spec_alt() == (before.spec_alt() || key is Alt)
    &&& after.spec_super() == (before.spec_super() || key is Super)
    &&& after.spec_codes_down() == before.spec_codes_down().insert(code)
}

/// What a key coming up does: the key is read with the current shift state, a modifier key marks
/// its modifier as released, the code leaves the held keys, and one release is reported, valid
/// exactly when the code was held.
pub open spec fn key_up_step(
    before: KeyEventParser,
    code: KeyCode,
    after: KeyEventParser,
    inputs: Seq<KeyInput>,
) -> bool {
    let key = spec_key_of(code.0, before.spec_shift());
    &&& inputs == seq![KeyInput::Release { key, valid: before.spec_codes_down().contains(code) }]
    &&& after.spec_control() == (before.spec_control() && !(key is Control))
    &&& after.spec_shift() == (before.spec_shift() && !(key is Shift))
    &&& after.spec_alt() == (before.spec_alt() && !(key is Alt))
    &&& after.spec_super() == (before.spec_super() && !(key is Super))
    &&& after.spec_codes_down() == before.spec_codes_down().remove(code)
}

impl KeyEventParser {
    /// Whether a control key is held.
    pub closed spec fn spec_control(&self) -> bool {
        self.control_down
    }

    /// Whether a shift key is held.
    pub closed spec fn spec_shift(&self) -> bool {
        self.shift_down
    }

    /// Whether an alt key is held.
    pub closed spec fn spec_alt(&self) -> bool {
        self.alt_down
    }

    /// Whether a super key is held.
    pub closed spec fn spec_super(&self) -> bool {
        self.super_down
    }

    /// The keys that went down and have not come up since.
    pub closed spec fn spec_codes_down(&self) -> Set<KeyCode> {
        self.codes_down@
    }

    /// A parser with no key held.
    pub fn new() -> (p: Self)
        ensures
            !p.spec_control(),
            !p.spec_shift(),
            !p.spec_alt(),
            !p.spec_super(),
            p.spec_codes_down() == Set::<KeyCode>::empty(),
    {
        Self {
            control_down: false,
            shift_down: false,
            alt_down: false,
            super_down: false,
            codes_down: key_set_new(),
        }
    }

    pub fn is_control_down(&self) -> (r: bool)
        ensures
            r == self.spec_control(),
    {
        self.control_down
    }

    pub fn is_shift_down(&self) -> (r: bool)
        ensures
            r == self.spec_shift(),
    {
        self.shift_down
    }

    pub fn is_alt_down(&self) -> (r: bool)
        ensures
            r == self.spec_alt(),
    {
        self.alt_down
    }

    pub fn is_super_down(&self) -> (r: bool)
        ensures
            r == self.spec_super(),
    {
        self.super_down
    }

    /// Handle a key going down: the key is read with the current shift state, a modifier key
    /// marks its modifier as held, and the code joins the held keys.
    pub fn handle_key_down(&mut self, code: KeyCode, repeat: bool) -> (inputs: Vec<KeyInput>)
        ensures
            key_down_step(*old(self), code, repeat, *final(self), inputs@),
    {
        let key = Key::from_code(code, self.shift_down);
        match key {
            Key::Control => {
                self.control_down = true;
            },
            Key::Shift => {
                self.shift_down = true;
            },
            Key::Alt => {
                self.alt_down = true;
            },
            Key::Super => {
                self.super_down = true;
            },
            _ => {},
        }
        let _ = key_set_insert(&mut self.codes_down, code);
        let inputs = vec![KeyInput::Press { key, repeat }];
        assert(inputs@ == seq![KeyInput::Press { key, repeat }]);
        inputs
    }

    /// Handle a key coming up: the key is read with the current shift state, a modifier key
    /// marks its modifier as released, and the release is valid when the code was held.
    pub fn handle_key_up(&mut self, code: KeyCode) -> (inputs: Vec<KeyInput>)
        ensures
            key_up_step(*old(self), code, *final(self), inputs@),
    {
        let key = Key::from_code(code, self.shift_down);
        match key {
            Key::Control => {
                self.control_down = false;
            },
            Key::Shift => {
                self.shift_down = false;
            },
            Key::Alt => {
                self.alt_down = false;
            },
            Key::Super => {
                self.super_down = false;
            },
            _ => {},
        }
        let valid = key_set_remove(&mut self.codes_down, &code);
        let inputs = vec![KeyInput::Release { key, valid }];
        assert(inputs@ == seq![KeyInput::Release { key, valid }]);
        inputs
    }
}

/// A key that goes down and then comes up gives a valid release of the same key it pressed (for
/// any key but shift, whose press changes the shift state the release is read with), and it is no
/// longer held afterwards. A key that comes up without being held gives an invalid release.
pub proof fn lemma_press_then_release(
    p0: KeyEventParser,
    p1: KeyEventParser,
    p2: KeyEventParser,
    code: KeyCode,
    repeat: bool,
    down: Seq<KeyInput>,
    up: Seq<KeyInput>,
)
    requires
        key_down_step(p0, code, repeat, p1, down),
        key_up_step(p1, code, p2, up),
    ensures
        !(spec_key_of(code.0, p0.spec_shift()) is Shift) ==> up == seq![
            KeyInput::Release { key: spec_key_of(code.0, p0.spec_shift()), valid: true },
        ],
        !p2.spec_codes_down().contains(code),
{
}

/// Releasing a key that is not held is reported as invalid and leaves the held keys unchanged.
pub proof fn lemma_release_unheld(p0: KeyEventParser, p1: KeyEventParser, code: KeyCode, up: Seq<KeyInput>)
    requires
        key_up_step(p0, code, p1, up),
        !p0.spec_codes_down().contains(code),
    ensures
        up == seq![KeyInput::Release { key: spec_key_of(code.0, p0.spec_shift()), valid: false }],
        p1.spec_codes_down() == p0.spec_codes_down(),
{
    assert(p1.spec_codes_down() =~= p0.spec_codes_down());
}

/// Releasing a modifier key lets go of exactly its modifier: the left or right Alt key clears
/// Alt, a Control key Control, a Shift key Shift, a Meta key Super, and the other modifiers stay
/// as they were. Releasing any other key leaves every modifier as it was. The released code is no
/// longer held, every other code is held as before, and one release is reported, valid exactly
/// when the code was held.
pub proof fn lemma_key_up_modifiers(
    before: KeyEventParser,
    code: KeyCode,
    after: KeyEventParser,
    inputs: Seq<KeyInput>,
)
    requires
        key_up_step(before, code, after, inputs),
    ensures
        (code.0 == KeyCode::C_LALT || code.0 == KeyCode::C_RALT) ==> {
            &&& !after.spec_alt()
            &&& after.spec_control() == before.spec_control()
            &&& after.spec_shift() == before.spec_shift()
            &&& after.spec_super() == before.spec_super()
        },
        (code.0 == KeyCode::C_LCTRL || code.0 == KeyCode::C_RCTRL) ==> {
            &&& !after.spec_control()
            &&& after.spec_alt() == before.spec_alt()
            &&& after.spec_shift() == before.spec_shift()
            &&& after.spec_super() == before.spec_super()
        },
        (code.0 == KeyCode::C_LSHIFT || code.0 == KeyCode::C_RSHIFT) ==> {
            &&& !after.spec_shift()
            &&& after.spec_alt() == before.spec_alt()
            &&& after.spec_control() == before.spec_control()
            &&& after.spec_super() == before.spec_super()
        },
        (code.0 == KeyCode::C_LMETA || code.0 == KeyCode::C_RMETA) ==> {
            &&& !after.spec_super()
            &&& after.spec_alt() == before.spec_alt()
            &&& after.spec_control() == before.spec_control()
            &&& after.spec_shift() == before.spec_shift()
        },
        !(KeyCode::C_LCTRL <= code.0 <= KeyCode::C_RMETA) ==> {
            &&& after.spec_alt() == before.spec_alt()
            &&& after.spec_control() == before.spec_control()
            &&& after.spec_shift() == before.spec_shift()
            &&& after.spec_super() == before.spec_super()
        },
        !after.spec_codes_down().contains(code),
        forall|c: KeyCode|
            c != code ==> (#[trigger] after.spec_codes_down().contains(c)
                == before.spec_codes_down().contains(c)),
        inputs.len() == 1,
        inputs[0] is Release,
        inputs[0]->Release_valid == before.spec_codes_down().contains(code),
{
    lemma_key_char_domain(code.0, before.spec_shift());
}

/// Pressing a modifier key holds exactly its modifier: an Alt key holds Alt, a Control key
/// Control, a Shift key Shift, a Meta key Super, and the other modifiers stay as they were.
/// Pressing any other key leaves every modifier as it was. The pressed code is held afterwards,
/// every other code is held as before, and one press is reported.
pub proof fn lemma_key_down_modifiers(
    before: KeyEventParser,
    code: KeyCode,
    repeat: bool,
    after: KeyEventParser,
    inputs: Seq<KeyInput>,
)
    requires
        key_down_step(before, code, repeat, after, inputs),
    ensures
        (code.0 == KeyCode::C_LALT || code.0 == KeyCode::C_RALT) ==> {
            &&& after.spec_alt()
            &&& after.spec_control() == before.spec_control()
            &&& after.spec_shift() == before.spec_shift()
            &&& after.spec_super() == before.spec_super()
        },
        (code.0 == KeyCode::C_LCTRL || code.0 == KeyCode::C_RCTRL) ==> {
            &&& after.spec_control()
            &&& after.spec_alt() == before.spec_alt()
            &&& after.spec_shift() == before.spec_shift()
            &&& after.spec_super() == before.spec_super()
        },
        (code.0 == KeyCode::C_LSHIFT || code.0 == KeyCode::C_RSHIFT) ==> {
            &&& after.spec_shift()
            &&& after.spec_alt() == before.spec_alt()
            &&& after.spec_control() == before.spec_control()
            &&& after.spec_super() == before.spec_super()
        },
        (code.0 == KeyCode::C_LMETA || code.0 == KeyCode::C_RMETA) ==> {
            &&& after.spec_super()
            &&& after.spec_alt() == before.spec_alt()
            &&& after.spec_control() == before.spec_control()
            &&& after.spec_shift() == before.spec_shift()
        },
        !(KeyCode::C_LCTRL <= code.0 <= KeyCode::C_RMETA) ==> {
            &&& after.spec_alt() == before.spec_alt()
            &&& after.spec_control() == before.spec_control()
            &&& after.spec_shift() == before.spec_shift()
            &&& after.spec_super() == before.spec_super()
        },
        after.spec_codes_down().contains(code),
        forall|c: KeyCode|
            c != code ==> (#[trigger] after.spec_codes_down().contains(c)
                == before.spec_codes_down().contains(c)),
        inputs.len() == 1,
        inputs[0] is Press,
        inputs[0]->Press_repeat == repeat,
{
    lemma_key_char_domain(code.0, before.spec_shift());
}

/// A button on the user's mouse.
#[derive(Clone, Copy, Debug, Eq, Hash, PartialEq, Structural)]
pub enum MouseButton {
    Left,
    Right,
    Middle,
    Back,
    Forward,
    Other(u16),
}

/// A set of mouse buttons, one bit per button.
#[derive(Clone, Copy, Debug, Default, Eq, Hash, PartialEq, Structural)]
pub struct MouseButtonMask(u8);

impl MouseButtonMask {
    /// The left mouse button (LMB).
    pub const LEFT: u8 = 1;
    /// The right mouse button (RMB).
    pub const RIGHT: u8 = 2;
    /// The middle mouse button (MMB).
    pub const MIDDLE: u8 = 4;

    /// The bits of this set.
    pub closed spec fn spec_bits(&self) -> u8 {
        self.0
    }

    /// The empty set.
    pub fn empty() -> (m: Self)
        ensures
            m.spec_bits() == 0,
    {
        Self(0)
    }

    /// The set with exactly the given bits.
    pub fn from_bits_retain(bits: u8) -> (m: Self)
        ensures
            m.spec_bits() == bits,
    {
        Self(bits)
    }

    /// The bits of this set.
    pub fn bits(&self) -> (b: u8)
        ensures
            b == self.spec_bits(),
    {
        self.0
    }

    /// Whether every button of `other` is in this set.
    pub fn contains(&self, other: Self) -> (r: bool)
        ensures
            r == (self.spec_bits() & other.spec_bits() == other.spec_bits()),
    {
        self.0 & other.0 == other.0
    }

    /// Add the buttons of `other` to this set.
    pub fn insert(&mut self, other: Self)
        ensures
            final(self).spec_bits() == old(self).spec_bits() | other.spec_bits(),
    {
        self.0 = self.0 | other.0;
    }

    /// Take the buttons of `other` out of this set.
    pub fn remove(&mut self, other: Self)
        ensures
            final(self).spec_bits() == old(self).spec_bits() & !other.spec_bits(),
    {
        self.0 = self.0 & !other.0;
    }

    #[inline]
    pub fn left(&self) -> (r: bool)
        ensures
            r == (self.spec_bits() & 1 == 1),
    {
        self.contains(Self(Self::LEFT))
    }

    #[inline]
    pub fn right(&self) -> (r: bool)
        ensures
            r == (self.spec_bits() & 2 == 2),
    {
        self.contains(Self(Self::RIGHT))
    }

    #[inline]
    pub fn middle(&self) -> (r: bool)
        ensures
            r == (self.spec_bits() & 4 == 4),
    {
        self.contains(Self(Self::MIDDLE))
    }
}

/// Inserting a button makes it present, removing it makes it absent, and either leaves the other
/// two buttons as they were.
pub proof fn lemma_mask_insert_remove(bits: u8)
    ensures
        (bits | 1) & 1 == 1,
        (bits & !1u8) & 1 == 0,
        ((bits | 1) & 2 == 2) == (bits & 2 == 2),
        ((bits | 1) & 4 == 4) == (bits & 4 == 4),
        ((bits & !1u8) & 2 == 2) == (bits & 2 == 2),
        ((bits & !1u8) & 4 == 4) == (bits & 4 == 4),
        (bits | 2) & 2 == 2,
        (bits & !2u8) & 2 == 0,
        ((bits | 2) & 1 == 1) == (bits & 1 == 1),
        ((bits & !2u8) & 1 == 1) == (bits & 1 == 1),
        (bits | 4) & 4 == 4,
        (bits & !4u8) & 4 == 0,
{
    assert((bits | 1) & 1 == 1) by (bit_vector);
    assert((bits & !1u8) & 1 == 0) by (bit_vector);
    assert(((bits | 1) & 2 == 2) == (bits & 2 == 2)) by (bit_vector);
    assert(((bits | 1) & 4 == 4) == (bits & 4 == 4)) by (bit_vector);
    assert(((bits & !1u8) & 2 == 2) == (bits & 2 == 2)) by (bit_vector);
    assert(((bits & !1u8) & 4 == 4) == (bits & 4 == 4)) by (bit_vector);
    assert((bits | 2) & 2 == 2) by (bit_vector);
    assert((bits & !2u8) & 2 == 0) by (bit_vector);
    assert(((bits | 2) & 1 == 1) == (bits & 1 == 1)) by (bit_vector);
    assert(((bits & !2u8) & 1 == 1) == (bits & 1 == 1)) by (bit_vector);
    assert((bits | 4) & 4 == 4) by (bit_vector);
    assert((bits & !4u8) & 4 == 0) by (bit_vector);
}

} // verus!
