//! Event kinds and key codes of the event layer.

use vstd::prelude::*;

verus! {

/// A physical key, numbered by the toolkit's own layout-independent scheme.
///
/// The named codes are associated constants holding the raw number.
#[derive(Clone, Copy, Debug, Default, Eq, Hash, Ord, PartialEq, PartialOrd, Structural)]
pub struct KeyCode(pub u8);

impl From<u8> for KeyCode {
    fn from(value: u8) -> (r: Self) {
        Self(value)
    }
}

impl vstd::std_specs::convert::FromSpecImpl<u8> for KeyCode {
    open spec fn obeys_from_spec() -> bool {
        true
    }

    open spec fn from_spec(v: u8) -> KeyCode {
        KeyCode(v)
    }
}

impl From<KeyCode> for u8 {
    fn from(value: KeyCode) -> (r: u8) {
        value.0
    }
}

impl vstd::std_specs::convert::FromSpecImpl<KeyCode> for u8 {
    open spec fn obeys_from_spec() -> bool {
        true
    }

    open spec fn from_spec(v: KeyCode) -> u8 {
        v.0
    }
}

// Alphanumeric codes.
impl KeyCode {
    pub const AN_0: u8 = 0;
    pub const AN_1: u8 = 1;
    pub const AN_2: u8 = 2;
    pub const AN_3: u8 = 3;
    pub const AN_4: u8 = 4;
    pub const AN_5: u8 = 5;
    pub const AN_6: u8 = 6;
    pub const AN_7: u8 = 7;
    pub const AN_8: u8 = 8;
    pub const AN_9: u8 = 9;
    pub const AN_A: u8 = 10;
    pub const AN_B: u8 = 11;
    pub const AN_C: u8 = 12;
    pub const AN_D: u8 = 13;
    pub const AN_E: u8 = 14;
    pub const AN_F: u8 = 15;
    pub const AN_G: u8 = 16;
    pub const AN_H: u8 = 17;
    pub const AN_I: u8 = 18;
    pub const AN_J: u8 = 19;
    pub const AN_K: u8 = 20;
    pub const AN_L: u8 = 21;
    pub const AN_M: u8 = 22;
    pub const AN_N: u8 = 23;
    pub const AN_O: u8 = 24;
    pub const AN_P: u8 = 25;
    pub const AN_Q: u8 = 26;
    pub const AN_R: u8 = 27;
    pub const AN_S: u8 = 28;
    pub const AN_T: u8 = 29;
    pub const AN_U: u8 = 30;
    pub const AN_V: u8 = 31;
    pub const AN_W: u8 = 32;
    pub const AN_X: u8 = 33;
    pub const AN_Y: u8 = 34;
    pub const AN_Z: u8 = 35;
}

// Punctuation codes.
impl KeyCode {
    pub const AN_TILDE: u8 = 36;
    pub const AN_MINUS: u8 = 37;
    pub const AN_EQUAL: u8 = 38;
    pub const AN_LBRACKET: u8 = 39;
    pub const AN_RBRACKET: u8 = 40;
    pub const AN_BACKSLASH: u8 = 41;
    pub const AN_SEMICOLON: u8 = 42;
    pub const AN_APOSTROPHE: u8 = 43;
    pub const AN_COMMA: u8 = 44;
    pub const AN_DOT: u8 = 45;
    pub const AN_SLASH: u8 = 46;
}

// Control codes.
impl KeyCode {
    pub const C_LCTRL: u8 = 47;
    pub const C_RCTRL: u8 = 48;
    pub const C_LSHIFT: u8 = 49;
    pub const C_RSHIFT: u8 = 50;
    pub const C_LALT: u8 = 51;
    pub const C_RALT: u8 = 52;
    pub const C_LMETA: u8 = 53;
    pub const C_RMETA: u8 = 54;
    pub const C_SPACE: u8 = 55;
    pub const C_BACKSPACE: u8 = 56;
    pub const C_TAB: u8 = 57;
    pub const C_ENTER: u8 = 58;
    pub const C_ESCAPE: u8 = 59;
    pub const C_MENU: u8 = 60;
    pub const C_INSERT: u8 = 61;
    pub const C_DELETE: u8 = 62;
    pub const C_HOME: u8 = 63;
    pub const C_END: u8 = 64;
    pub const C_PAGEUP: u8 = 65;
    pub const C_PAGEDOWN: u8 = 66;
    pub const C_ARROWUP: u8 = 67;
    pub const C_ARROWDOWN: u8 = 68;
    pub const C_ARROWLEFT: u8 = 69;
    pub const C_ARROWRIGHT: u8 = 70;
}

pub enum EventType {
    /// ## Generation
    /// When the user presses a keyboard key, a *keydown* event is fired.
    ///
    /// ## Dispatch
    /// A *keydown* event is always dispatched in descending order of the current focus level.
    KeyDown,
    /// ## Generation
    /// When the user releases a keyboard key, a *keyup* event is fired.
    ///
    /// ## Dispatch
    /// A *keyup* event is always dispatched in descending order of the current focus level.
    KeyUp,
    MouseMove,
    MouseEnter,
    MouseLeave,
    MouseDown,
    MouseUp,
    /// ## Generation
    /// If the target of a *mouseup* event is the same target as that of the preceding *mousedown*
    /// event, then a *click* event must be fired if the button of both events is the user's
    /// **primary mouse button**.
    ///
    /// ## Dispatch
    /// A *click* event must always be dispatched to the topmost event target, indicated by the
    /// pointer's position at the time of the *mouseup* event generation.
    Click,
    AuxClick,
    /// ## Generation
    /// A *dblclick* event must be preceded by a *click* event. The first subsequent *click* event
    /// that would be fired within some set time frame following the first *click* event
    /// instead generates a *dblclick* event.
    ///
    /// ## Dispatch
    /// Like the *click* event, a *dblclick* event must be dispatched to the topmost event target,
    /// as indicated by the pointer's position at the time of the **second** *mouseup* event.
    DblClick,
    FocusIn,
    FocusOut,
}

/// Something that reacts to events; every reaction does nothing unless the implementor says
/// otherwise.
#[allow(unused_variables)]
pub trait EventTarget {
    type Context;

    fn on_keydown(&mut self, ctx: Self::Context) {
    }

    fn on_keyup(&mut self, ctx: Self::Context) {
    }

    fn on_mousemove(&mut self, ctx: Self::Context) {
    }

    fn on_mouseenter(&mut self, ctx: Self::Context) {
    }

    fn on_mouseleave(&mut self, ctx: Self::Context) {
    }

    fn on_mousedown(&mut self, ctx: Self::Context) {
    }

    fn on_mouseup(&mut self, ctx: Self::Context) {
    }

    fn on_click(&mut self, ctx: Self::Context) {
    }

    fn on_dblclick(&mut self, ctx: Self::Context) {
    }

    fn on_auxclick(&mut self, ctx: Self::Context) {
    }

    fn on_focusin(&mut self, ctx: Self::Context) {
    }

    fn on_focusout(&mut self, ctx: Self::Context) {
    }
}

pub enum RawEvent {
    KeyDown { code: KeyCode, repeat: bool },
    KeyUp { code: KeyCode },
}

} // verus!
