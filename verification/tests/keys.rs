use bog::input::{KeyEventParser, KeyInput, MouseButtonMask};
use bog::key::{Key, KeyCode};

#[test]
fn key_codes_type_their_characters() {
    assert_eq!(KeyCode(KeyCode::AN_A).to_char(false), Some('a'));
    assert_eq!(KeyCode(KeyCode::AN_A).to_char(true), Some('A'));
    assert_eq!(KeyCode(KeyCode::AN_1).to_char(false), Some('1'));
    assert_eq!(KeyCode(KeyCode::AN_1).to_char(true), Some('!'));
    assert_eq!(KeyCode(KeyCode::AN_SLASH).to_char(true), Some('/'));
    assert_eq!(KeyCode(KeyCode::AN_J).to_char(false), Some('i'));
    assert_eq!(KeyCode(KeyCode::AN_J).to_char(true), Some('J'));
    assert_eq!(KeyCode(KeyCode::C_SPACE).to_char(true), Some(' '));
    assert_eq!(KeyCode(KeyCode::C_ENTER).to_char(false), Some('\n'));
    assert_eq!(KeyCode(KeyCode::C_LSHIFT).to_char(false), None);
    assert_eq!(KeyCode(KeyCode::C_ARROWUP).to_char(true), None);
}

#[test]
fn key_codes_name_their_modifiers() {
    assert!(KeyCode(KeyCode::C_LCTRL).is_control());
    assert!(KeyCode(KeyCode::C_RSHIFT).is_shift());
    assert!(KeyCode(KeyCode::C_RALT).is_alt());
    assert!(KeyCode(KeyCode::C_LMETA).is_super());
    assert!(!KeyCode(KeyCode::AN_A).is_control());
    assert_eq!(Key::from_code(KeyCode(KeyCode::C_RCTRL), false), Key::Control);
    assert_eq!(Key::from_code(KeyCode(KeyCode::AN_B), true), Key::Char('B'));
    assert_eq!(Key::from_code(KeyCode(KeyCode::C_HOME), false), Key::Unknown);
    assert_eq!(Key::from((KeyCode(KeyCode::C_LALT), false)), Key::Alt);
    assert_eq!(u8::from(KeyCode::from(7u8)), 7);
}

#[test]
fn key_press_then_release_is_valid() {
    let mut parser = KeyEventParser::new();
    let down = parser.handle_key_down(KeyCode(KeyCode::AN_Q), false);
    assert_eq!(down.len(), 1);
    assert!(matches!(down[0], KeyInput::Press { key: Key::Char('q'), repeat: false }));
    let up = parser.handle_key_up(KeyCode(KeyCode::AN_Q));
    assert!(matches!(up[0], KeyInput::Release { key: Key::Char('q'), valid: true }));
    let again = parser.handle_key_up(KeyCode(KeyCode::AN_Q));
    assert!(matches!(again[0], KeyInput::Release { valid: false, .. }));
}

#[test]
fn key_release_without_press_is_invalid() {
    let mut parser = KeyEventParser::new();
    let up = parser.handle_key_up(KeyCode(KeyCode::AN_Z));
    assert!(matches!(up[0], KeyInput::Release { key: Key::Char('z'), valid: false }));
}

#[test]
fn key_modifiers_are_tracked() {
    let mut parser = KeyEventParser::new();
    assert!(!parser.is_shift_down());
    let _ = parser.handle_key_down(KeyCode(KeyCode::C_LSHIFT), false);
    assert!(parser.is_shift_down());
    let typed = parser.handle_key_down(KeyCode(KeyCode::AN_2), true);
    assert!(matches!(typed[0], KeyInput::Press { key: Key::Char('@'), repeat: true }));
    let _ = parser.handle_key_down(KeyCode(KeyCode::C_RCTRL), false);
    let _ = parser.handle_key_down(KeyCode(KeyCode::C_LALT), false);
    let _ = parser.handle_key_down(KeyCode(KeyCode::C_RMETA), false);
    assert!(parser.is_control_down() && parser.is_alt_down() && parser.is_super_down());
    let _ = parser.handle_key_up(KeyCode(KeyCode::C_RSHIFT));
    assert!(!parser.is_shift_down());
    let _ = parser.handle_key_up(KeyCode(KeyCode::C_LCTRL));
    assert!(!parser.is_control_down());
    assert!(parser.is_alt_down());
}

#[test]
fn mouse_mask_insert_then_remove() {
    let mut mask = MouseButtonMask::empty();
    assert!(!mask.left());
    mask.insert(MouseButtonMask::from_bits_retain(MouseButtonMask::LEFT));
    mask.insert(MouseButtonMask::from_bits_retain(MouseButtonMask::MIDDLE));
    assert!(mask.left() && mask.middle() && !mask.right());
    assert_eq!(mask.bits(), 5);
    assert!(mask.contains(MouseButtonMask::from_bits_retain(4)));
    mask.remove(MouseButtonMask::from_bits_retain(MouseButtonMask::LEFT));
    assert_eq!(mask.bits(), 4);
    mask.remove(MouseButtonMask::from_bits_retain(MouseButtonMask::MIDDLE));
    assert_eq!(mask, MouseButtonMask::empty());
}
