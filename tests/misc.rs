use yofi::color::{Color, ColorError};
use yofi::input::{input_display, key_action, pointer_action, Key, KeyAction, ModifierState, PointerAction, PointerButton};

const NONE: ModifierState = ModifierState { ctrl: false, shift: false };
const CTRL: ModifierState = ModifierState { ctrl: true, shift: false };
const SHIFT: ModifierState = ModifierState { ctrl: false, shift: true };

#[test]
fn rgba_round_trip() {
    let c = Color::from_rgba(0x12, 0x34, 0x56, 0x78);
    assert_eq!(c.0, 0x12345678);
    assert_eq!(c.to_rgba(), [0x12, 0x34, 0x56, 0x78]);
}

#[test]
fn parse_css_colors() {
    assert_eq!(Color::parse("#123"), Ok(Color::from_rgba(0x11, 0x22, 0x33, 0xff)));
    assert_eq!(Color::parse("#123456"), Ok(Color::from_rgba(0x12, 0x34, 0x56, 0xff)));
    assert_eq!(Color::parse("#12345678"), Ok(Color::from_rgba(0x12, 0x34, 0x56, 0x78)));
    assert_eq!(Color::parse("#aBcDeF"), Ok(Color(0xabcdefff)));
    assert_eq!(Color::parse(""), Err(ColorError::Empty));
    assert_eq!(Color::parse("123"), Err(ColorError::NotHex));
    assert_eq!(Color::parse("#12"), Err(ColorError::BadFormat));
    assert_eq!(Color::parse("#12g"), Err(ColorError::BadFormat));
}

#[test]
fn key_bindings() {
    assert_eq!(key_action(Key::Escape, NONE, false), KeyAction::Exit);
    assert_eq!(key_action(Key::LowerC, CTRL, true), KeyAction::Exit);
    assert_eq!(key_action(Key::LowerC, NONE, true), KeyAction::AppendText);
    assert_eq!(key_action(Key::Down, NONE, false), KeyAction::NextItem);
    assert_eq!(key_action(Key::LowerJ, CTRL, true), KeyAction::NextItem);
    assert_eq!(key_action(Key::Tab, NONE, true), KeyAction::NextItem);
    assert_eq!(key_action(Key::Tab, SHIFT, true), KeyAction::PrevItem);
    assert_eq!(key_action(Key::IsoLeftTab, SHIFT, false), KeyAction::PrevItem);
    assert_eq!(key_action(Key::Up, CTRL, false), KeyAction::PrevItem);
    assert_eq!(key_action(Key::Left, NONE, false), KeyAction::PrevSubitem);
    assert_eq!(key_action(Key::Right, NONE, false), KeyAction::NextSubitem);
    assert_eq!(key_action(Key::Return, CTRL, false), KeyAction::Eval { with_fork: true });
    assert_eq!(key_action(Key::IsoEnter, NONE, false), KeyAction::Eval { with_fork: false });
    assert_eq!(key_action(Key::BackSpace, NONE, false), KeyAction::RemoveChar);
    assert_eq!(key_action(Key::BackSpace, CTRL, false), KeyAction::RemoveWord);
    assert_eq!(key_action(Key::LowerW, CTRL, true), KeyAction::RemoveWord);
    assert_eq!(key_action(Key::BracketRight, CTRL, true), KeyAction::ClearInput);
    assert_eq!(key_action(Key::Other, CTRL, true), KeyAction::Ignore);
    assert_eq!(key_action(Key::Other, NONE, false), KeyAction::Ignore);
}

#[test]
fn input_line_text() {
    assert_eq!(input_display("", Some("run:"), false), ("run:".to_string(), true));
    assert_eq!(input_display("", None, true), (String::new(), true));
    assert_eq!(input_display("héllo", Some("p"), true), ("*****".to_string(), false));
    assert_eq!(input_display("abc", None, false), ("abc".to_string(), false));
}

#[test]
fn pointer_bindings() {
    assert_eq!(pointer_action(PointerButton::Left, true, true, false, false), PointerAction::Exit);
    assert_eq!(pointer_action(PointerButton::Left, true, false, false, false), PointerAction::Ignore);
    assert_eq!(pointer_action(PointerButton::Left, false, true, false, false), PointerAction::Ignore);
    assert_eq!(pointer_action(PointerButton::Middle, false, false, true, true), PointerAction::Eval { with_fork: true });
    assert_eq!(pointer_action(PointerButton::Middle, false, false, false, true), PointerAction::Ignore);
    assert_eq!(pointer_action(PointerButton::Right, false, false, false, false), PointerAction::Exit);
    assert_eq!(pointer_action(PointerButton::Back, false, false, false, false), PointerAction::PrevSubitem);
    assert_eq!(pointer_action(PointerButton::Forward, false, false, false, false), PointerAction::NextSubitem);
    assert_eq!(pointer_action(PointerButton::Other, true, true, true, true), PointerAction::Ignore);
}
