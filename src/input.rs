use vstd::prelude::*;

use crate::text::{chars_of, string_of};

verus! {

/// Modifier keys held down.
#[derive(Clone, Copy, Debug, PartialEq, Eq)]
pub struct ModifierState {
    pub ctrl: bool,
    pub shift: bool,
}

/// A key press with the modifiers held at the time.
#[derive(Clone, Copy, Debug, PartialEq, Eq)]
pub struct KeyPress {
    pub keysym: u32,
    pub sym: Option<char>,
    pub ctrl: bool,
    pub shift: bool,
}

/// The keys the launcher reacts to; every other key is `Other`.
#[derive(Clone, Copy, Debug, PartialEq, Eq)]
pub enum Key {
    Escape,
    Down,
    Up,
    Tab,
    IsoLeftTab,
    Left,
    Right,
    Return,
    IsoEnter,
    BackSpace,
    LowerC,
    LowerJ,
    LowerK,
    LowerW,
    BracketRight,
    Other,
}

/// What a key press asks of the launcher.
#[derive(Clone, Copy, Debug, PartialEq, Eq)]
pub enum KeyAction {
    Exit,
    NextItem,
    PrevItem,
    PrevSubitem,
    NextSubitem,
    /// Activate the selection; `with_fork` keeps the launcher open.
    Eval { with_fork: bool },
    RemoveChar,
    RemoveWord,
    ClearInput,
    /// Append the key's text to the input.
    AppendText,
    Ignore,
}

/// The key bindings: the first rule that applies wins.
pub open spec fn key_action_spec(key: Key, m: ModifierState, has_text: bool) -> KeyAction {
    if key == Key::Escape || (key == Key::LowerC && m.ctrl) {
        KeyAction::Exit
    } else if key == Key::Down || (key == Key::LowerJ && m.ctrl) || ((key == Key::Tab || key
        == Key::IsoLeftTab) && !m.shift) {
        KeyAction::NextItem
    } else if key == Key::Up || (key == Key::LowerK && m.ctrl) || ((key == Key::Tab || key
        == Key::IsoLeftTab) && m.shift) {
        KeyAction::PrevItem
    } else if key == Key::Left {
        KeyAction::PrevSubitem
    } else if key == Key::Right {
        KeyAction::NextSubitem
    } else if key == Key::Return || key == Key::IsoEnter {
        KeyAction::Eval { with_fork: m.ctrl }
    } else if key == Key::BackSpace && !m.ctrl {
        KeyAction::RemoveChar
    } else if (key == Key::BackSpace && m.ctrl) || (key == Key::LowerW && m.ctrl) {
        KeyAction::RemoveWord
    } else if key == Key::BracketRight && m.ctrl {
        KeyAction::ClearInput
    } else if !m.ctrl && has_text {
        KeyAction::AppendText
    } else {
        KeyAction::Ignore
    }
}

/// Decides what a key press does; `has_text` tells whether the key produced
/// text.
pub fn key_action(key: Key, m: ModifierState, has_text: bool) -> (r: KeyAction)
    ensures
        r == key_action_spec(key, m, has_text),
{
    match key {
        Key::Escape => KeyAction::Exit,
        Key::LowerC if m.ctrl => KeyAction::Exit,
        Key::Down => KeyAction::NextItem,
        Key::LowerJ if m.ctrl => KeyAction::NextItem,
        Key::Tab | Key::IsoLeftTab => {
            if m.shift {
                KeyAction::PrevItem
            } else {
                KeyAction::NextItem
            }
        },
        Key::Up => KeyAction::PrevItem,
        Key::LowerK if m.ctrl => KeyAction::PrevItem,
        Key::Left => KeyAction::PrevSubitem,
        Key::Right => KeyAction::NextSubitem,
        Key::Return | Key::IsoEnter => KeyAction::Eval { with_fork: m.ctrl },
        Key::BackSpace => {
            if m.ctrl {
                KeyAction::RemoveWord
            } else {
                KeyAction::RemoveChar
            }
        },
        Key::LowerW if m.ctrl => KeyAction::RemoveWord,
        Key::BracketRight if m.ctrl => KeyAction::ClearInput,
        _ => {
            if !m.ctrl && has_text {
                KeyAction::AppendText
            } else {
                KeyAction::Ignore
            }
        },
    }
}

/// What the event loop does after handling the pending window events.
#[derive(Clone, Copy, Debug, PartialEq, Eq)]
pub enum EventStatus {
    Finished,
    ShouldRedraw,
    Idle,
}

/// Values that can be animated.
#[derive(Clone, Copy, Debug, PartialEq, Eq, Hash)]
pub enum Animation {
    Height,
}

/// Animation durations, in milliseconds.
#[derive(Clone, Copy, Debug, PartialEq, Eq)]
pub struct AnimationConfig {
    pub height: u64,
}

/// The text the input line shows: the prompt (or nothing) while the input is
/// empty, one `*` per character in password mode, else the input itself. The
/// flag tells whether the prompt is shown.
pub open spec fn shown_input(raw: Seq<char>, prompt: Option<Seq<char>>, password: bool) -> (Seq<char>, bool) {
    if raw.len() == 0 {
        (
            match prompt {
                Some(p) => p,
                None => Seq::empty(),
            },
            true,
        )
    } else if password {
        (Seq::new(raw.len(), |i: int| '*'), false)
    } else {
        (raw, false)
    }
}

/// The text the input line shows, and whether it is the prompt.
pub fn input_display(raw: &str, prompt: Option<&str>, password: bool) -> (r: (String, bool))
    ensures
        (r.0@, r.1) == shown_input(
            raw@,
            match prompt {
                Some(p) => Some(p@),
                None => None,
            },
            password,
        ),
{
    let c = chars_of(raw);
    if c.len() == 0 {
        let text = match prompt {
            Some(p) => p.to_owned(),
            None => String::new(),
        };
        return (text, true);
    }
    if password {
        let mut stars: Vec<char> = Vec::new();
        let mut i: usize = 0;
        while i < c.len()
            invariant
                i <= c@.len(),
                stars@ =~= Seq::new(i as nat, |k: int| '*'),
            decreases c.len() - i,
        {
            stars.push('*');
            i += 1;
        }
        assert(c@.len() == raw@.len());
        (string_of(stars.as_slice()), false)
    } else {
        (raw.to_owned(), false)
    }
}

/// Pointer buttons the launcher reacts to.
#[derive(Clone, Copy, Debug, PartialEq, Eq)]
pub enum PointerButton {
    Left,
    Middle,
    Right,
    Back,
    Forward,
    Other,
}

/// What releasing a pointer button asks of the launcher.
#[derive(Clone, Copy, Debug, PartialEq, Eq)]
pub enum PointerAction {
    Exit,
    Eval { with_fork: bool },
    PrevSubitem,
    NextSubitem,
    Ignore,
}

/// The pointer bindings: a left click outside an overlay's content closes
/// it, the middle button activates the selection when so configured, the
/// right button closes, back and forward pick the sub-action.
pub open spec fn pointer_action_spec(
    button: PointerButton,
    overlay: bool,
    outside: bool,
    launch_on_middle: bool,
    ctrl: bool,
) -> PointerAction {
    match button {
        PointerButton::Left => if overlay && outside {
            PointerAction::Exit
        } else {
            PointerAction::Ignore
        },
        PointerButton::Middle => if launch_on_middle {
            PointerAction::Eval { with_fork: ctrl }
        } else {
            PointerAction::Ignore
        },
        PointerButton::Right => PointerAction::Exit,
        PointerButton::Back => PointerAction::PrevSubitem,
        PointerButton::Forward => PointerAction::NextSubitem,
        PointerButton::Other => PointerAction::Ignore,
    }
}

/// Decides what releasing `button` does.
pub fn pointer_action(
    button: PointerButton,
    overlay: bool,
    outside: bool,
    launch_on_middle: bool,
    ctrl: bool,
) -> (r: PointerAction)
    ensures
        r == pointer_action_spec(button, overlay, outside, launch_on_middle, ctrl),
{
    match button {
        PointerButton::Left => if overlay && outside {
            PointerAction::Exit
        } else {
            PointerAction::Ignore
        },
        PointerButton::Middle => if launch_on_middle {
            PointerAction::Eval { with_fork: ctrl }
        } else {
            PointerAction::Ignore
        },
        PointerButton::Right => PointerAction::Exit,
        PointerButton::Back => PointerAction::PrevSubitem,
        PointerButton::Forward => PointerAction::NextSubitem,
        PointerButton::Other => PointerAction::Ignore,
    }
}

} // verus!
