//! Keys as a terminal reports them.
use vstd::prelude::*;

verus! {

/// Which key was pressed.
#[derive(Debug, Clone, Copy, PartialEq, Eq, Structural)]
pub enum KeyCode {
    Char(char),
    Escape,
    /// Any other key, by its number.
    Other(u32),
}

/// The modifier keys that were down.
#[derive(Debug, Clone, Copy, PartialEq, Eq, Structural)]
pub struct Modifiers {
    pub ctrl: bool,
    pub alt: bool,
    pub shift: bool,
}

impl Modifiers {
    /// No modifier.
    pub fn none() -> (modifiers: Self)
        ensures
            modifiers == (Modifiers { ctrl: false, alt: false, shift: false }),
    {
        Modifiers { ctrl: false, alt: false, shift: false }
    }

    /// Control alone.
    pub fn ctrl() -> (modifiers: Self)
        ensures
            modifiers == (Modifiers { ctrl: true, alt: false, shift: false }),
    {
        Modifiers { ctrl: true, alt: false, shift: false }
    }

    /// Alt alone.
    pub fn alt() -> (modifiers: Self)
        ensures
            modifiers == (Modifiers { ctrl: false, alt: true, shift: false }),
    {
        Modifiers { ctrl: false, alt: true, shift: false }
    }

    /// Whether no modifier was down.
    pub open spec fn is_none(self) -> bool {
        !self.ctrl && !self.alt && !self.shift
    }
}

/// A key together with the modifiers it was pressed with.
#[derive(Debug, Clone, Copy, PartialEq, Eq, Structural)]
pub struct KeyEvent {
    pub key: KeyCode,
    pub modifiers: Modifiers,
}

impl KeyEvent {
    /// The character of a control sequence that this key stands for, if it can
    /// be part of one: a bare character, or the bare escape key.
    pub open spec fn spec_sequence_char(self) -> Option<char> {
        if !self.modifiers.is_none() {
            None
        } else {
            match self.key {
                KeyCode::Char(c) => Some(c),
                KeyCode::Escape => Some('\u{1b}'),
                KeyCode::Other(_) => None,
            }
        }
    }

    /// The character of a control sequence that this key stands for.
    pub fn sequence_char(self) -> (c: Option<char>)
        ensures
            c == self.spec_sequence_char(),
            forall|x: char|
                c == Some(x) <==> {
                    &&& !self.modifiers.ctrl && !self.modifiers.alt && !self.modifiers.shift
                    &&& self.key == KeyCode::Char(x) || (self.key == KeyCode::Escape && x
                        == '\u{1b}')
                },
    {
        if self.modifiers.ctrl || self.modifiers.alt || self.modifiers.shift {
            None
        } else {
            match self.key {
                KeyCode::Char(c) => Some(c),
                KeyCode::Escape => Some('\u{1b}'),
                KeyCode::Other(_) => None,
            }
        }
    }
}

/// What the terminal reports.
#[derive(Debug, Clone, Copy, PartialEq, Eq)]
pub enum InputEvent {
    Key(KeyEvent),
}

/// What the input thread is told to handle.
#[derive(Debug, PartialEq, Eq)]
pub enum InputInstruction {
    /// An event, with the bytes that the terminal sent for it.
    KeyEvent(InputEvent, Vec<u8>),
}

/// A key press: the key, and the bytes that the terminal sent for it.
#[verifier::ext_equal]
pub struct KeyPress {
    pub key: KeyEvent,
    pub raw_bytes: Seq<u8>,
}

impl DeepView for InputInstruction {
    type V = KeyPress;

    open spec fn deep_view(&self) -> KeyPress {
        match *self {
            InputInstruction::KeyEvent(InputEvent::Key(key), raw_bytes) => KeyPress {
                key,
                raw_bytes: raw_bytes@,
            },
        }
    }
}

impl Clone for InputInstruction {
    fn clone(&self) -> (res: Self)
        ensures
            res.deep_view() == self.deep_view(),
    {
        match self {
            InputInstruction::KeyEvent(event, raw_bytes) => InputInstruction::KeyEvent(
                *event,
                raw_bytes.clone(),
            ),
        }
    }
}

/// A key stands for a character of a control sequence just in two cases: it is
/// that character without modifiers, or the character is the escape character
/// and the key is the escape key without modifiers. No other key stands for
/// any.
pub proof fn law_only_bare_keys_make_control_sequences(key: KeyEvent, c: char)
    ensures
        key.spec_sequence_char() == Some(c) <==> {
            &&& !key.modifiers.ctrl && !key.modifiers.alt && !key.modifiers.shift
            &&& key.key == KeyCode::Char(c) || (key.key == KeyCode::Escape && c == '\u{1b}')
        },
        key.key is Other ==> key.spec_sequence_char() is None,
{
}

/// The view of an instruction keeps the whole key event and all its bytes.
pub proof fn law_instruction_view_keeps_everything(key: KeyEvent, raw_bytes: Vec<u8>)
    ensures
        InputInstruction::KeyEvent(InputEvent::Key(key), raw_bytes).deep_view().key == key,
        InputInstruction::KeyEvent(InputEvent::Key(key), raw_bytes).deep_view().raw_bytes
            == raw_bytes@,
{
}

} // verus!
