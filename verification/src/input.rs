//! Input events, normalized away from any terminal backend, and the
//! plain line editor they drive.

use vstd::prelude::*;

verus! {

/// A key, as the engine sees it.
#[derive(Debug, Clone, Copy, PartialEq, Eq, Structural)]
pub enum KeyCode {
    Char(char),
    Up,
    Down,
    Left,
    Right,
    Enter,
    Backspace,
    Esc,
    Tab,
    Other,
}

/// Modifier keys held together with a key press.
#[derive(Debug, Clone, Copy, PartialEq, Eq, Structural)]
pub struct KeyModifiers {
    pub shift: bool,
    pub control: bool,
}

impl KeyModifiers {
    pub fn none() -> (r: KeyModifiers)
        ensures
            !r.shift && !r.control,
    {
        KeyModifiers { shift: false, control: false }
    }
}

/// A key press with its modifiers.
#[derive(Debug, Clone, Copy, PartialEq, Eq, Structural)]
pub struct KeyEvent {
    pub code: KeyCode,
    pub modifiers: KeyModifiers,
}

/// One normalized input event.
#[derive(Debug, Clone, Copy, PartialEq, Eq, Structural)]
pub enum Event {
    Key(KeyEvent),
    Mouse,
}

/// Whether the event presses this key (any modifiers).
pub open spec fn is_key(event: Event, code: KeyCode) -> bool {
    event matches Event::Key(k) && k.code == code
}

/// Whether the event presses this key without shift.
pub open spec fn is_plain_key(event: Event, code: KeyCode) -> bool {
    event matches Event::Key(k) && k.code == code && !k.modifiers.shift
}

/// Whether the event presses this key with shift held.
pub open spec fn is_shift_key(event: Event, code: KeyCode) -> bool {
    event matches Event::Key(k) && k.code == code && k.modifiers.shift
}

/// Whether the event presses this character with control held.
pub open spec fn is_control_char(event: Event, c: char) -> bool {
    event matches Event::Key(k) && k.code == KeyCode::Char(c) && k.modifiers.control
}

/// What a line editor did with an event.
#[derive(Debug, Clone, Copy, PartialEq, Eq, Structural)]
pub enum InputResponse {
    Unhandled,
    Edited,
    Submit,
    Cancel,
}

/// The response a line editor gives to an event.
pub open spec fn spec_input_response(inp: Input, event: Event) -> InputResponse {
    match event {
        Event::Key(k) => match k.code {
            KeyCode::Char(_) => InputResponse::Edited,
            KeyCode::Backspace => InputResponse::Edited,
            KeyCode::Enter => InputResponse::Submit,
            KeyCode::Esc => InputResponse::Cancel,
            _ => InputResponse::Unhandled,
        },
        Event::Mouse => InputResponse::Unhandled,
    }
}

/// The buffer after a line editor takes an event.
pub open spec fn spec_input_text_after(inp: Input, event: Event) -> Seq<char> {
    match event {
        Event::Key(k) => match k.code {
            KeyCode::Char(c) => inp.value@.push(c),
            KeyCode::Backspace => if inp.value@.len() == 0 {
                inp.value@
            } else {
                inp.value@.drop_last()
            },
            _ => inp.value@,
        },
        Event::Mouse => inp.value@,
    }
}

/// A plain line editor: a buffer of characters, an optional error
/// message shown beside it, and a focus flag.
pub struct Input {
    pub value: Vec<char>,
    pub error: Option<String>,
    pub focused: bool,
}

impl Input {
    pub fn new() -> (r: Input)
        ensures
            r.value@ == Seq::<char>::empty(),
            r.error is None,
            !r.focused,
    {
        Input { value: Vec::new(), error: None, focused: false }
    }

    /// The buffer as a `String`.
    pub fn text(&self) -> (r: String)
        ensures
            r@ == self.value@,
    {
        crate::text::chars_to_string(&self.value)
    }

    /// Feeds one event to the editor: printable characters extend the
    /// buffer, backspace shortens it, enter submits and escape cancels,
    /// both leaving the buffer as it stands.
    pub fn handle_event(&mut self, event: Event) -> (r: InputResponse)
        ensures
            old(self).error == final(self).error,
            old(self).focused == final(self).focused,
            match event {
                Event::Key(k) => match k.code {
                    KeyCode::Char(c) => r is Edited
                        && final(self).value@ == old(self).value@.push(c),
                    KeyCode::Backspace => r is Edited
                        && final(self).value@ == (if old(self).value@.len() == 0 {
                            old(self).value@
                        } else {
                            old(self).value@.drop_last()
                        }),
                    KeyCode::Enter => r is Submit
                        && final(self).value@ == old(self).value@,
                    KeyCode::Esc => r is Cancel
                        && final(self).value@ == old(self).value@,
                    _ => r is Unhandled && final(self).value@ == old(self).value@,
                },
                Event::Mouse => r is Unhandled && final(self).value@ == old(self).value@,
            },
    {
        match event {
            Event::Key(k) => match k.code {
                KeyCode::Char(c) => {
                    self.value.push(c);
                    InputResponse::Edited
                },
                KeyCode::Backspace => {
                    if self.value.len() > 0 {
                        self.value.pop();
                    }
                    InputResponse::Edited
                },
                KeyCode::Enter => InputResponse::Submit,
                KeyCode::Esc => InputResponse::Cancel,
                _ => InputResponse::Unhandled,
            },
            Event::Mouse => InputResponse::Unhandled,
        }
    }
}

} // verus!
