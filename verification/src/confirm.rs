//! A yes/no confirmation prompt.

use vstd::prelude::*;
use crate::input::{Event, KeyCode};

verus! {

/// A modal prompt over a yes/no choice.  `choice` is the highlighted
/// answer: `true` for yes.
pub struct Confirm {
    pub choice: bool,
    pub title: String,
}

/// What the prompt did with an event.
#[derive(Debug, Clone, Copy, PartialEq, Eq, Structural)]
pub enum ConfirmResponse {
    Confirm(bool),
    Handled,
    Unhandled,
}

/// The answer a prompt gives to an event.
pub open spec fn spec_confirm_response(c: Confirm, event: Event) -> ConfirmResponse {
    match event {
        Event::Key(k) => match k.code {
            KeyCode::Right => ConfirmResponse::Handled,
            KeyCode::Left => ConfirmResponse::Handled,
            KeyCode::Enter => ConfirmResponse::Confirm(c.choice),
            KeyCode::Esc => ConfirmResponse::Confirm(false),
            _ => ConfirmResponse::Unhandled,
        },
        Event::Mouse => ConfirmResponse::Unhandled,
    }
}

impl Confirm {
    /// A fresh prompt, highlighting "no".
    pub fn new(title: String) -> (r: Confirm)
        ensures
            !r.choice,
            r.title@ == title@,
    {
        Confirm { choice: false, title }
    }

    /// Feeds one event to the prompt: left and right move the
    /// highlight, enter answers with the highlighted choice, and
    /// escape answers "no".
    pub fn handle_event(&mut self, event: Event) -> (r: ConfirmResponse)
        ensures
            final(self).title == old(self).title,
            r == spec_confirm_response(*old(self), event),
            match event {
                Event::Key(k) => match k.code {
                    KeyCode::Right => r is Handled && !final(self).choice,
                    KeyCode::Left => r is Handled && final(self).choice,
                    KeyCode::Enter => r == ConfirmResponse::Confirm(old(self).choice)
                        && final(self).choice == old(self).choice,
                    KeyCode::Esc => r == ConfirmResponse::Confirm(false)
                        && final(self).choice == old(self).choice,
                    _ => r is Unhandled && final(self).choice == old(self).choice,
                },
                Event::Mouse => r is Unhandled && final(self).choice == old(self).choice,
            },
    {
        match event {
            Event::Key(k) => match k.code {
                KeyCode::Right => {
                    self.choice = false;
                    ConfirmResponse::Handled
                },
                KeyCode::Left => {
                    self.choice = true;
                    ConfirmResponse::Handled
                },
                KeyCode::Enter => ConfirmResponse::Confirm(self.choice),
                KeyCode::Esc => ConfirmResponse::Confirm(false),
                _ => ConfirmResponse::Unhandled,
            },
            Event::Mouse => ConfirmResponse::Unhandled,
        }
    }
}

} // verus!
