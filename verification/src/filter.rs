//! The name filter: a regular expression edited by the user and the
//! per-child keep decisions it produces.  The engine treats a match
//! test as an opaque predicate; everything downstream of the decisions
//! is verified against them.

use vstd::prelude::*;
use crate::input::{Event, Input, InputResponse};
use crate::rows::TreeData;

verus! {

#[verifier::external_type_specification]
#[verifier::external_body]
pub struct ExRegex(regex::Regex);

/// Relies on `regex::Regex::new`, compiling a pattern, and on the
/// error's `Display` for the message shown when it cannot.  Which
/// patterns compile, and what the compiled pattern matches, is not
/// modeled: callers state what holds of every outcome.
#[verifier::external_body]
fn regex_new(pattern: &str) -> (r: Result<regex::Regex, String>)
{
    regex::Regex::new(pattern).map_err(|e| e.to_string())
}

/// Relies on `regex::Regex::is_match`: whether the compiled pattern
/// matches somewhere in the text.  The result is a function of the
/// compiled pattern and the text, neither modeled here.
#[verifier::external_body]
fn regex_is_match(re: &regex::Regex, text: &str) -> (r: bool)
{
    re.is_match(text)
}

/// What the filter editor did with an event.
#[derive(Debug, Clone, Copy, PartialEq, Eq, Structural)]
pub enum FilterResponse {
    Unhandled,
    Exit,
}

/// The filter component: the pattern being edited, the last pattern
/// submitted (restored on cancel), and the compiled form of the last
/// successful submission.
pub struct Filter {
    pub input: Input,
    pub last_input: Vec<char>,
    pub compiled: Option<regex::Regex>,
}

impl Filter {
    /// A fresh filter with an empty pattern and nothing compiled: all
    /// names pass.
    pub fn new() -> (r: Filter)
        ensures
            r.input.value@ == Seq::<char>::empty(),
            r.input.error is None,
            !r.input.focused,
            r.last_input@ == Seq::<char>::empty(),
            !r.spec_active(),
    {
        Filter { input: Input::new(), last_input: Vec::new(), compiled: None }
    }

    /// Whether a compiled pattern is installed.
    pub open spec fn spec_active(self) -> bool {
        self.compiled is Some
    }

    pub fn focus(&mut self, focus: bool)
        ensures
            final(self).input.focused == focus,
            final(self).input.value == old(self).input.value,
            final(self).input.error == old(self).input.error,
            final(self).last_input == old(self).last_input,
            final(self).compiled == old(self).compiled,
    {
        self.input.focused = focus;
    }

    /// The compiled pattern, when one is installed.
    pub fn regex(&self) -> (r: Option<&regex::Regex>)
        ensures
            r is Some <==> self.spec_active(),
    {
        match &self.compiled {
            Some(re) => Some(re),
            None => None,
        }
    }

    /// Feeds one event to the pattern editor.  Submitting compiles the
    /// buffer: an empty buffer clears the filter, and a bad pattern
    /// shows its message, clears the active filter, and keeps the
    /// editor open.  Cancelling restores the last submitted pattern.
    pub fn handle_event(&mut self, event: Event) -> (r: FilterResponse)
        ensures
            final(self).input.focused == old(self).input.focused,
            match crate::input::spec_input_response(old(self).input, event) {
                InputResponse::Submit => {
                    &&& final(self).input.value@ == old(self).input.value@
                    &&& final(self).last_input@ == old(self).input.value@
                    &&& (r is Exit ==> final(self).input.error is None)
                    &&& (r is Exit ==> (final(self).spec_active() <==> old(
                        self).input.value@.len() > 0))
                    &&& (r is Unhandled ==> final(self).input.error is Some
                        && !final(self).spec_active())
                },
                InputResponse::Cancel => {
                    &&& r is Exit
                    &&& final(self).input.value@ == old(self).last_input@
                    &&& final(self).last_input == old(self).last_input
                    &&& final(self).compiled == old(self).compiled
                    &&& final(self).input.error == old(self).input.error
                },
                _ => {
                    &&& r is Unhandled
                    &&& final(self).input.value@ == crate::input::spec_input_text_after(
                        old(self).input, event)
                    &&& final(self).last_input == old(self).last_input
                    &&& final(self).compiled == old(self).compiled
                    &&& final(self).input.error == old(self).input.error
                },
            },
    {
        match self.input.handle_event(event) {
            InputResponse::Submit => {
                self.last_input = self.input.value.clone();
                if self.input.value.len() == 0 {
                    self.compiled = None;
                    self.input.error = None;
                    FilterResponse::Exit
                } else {
                    let text = self.input.text();
                    match regex_new(text.as_str()) {
                        Ok(re) => {
                            self.compiled = Some(re);
                            self.input.error = None;
                            FilterResponse::Exit
                        },
                        Err(msg) => {
                            // a failed compile replaces the old pattern:
                            // no filter is active until a good one is
                            // submitted
                            self.compiled = None;
                            self.input.error = Some(msg);
                            FilterResponse::Unhandled
                        },
                    }
                }
            },
            InputResponse::Cancel => {
                self.input.value = self.last_input.clone();
                FilterResponse::Exit
            },
            InputResponse::Edited => FilterResponse::Unhandled,
            InputResponse::Unhandled => FilterResponse::Unhandled,
        }
    }

    /// The keep decision for every row of an unfiltered projection:
    /// with no pattern installed every row passes; with one, each
    /// row's name is put to the opaque match test.
    pub fn keep_for(&self, data: &TreeData) -> (r: Vec<bool>)
        ensures
            r@.len() == data.rows@.len(),
            !self.spec_active() ==> forall|i: int| 0 <= i < r@.len() ==> #[trigger] r@[i],
    {
        let n = data.rows.len();
        let mut keep: Vec<bool> = Vec::new();
        let mut i: usize = 0;
        while i < n
            invariant
                0 <= i <= n,
                n == data.rows@.len(),
                keep@.len() == i,
                !self.spec_active() ==> forall|j: int| 0 <= j < i ==> #[trigger] keep@[j],
            decreases n - i,
        {
            let k = match &self.compiled {
                Some(re) => regex_is_match(re, data.rows[i].name.as_str()),
                None => true,
            };
            keep.push(k);
            i = i + 1;
        }
        keep
    }
}

} // verus!
