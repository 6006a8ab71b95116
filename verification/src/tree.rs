//! One level of the editor: its rows, its selection, and the editing
//! state of the selected row.

use vstd::prelude::*;
use crate::corpus::{HashInput, HashInputResponse, LabelCorpus};
use crate::input::{Event, Input, InputResponse, KeyCode};
use crate::node::RowKind;
use crate::rows::{TreeData, TreeRow};

verus! {

/// An in-place scalar edit: the buffer (with any parse error shown
/// beside it), the type it must parse as, and the source index of the
/// node being edited, captured when the edit began.
pub struct ScalarEdit {
    pub input: Input,
    pub kind: RowKind,
    pub param_index: usize,
}

/// A hash edit: the resolver-backed editor and the source index of the
/// node being edited.
pub struct HashEdit {
    pub editor: HashInput,
    pub param_index: usize,
}

/// What the selected row is doing.
pub enum Editing {
    Browsing,
    Scalar(ScalarEdit),
    Hash(HashEdit),
}

/// The selection after one step down, wrapping past the end.
pub open spec fn inc_sel(len: int, sel: int) -> int {
    if len == 0 {
        0
    } else if sel >= len - 1 {
        0
    } else {
        sel + 1
    }
}

/// The selection after one step up, wrapping past the start.
pub open spec fn dec_sel(len: int, sel: int) -> int {
    if len == 0 {
        0
    } else if sel == 0 {
        len - 1
    } else {
        sel - 1
    }
}

/// The first row position at or after `i` whose row reports source
/// index `idx`; row 0 when no row does.
pub open spec fn find_row(rows: Seq<TreeRow>, idx: int, i: int) -> int
    decreases rows.len() - i,
    when 0 <= i <= rows.len()
{
    if i >= rows.len() {
        0
    } else if rows[i].index == idx {
        i
    } else {
        find_row(rows, idx, i + 1)
    }
}

pub proof fn lemma_find_row_in_range(rows: Seq<TreeRow>, idx: int, i: int)
    requires
        0 <= i <= rows.len(),
    ensures
        0 <= find_row(rows, idx, i),
        rows.len() == 0 ==> find_row(rows, idx, i) == 0,
        rows.len() > 0 ==> find_row(rows, idx, i) < rows.len(),
    decreases rows.len() - i,
{
    if i < rows.len() && rows[i].index != idx {
        lemma_find_row_in_range(rows, idx, i + 1);
    }
}

/// One level's display state: its rows, the selected row, whether the
/// level has focus, and the editing state of the selected row.
pub struct Tree {
    pub data: TreeData,
    pub selected: usize,
    pub focused: bool,
    pub editing: Editing,
}

/// What a level did with an event.
pub enum TreeResponse {
    Unhandled,
    Focus,
    Unfocus,
    Handled,
    IncValue(usize),
    DecValue(usize),
    SetValue(usize, RowKind, Vec<char>),
    SetHash(usize, u64),
}

impl Tree {
    /// The selection points at a row, or at 0 of an empty level.
    pub open spec fn wf(self) -> bool {
        if self.data.rows@.len() == 0 {
            self.selected == 0
        } else {
            self.selected < self.data.rows@.len()
        }
    }

    /// A fresh level over these rows, selecting the first.
    pub fn new(data: TreeData) -> (r: Tree)
        ensures
            r.data == data,
            r.selected == 0,
            r.focused,
            r.editing is Browsing,
            r.wf(),
    {
        Tree { data, selected: 0, focused: true, editing: Editing::Browsing }
    }

    pub fn focus(&mut self, focus: bool)
        ensures
            *final(self) == (Tree { focused: focus, ..*old(self) }),
    {
        self.focused = focus;
    }

    /// The selected row, if the level has any.
    pub fn current_row(&self) -> (r: Option<&TreeRow>)
        requires
            self.wf(),
        ensures
            match r {
                Some(row) => self.data.rows@.len() > 0
                    && *row == self.data.rows@[self.selected as int],
                None => self.data.rows@.len() == 0,
            },
    {
        if self.data.rows.len() == 0 {
            None
        } else {
            Some(&self.data.rows[self.selected])
        }
    }

    /// Moves the selection one row down, wrapping past the end.
    pub fn inc(&mut self)
        requires
            old(self).wf(),
        ensures
            *final(self) == (Tree {
                selected: inc_sel(
                    old(self).data.rows@.len() as int, old(self).selected as int) as usize,
                ..*old(self)
            }),
            final(self).wf(),
    {
        let len = self.data.rows.len();
        if len == 0 || self.selected >= len - 1 {
            self.selected = 0;
        } else {
            self.selected = self.selected + 1;
        }
    }

    /// Moves the selection one row up, wrapping past the start.
    pub fn dec(&mut self)
        requires
            old(self).wf(),
        ensures
            *final(self) == (Tree {
                selected: dec_sel(
                    old(self).data.rows@.len() as int, old(self).selected as int) as usize,
                ..*old(self)
            }),
            final(self).wf(),
    {
        let len = self.data.rows.len();
        if len == 0 {
            self.selected = 0;
        } else if self.selected == 0 {
            self.selected = len - 1;
        } else {
            self.selected = self.selected - 1;
        }
    }

    /// Re-selects the row showing the child at source index `index`,
    /// falling back to the first row if that child is not visible.
    pub fn select_param_index(&mut self, index: usize)
        ensures
            *final(self) == (Tree {
                selected: find_row(old(self).data.rows@, index as int, 0) as usize,
                ..*old(self)
            }),
            final(self).wf(),
    {
        let n = self.data.rows.len();
        let mut i: usize = 0;
        proof {
            lemma_find_row_in_range(self.data.rows@, index as int, 0);
        }
        while i < n
            invariant
                0 <= i <= n,
                n == self.data.rows@.len(),
                *self == *old(self),
                find_row(self.data.rows@, index as int, 0) == find_row(
                    self.data.rows@, index as int, i as int),
            decreases n - i,
        {
            if self.data.rows[i].index == index {
                self.selected = i;
                return;
            }
            i = i + 1;
        }
        self.selected = 0;
    }

    /// Begins editing the selected scalar row, seeding the buffer with
    /// the row's current textual value.
    pub fn start_editing(&mut self)
        requires
            old(self).wf(),
            old(self).data.rows@.len() > 0,
        ensures
            final(self).data == old(self).data,
            final(self).selected == old(self).selected,
            final(self).focused == old(self).focused,
            final(self).editing matches Editing::Scalar(e)
                && e.input.value@ == old(self).data.rows@[old(self).selected as int].value@
                && e.input.error is None
                && e.input.focused
                && e.kind == old(self).data.rows@[old(self).selected as int].kind
                && e.param_index == old(self).data.rows@[old(self).selected as int].index,
    {
        let row = &self.data.rows[self.selected];
        let mut input = Input::new();
        input.value = crate::text::string_to_chars(row.value.as_str());
        input.focused = true;
        self.editing = Editing::Scalar(ScalarEdit {
            input,
            kind: row.kind,
            param_index: row.index,
        });
    }

    /// Begins editing the selected hash row with a resolver-backed
    /// editor already seeded by the caller.
    pub fn start_hash_editing(&mut self, editor: HashInput)
        requires
            old(self).wf(),
            old(self).data.rows@.len() > 0,
        ensures
            final(self).data == old(self).data,
            final(self).selected == old(self).selected,
            final(self).focused == old(self).focused,
            final(self).editing matches Editing::Hash(e)
                && e.editor == editor
                && e.param_index == old(self).data.rows@[old(self).selected as int].index,
    {
        let row = &self.data.rows[self.selected];
        self.editing = Editing::Hash(HashEdit { editor, param_index: row.index });
    }

    /// Shows a message beside the scalar edit buffer, if one is open.
    pub fn set_editing_error(&mut self, error: Option<String>)
        ensures
            final(self).data == old(self).data,
            final(self).selected == old(self).selected,
            final(self).focused == old(self).focused,
            match old(self).editing {
                Editing::Scalar(e) => final(self).editing matches Editing::Scalar(e2)
                    && e2.input.value == e.input.value
                    && e2.kind == e.kind
                    && e2.param_index == e.param_index
                    && e2.input.error == error
                    && e2.input.focused == e.input.focused,
                _ => final(self).editing == old(self).editing,
            },
    {
        match &mut self.editing {
            Editing::Scalar(e) => {
                e.input.error = error;
            },
            _ => {},
        }
    }

    /// Ends any edit, leaving the row as it stands.
    pub fn finish_editing(&mut self)
        ensures
            *final(self) == (Tree { editing: Editing::Browsing, ..*old(self) }),
    {
        self.editing = Editing::Browsing;
    }

    /// Feeds one event to the level.
    ///
    /// While a scalar or hash edit is open the event goes to the open
    /// editor, and submitting reports the edited node's source index
    /// together with what was entered; cancelling returns to browsing
    /// with the node untouched.  While browsing, up and down move the
    /// selection (with shift, they ask for the selected node's value
    /// to be cycled instead), enter asks to drill in or edit, and
    /// backspace asks to leave the level.
    pub fn handle_event(&mut self, event: Event, corpus: Option<&LabelCorpus>) -> (r:
        TreeResponse)
        requires
            old(self).wf(),
            corpus matches Some(c) ==> c.wf(),
        ensures
            final(self).wf(),
            final(self).data == old(self).data,
            final(self).focused == old(self).focused,
            match old(self).editing {
                Editing::Scalar(e) => {
                    &&& final(self).selected == old(self).selected
                    &&& match crate::input::spec_input_response(e.input, event) {
                        InputResponse::Submit => (r matches TreeResponse::SetValue(
                            idx, k, buf)
                            && idx == e.param_index && k == e.kind && buf@ == e.input.value@
                            && (final(self).editing matches Editing::Scalar(e2)
                                && e2.kind == e.kind && e2.param_index == e.param_index
                                && e2.input.value@ == e.input.value@)),
                        InputResponse::Cancel => r is Handled
                            && final(self).editing is Browsing,
                        _ => r is Handled
                            && (final(self).editing matches Editing::Scalar(e2)
                                && e2.kind == e.kind && e2.param_index == e.param_index
                                && e2.input.value@ == crate::input::spec_input_text_after(
                                    e.input, event)),
                    }
                },
                Editing::Hash(e) => {
                    &&& final(self).selected == old(self).selected
                    &&& match event {
                        Event::Key(k) => match k.code {
                            KeyCode::Enter => {
                                if crate::hash::has_hex_marker(e.editor.value@)
                                    && crate::hash::parse_hash_literal(
                                        e.editor.value@) is None {
                                    r is Handled && (final(self).editing matches
                                        Editing::Hash(e2) && e2.param_index == e.param_index)
                                } else {
                                    (r matches TreeResponse::SetHash(idx, h)
                                        && idx == e.param_index
                                        && h < 0x100_0000_0000
                                        && h == crate::corpus::resolved_hash_of(
                                            e.editor, crate::corpus::corpus_val(corpus)))
                                        && (final(self).editing matches Editing::Hash(e2)
                                            && e2.param_index == e.param_index)
                                }
                            },
                            KeyCode::Esc => r is Handled && final(self).editing is Browsing,
                            _ => r is Handled && (final(self).editing matches
                                Editing::Hash(e2) && e2.param_index == e.param_index),
                        },
                        Event::Mouse => r is Handled && final(self).editing == old(
                            self).editing,
                    }
                },
                Editing::Browsing => {
                    &&& final(self).editing is Browsing
                    &&& match event {
                        Event::Key(k) => match k.code {
                            KeyCode::Up => {
                                if k.modifiers.shift {
                                    &&& final(self).selected == old(self).selected
                                    &&& if old(self).data.rows@.len() > 0 && old(
                                        self).data.rows@[old(
                                        self).selected as int].kind.spec_is_incremental() {
                                        r == TreeResponse::IncValue(old(self).data.rows@[
                                            old(self).selected as int].index)
                                    } else {
                                        r is Handled
                                    }
                                } else {
                                    r is Handled && final(self).selected == dec_sel(
                                        old(self).data.rows@.len() as int,
                                        old(self).selected as int) as usize
                                }
                            },
                            KeyCode::Down => {
                                if k.modifiers.shift {
                                    &&& final(self).selected == old(self).selected
                                    &&& if old(self).data.rows@.len() > 0 && old(
                                        self).data.rows@[old(
                                        self).selected as int].kind.spec_is_incremental() {
                                        r == TreeResponse::DecValue(old(self).data.rows@[
                                            old(self).selected as int].index)
                                    } else {
                                        r is Handled
                                    }
                                } else {
                                    r is Handled && final(self).selected == inc_sel(
                                        old(self).data.rows@.len() as int,
                                        old(self).selected as int) as usize
                                }
                            },
                            KeyCode::Enter => r is Focus && *final(self) == *old(self),
                            KeyCode::Backspace => r is Unfocus && *final(self) == *old(
                                self),
                            _ => r is Unhandled && *final(self) == *old(self),
                        },
                        Event::Mouse => r is Unhandled && *final(self) == *old(self),
                    }
                },
            },
    {
        if matches!(self.editing, Editing::Browsing) {
            match event {
                Event::Key(k) => match k.code {
                    KeyCode::Up => {
                        if k.modifiers.shift {
                            match self.current_row() {
                                Some(row) => {
                                    if row.kind.is_incremental() {
                                        let idx = row.index;
                                        TreeResponse::IncValue(idx)
                                    } else {
                                        TreeResponse::Handled
                                    }
                                },
                                None => TreeResponse::Handled,
                            }
                        } else {
                            self.dec();
                            TreeResponse::Handled
                        }
                    },
                    KeyCode::Down => {
                        if k.modifiers.shift {
                            match self.current_row() {
                                Some(row) => {
                                    if row.kind.is_incremental() {
                                        let idx = row.index;
                                        TreeResponse::DecValue(idx)
                                    } else {
                                        TreeResponse::Handled
                                    }
                                },
                                None => TreeResponse::Handled,
                            }
                        } else {
                            self.inc();
                            TreeResponse::Handled
                        }
                    },
                    KeyCode::Enter => TreeResponse::Focus,
                    KeyCode::Backspace => TreeResponse::Unfocus,
                    _ => TreeResponse::Unhandled,
                },
                Event::Mouse => TreeResponse::Unhandled,
            }
        } else {
            match &mut self.editing {
                Editing::Scalar(e) => {
                    match e.input.handle_event(event) {
                        InputResponse::Submit => {
                            let idx = e.param_index;
                            let kind = e.kind;
                            let buf = e.input.value.clone();
                            proof {
                                assert(buf@ =~= e.input.value@);
                            }
                            TreeResponse::SetValue(idx, kind, buf)
                        },
                        InputResponse::Cancel => {
                            self.editing = Editing::Browsing;
                            TreeResponse::Handled
                        },
                        InputResponse::Edited => TreeResponse::Handled,
                        InputResponse::Unhandled => TreeResponse::Handled,
                    }
                },
                Editing::Hash(e) => {
                    match event {
                        Event::Key(k) => {
                            match e.editor.handle_key(k.code, corpus) {
                                HashInputResponse::Submit => {
                                    TreeResponse::SetHash(e.param_index, e.editor.value())
                                },
                                HashInputResponse::Cancel => {
                                    self.editing = Editing::Browsing;
                                    TreeResponse::Handled
                                },
                                HashInputResponse::Handled => TreeResponse::Handled,
                                HashInputResponse::Unhandled => TreeResponse::Handled,
                            }
                        },
                        Event::Mouse => TreeResponse::Handled,
                    }
                },
                Editing::Browsing => TreeResponse::Unhandled,
            }
        }
    }
}

} // verus!
verus! {

/// In a projection whose source indexes strictly ascend, looking a
/// row's own index up finds exactly that row.
pub proof fn lemma_find_row_unique(rows: Seq<TreeRow>, k: int)
    requires
        crate::rows::rows_increasing(rows),
        0 <= k < rows.len(),
    ensures
        find_row(rows, rows[k].index as int, 0) == k,
{
    lemma_find_row_from(rows, k, 0);
}

proof fn lemma_find_row_from(rows: Seq<TreeRow>, k: int, i: int)
    requires
        crate::rows::rows_increasing(rows),
        0 <= i <= k < rows.len(),
    ensures
        find_row(rows, rows[k].index as int, i) == k,
    decreases k - i,
{
    if i < k {
        assert(rows[i].index < rows[k].index);
        lemma_find_row_from(rows, k, i + 1);
    }
}

} // verus!
