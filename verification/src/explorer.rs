//! The file chooser's decision core.  The host lists directories and
//! resolves paths; this machine owns the selection, the name typing,
//! and the overwrite confirmation, and tells the host what to do.

use vstd::prelude::*;
use crate::input::{Event, Input, InputResponse, KeyCode};

verus! {

/// Whether the chooser opens a file or saves one.
#[derive(Debug, Clone, Copy, PartialEq, Eq, Structural)]
pub enum ExplorerMode {
    Open,
    Save,
}

/// One listed entry: its file name and whether it is a directory.
pub struct ExplorerEntry {
    pub name: String,
    pub is_dir: bool,
}

/// What the chooser asks of its host: open or save under a name in
/// the listed directory, descend into a subdirectory, go up one
/// directory, close the dialog, or nothing.
pub enum ExplorerResponse {
    Open(String),
    Save(String),
    Descend(String),
    Ascend,
    Cancel,
    Handled,
    Unhandled,
}

/// The chooser's state: the directory listing the host supplied
/// (`None` when listing failed), the typed name, whether typing is
/// active, the selection, the mode, and a pending overwrite question
/// with the name it is about.
pub struct Explorer {
    pub entries: Option<Vec<ExplorerEntry>>,
    pub input: Input,
    pub input_active: bool,
    pub selected: usize,
    pub mode: ExplorerMode,
    pub confirm_overwrite: Option<(bool, String)>,
}

/// The number of listed entries (zero when listing failed).
pub open spec fn entry_count(e: Option<Vec<ExplorerEntry>>) -> int {
    match e {
        Some(v) => v@.len() as int,
        None => 0,
    }
}

/// The position of the first entry, at or after `i`, whose lowercased
/// ASCII name starts with the lowercased typed prefix; the current
/// selection when none does.
pub open spec fn first_prefix_match(
    entries: Seq<ExplorerEntry>,
    p: Seq<char>,
    i: int,
    fallback: int,
) -> int
    decreases entries.len() - i,
    when 0 <= i <= entries.len()
{
    if i >= entries.len() {
        fallback
    } else if crate::text::has_prefix(
        ascii_lower(entries[i].name@), ascii_lower(p)) {
        i
    } else {
        first_prefix_match(entries, p, i + 1, fallback)
    }
}

/// Whether some listed directory has exactly this name.
pub open spec fn has_dir_named(es: Seq<ExplorerEntry>, t: Seq<char>) -> bool {
    exists|i: int| 0 <= i < es.len() && (#[trigger] es[i]).name@ == t && es[i].is_dir
}

/// Whether some listed file has exactly this name.
pub open spec fn has_file_named(es: Seq<ExplorerEntry>, t: Seq<char>) -> bool {
    exists|i: int| 0 <= i < es.len() && (#[trigger] es[i]).name@ == t && !es[i].is_dir
}

/// ASCII lowercasing, character by character.
pub open spec fn ascii_lower(s: Seq<char>) -> Seq<char> {
    s.map_values(|c: char| lower_char(c))
}

pub open spec fn lower_char(c: char) -> char {
    if 65 <= c as u32 <= 90 {
        ((c as u32 + 32) as u8) as char
    } else {
        c
    }
}

/// ASCII-lowercases one character.
pub fn lower_char_exec(c: char) -> (r: char)
    ensures
        r == lower_char(c),
{
    let code = c as u32;
    if 65 <= code && code <= 90 {
        proof {
            vstd::utf8::char_u32_cast(c, c as u32);
        }
        ((code + 32) as u8) as char
    } else {
        c
    }
}

/// Whether the lowercased name starts with the lowercased prefix.
fn lower_prefix_of(p: &Vec<char>, name: &String) -> (r: bool)
    ensures
        r == crate::text::has_prefix(ascii_lower(name@), ascii_lower(p@)),
{
    let ghost ln = ascii_lower(name@);
    let ghost lp = ascii_lower(p@);
    let pn = p.len();
    let nn = name.as_str().unicode_len();
    if pn > nn {
        return false;
    }
    let mut i: usize = 0;
    while i < pn
        invariant
            0 <= i <= pn,
            pn == p@.len(),
            nn == name@.len(),
            pn <= nn,
            ln == ascii_lower(name@),
            lp == ascii_lower(p@),
            forall|j: int| 0 <= j < i ==> ln[j] == #[trigger] lp[j],
        decreases pn - i,
    {
        let pc = lower_char_exec(p[i]);
        let nc = lower_char_exec(name.as_str().get_char(i));
        if pc as u32 != nc as u32 {
            proof {
                vstd::utf8::char_u32_cast(pc, pc as u32);
                vstd::utf8::char_u32_cast(nc, nc as u32);
                assert(ln[i as int] == lower_char(name@[i as int]));
                assert(lp[i as int] == lower_char(p@[i as int]));
                assert(ln.take(lp.len() as int)[i as int] == ln[i as int]);
            }
            return false;
        }
        proof {
            vstd::utf8::char_u32_cast(pc, pc as u32);
            vstd::utf8::char_u32_cast(nc, nc as u32);
        }
        i = i + 1;
    }
    proof {
        assert(ln.take(lp.len() as int) =~= lp);
    }
    true
}

/// Extending the scanned prefix by one entry finds a named directory
/// or file exactly when the prefix did, or the new entry is it.
proof fn lemma_named_take_step(es: Seq<ExplorerEntry>, t: Seq<char>, i: int)
    requires
        0 <= i < es.len(),
    ensures
        has_dir_named(es.take(i + 1), t) == (has_dir_named(es.take(i), t)
            || (es[i].name@ == t && es[i].is_dir)),
        has_file_named(es.take(i + 1), t) == (has_file_named(es.take(i), t)
            || (es[i].name@ == t && !es[i].is_dir)),
{
    let a = es.take(i);
    let b = es.take(i + 1);
    assert(forall|j: int| 0 <= j < i ==> a[j] == #[trigger] b[j]);
    assert(b[i] == es[i]);
    if has_dir_named(a, t) {
        let w = choose|w: int| 0 <= w < a.len() && a[w].name@ == t && a[w].is_dir;
        assert(b[w].name@ == t && b[w].is_dir);
    }
    if has_file_named(a, t) {
        let w = choose|w: int| 0 <= w < a.len() && a[w].name@ == t && !a[w].is_dir;
        assert(b[w].name@ == t && !b[w].is_dir);
    }
    if has_dir_named(b, t) {
        let w = choose|w: int| 0 <= w < b.len() && b[w].name@ == t && b[w].is_dir;
        if w < i {
            assert(a[w].name@ == t && a[w].is_dir);
        }
    }
    if has_file_named(b, t) {
        let w = choose|w: int| 0 <= w < b.len() && b[w].name@ == t && !b[w].is_dir;
        if w < i {
            assert(a[w].name@ == t && !a[w].is_dir);
        }
    }
}

impl Explorer {
    /// The selection points at an entry, or at 0 of an empty or
    /// failed listing.
    pub open spec fn wf(self) -> bool {
        if entry_count(self.entries) == 0 {
            self.selected == 0
        } else {
            self.selected < entry_count(self.entries)
        }
    }

    /// A fresh chooser over a listing, selecting the first entry.
    pub fn new(entries: Option<Vec<ExplorerEntry>>, mode: ExplorerMode) -> (r: Explorer)
        ensures
            r.wf(),
            r.entries == entries,
            r.mode == mode,
            r.selected == 0,
            !r.input_active,
            r.confirm_overwrite is None,
    {
        Explorer {
            entries,
            input: Input::new(),
            input_active: false,
            selected: 0,
            mode,
            confirm_overwrite: None,
        }
    }

    /// Replaces the listing after the host descended, ascended or
    /// refreshed, re-selecting the first entry.
    pub fn set_entries(&mut self, entries: Option<Vec<ExplorerEntry>>)
        ensures
            final(self).wf(),
            final(self).entries == entries,
            final(self).selected == 0,
            final(self).mode == old(self).mode,
            final(self).input == old(self).input,
            final(self).input_active == old(self).input_active,
            final(self).confirm_overwrite == old(self).confirm_overwrite,
    {
        self.entries = entries;
        self.selected = 0;
    }

    /// Feeds one event to the chooser.
    ///
    /// A pending overwrite question takes every key: left and right
    /// move its highlight, enter answers it (saving only on yes), and
    /// backspace or escape drops it.  While typing, submitted text
    /// descends into a directory of exactly that name, asks before
    /// overwriting an existing file, or saves; edits jump the
    /// selection to the first name with the typed prefix.  Otherwise
    /// the arrows cycle the selection, enter opens or descends into
    /// the selected entry (asking before a save overwrites), backspace
    /// goes up one directory, and `/` starts typing.
    pub fn handle_event(&mut self, event: Event) -> (r: ExplorerResponse)
        requires
            old(self).wf(),
        ensures
            final(self).wf(),
            final(self).mode == old(self).mode,
            final(self).entries == old(self).entries,
            match old(self).confirm_overwrite {
                Some((ow, path)) => match event {
                    Event::Key(k) => match k.code {
                        KeyCode::Right => r is Handled && (final(self).confirm_overwrite
                            matches Some((ow2, p2)) && !ow2 && p2@ == path@),
                        KeyCode::Left => r is Handled && (final(self).confirm_overwrite
                            matches Some((ow2, p2)) && ow2 && p2@ == path@),
                        KeyCode::Backspace => r is Handled
                            && final(self).confirm_overwrite is None,
                        KeyCode::Esc => r is Handled
                            && final(self).confirm_overwrite is None,
                        KeyCode::Enter => final(self).confirm_overwrite is None && (if ow {
                            r matches ExplorerResponse::Save(p) && p@ == path@
                        } else {
                            r is Handled
                        }),
                        _ => r is Unhandled && final(self).confirm_overwrite == old(
                            self).confirm_overwrite,
                    },
                    Event::Mouse => r is Unhandled && final(self).confirm_overwrite == old(
                        self).confirm_overwrite,
                },
                None => true,
            },
            // while not typing and with nothing pending, the arrows
            // cycle the selection and the other keys dispatch
            (old(self).confirm_overwrite is None && !old(self).input_active) ==> match event {
                Event::Key(k) => match k.code {
                    KeyCode::Esc => r is Cancel && *final(self) == *old(self),
                    KeyCode::Up => r is Handled && final(self).selected
                        == crate::tree::dec_sel(
                            entry_count(old(self).entries), old(self).selected as int) as usize,
                    KeyCode::Down => r is Handled && final(self).selected
                        == crate::tree::inc_sel(
                            entry_count(old(self).entries), old(self).selected as int) as usize,
                    KeyCode::Enter => (entry_count(old(self).entries) > 0 ==> ({
                        let e = old(self).entries->0@[old(self).selected as int];
                        if e.is_dir {
                            (r matches ExplorerResponse::Descend(p) && p@ == e.name@)
                        } else if old(self).mode is Open {
                            (r matches ExplorerResponse::Open(p) && p@ == e.name@)
                        } else {
                            r is Handled && (final(self).confirm_overwrite
                                matches Some((ow, p)) && !ow && p@ == e.name@)
                        }
                    })) && (entry_count(old(self).entries) == 0 ==> r is Handled),
                    KeyCode::Backspace => r is Ascend && *final(self) == *old(self),
                    KeyCode::Char(c) => if c == '/' {
                        r is Handled && final(self).input_active
                    } else {
                        r is Unhandled && *final(self) == *old(self)
                    },
                    _ => r is Unhandled && *final(self) == *old(self),
                },
                Event::Mouse => r is Unhandled && *final(self) == *old(self),
            },
            // submitting a typed name in save mode descends into a
            // directory of exactly that name, asks before overwriting
            // an existing file, and otherwise saves under the name
            (old(self).confirm_overwrite is None && old(self).input_active
                && old(self).mode is Save
                && crate::input::spec_input_response(old(self).input, event) is Submit
                && old(self).entries is Some)
                ==> ({
                    let es = old(self).entries->0@;
                    let t = old(self).input.value@;
                    if has_dir_named(es, t) {
                        (r matches ExplorerResponse::Descend(p) && p@ == t)
                    } else if has_file_named(es, t) {
                        r is Handled && (final(self).confirm_overwrite
                            matches Some((ow, p)) && !ow && p@ == t)
                    } else {
                        (r matches ExplorerResponse::Save(p) && p@ == t)
                    }
                }),
            // a save is only ever offered for a typed fresh name or
            // after an explicit yes to overwriting
            (r is Save) ==> ({
                let p = r->Save_0;
                ||| (old(self).confirm_overwrite matches Some((ow, path))
                    && ow && p@ == path@)
                ||| (old(self).confirm_overwrite is None && old(self).input_active
                    && old(self).mode is Save
                    && crate::input::spec_input_response(old(self).input, event) is Submit
                    && (old(self).entries matches Some(es)
                        && p@ == old(self).input.value@
                        && !has_dir_named(es@, p@) && !has_file_named(es@, p@)))
            }),
            // cancelling the typed name only closes the typing line
            (old(self).confirm_overwrite is None && old(self).input_active
                && crate::input::spec_input_response(old(self).input, event) is Cancel)
                ==> r is Handled && !final(self).input_active
                    && final(self).selected == old(self).selected
                    && final(self).confirm_overwrite == old(self).confirm_overwrite,
            // submitting a typed name in open mode, or over a failed
            // listing, only closes the typing line
            (old(self).confirm_overwrite is None && old(self).input_active
                && (old(self).mode is Open || old(self).entries is None)
                && crate::input::spec_input_response(old(self).input, event) is Submit)
                ==> r is Handled && !final(self).input_active
                    && final(self).selected == old(self).selected
                    && final(self).confirm_overwrite == old(self).confirm_overwrite,
            // a buffer edit while typing jumps to the first entry with
            // the typed prefix, keeping the old selection when none has it
            (old(self).confirm_overwrite is None && old(self).input_active
                && crate::input::spec_input_response(old(self).input, event) is Edited)
                ==> (r is Handled && final(self).selected == (match old(self).entries {
                    Some(es) => first_prefix_match(
                        es@,
                        crate::input::spec_input_text_after(old(self).input, event),
                        0,
                        old(self).selected as int,
                    ) as usize,
                    None => old(self).selected,
                })),
    {
        if self.confirm_overwrite.is_some() {
            match event {
                Event::Key(k) => match k.code {
                    KeyCode::Right => {
                        let path = match &self.confirm_overwrite {
                            Some((_, p)) => p.clone(),
                            None => {
                                proof {
                                    assert(false);
                                }
                                String::new()
                            },
                        };
                        self.confirm_overwrite = Some((false, path));
                        ExplorerResponse::Handled
                    },
                    KeyCode::Left => {
                        let path = match &self.confirm_overwrite {
                            Some((_, p)) => p.clone(),
                            None => {
                                proof {
                                    assert(false);
                                }
                                String::new()
                            },
                        };
                        self.confirm_overwrite = Some((true, path));
                        ExplorerResponse::Handled
                    },
                    KeyCode::Backspace => {
                        self.confirm_overwrite = None;
                        ExplorerResponse::Handled
                    },
                    KeyCode::Esc => {
                        self.confirm_overwrite = None;
                        ExplorerResponse::Handled
                    },
                    KeyCode::Enter => {
                        let (overwrite, path) = match &self.confirm_overwrite {
                            Some((o, p)) => (*o, p.clone()),
                            None => {
                                proof {
                                    assert(false);
                                }
                                (false, String::new())
                            },
                        };
                        self.confirm_overwrite = None;
                        if overwrite {
                            ExplorerResponse::Save(path)
                        } else {
                            ExplorerResponse::Handled
                        }
                    },
                    _ => ExplorerResponse::Unhandled,
                },
                Event::Mouse => ExplorerResponse::Unhandled,
            }
        } else if self.input_active {
            match self.input.handle_event(event) {
                InputResponse::Submit => {
                    match &self.entries {
                        Some(entries) => {
                            match self.mode {
                                ExplorerMode::Open => {
                                    self.input_active = false;
                                    ExplorerResponse::Handled
                                },
                                ExplorerMode::Save => {
                                    let name = self.input.text();
                                    let n = entries.len();
                                    let mut i: usize = 0;
                                    let mut found_dir = false;
                                    let mut found_file = false;
                                    while i < n
                                        invariant
                                            0 <= i <= n,
                                            n == entries@.len(),
                                            name@ == self.input.value@,
                                            found_dir == has_dir_named(
                                                entries@.take(i as int), name@),
                                            found_file == has_file_named(
                                                entries@.take(i as int), name@),
                                        decreases n - i,
                                    {
                                        proof {
                                            assert(entries@.take(i + 1).drop_last()
                                                =~= entries@.take(i as int));
                                            assert(entries@.take(i + 1)[i as int]
                                                == entries@[i as int]);
                                            lemma_named_take_step(
                                                entries@, name@, i as int);
                                        }
                                        if crate::text::chars_eq_str(
                                            &self.input.value, entries[i].name.as_str()) {
                                            if entries[i].is_dir {
                                                found_dir = true;
                                            } else {
                                                found_file = true;
                                            }
                                        }
                                        i = i + 1;
                                    }
                                    proof {
                                        assert(entries@.take(n as int) =~= entries@);
                                    }
                                    if found_dir {
                                        ExplorerResponse::Descend(name)
                                    } else if found_file {
                                        self.confirm_overwrite = Some((false, name));
                                        ExplorerResponse::Handled
                                    } else {
                                        ExplorerResponse::Save(name)
                                    }
                                },
                            }
                        },
                        None => {
                            self.input_active = false;
                            ExplorerResponse::Handled
                        },
                    }
                },
                InputResponse::Cancel => {
                    self.input_active = false;
                    ExplorerResponse::Handled
                },
                InputResponse::Edited => {
                    let ghost newtext = self.input.value@;
                    match &self.entries {
                        Some(entries) => {
                            let n = entries.len();
                            let mut i: usize = 0;
                            while i < n
                                invariant
                                    0 <= i <= n,
                                    n == entries@.len(),
                                    self.wf(),
                                    self.entries == old(self).entries,
                                    self.mode == old(self).mode,
                                    self.selected == old(self).selected,
                                    old(self).confirm_overwrite is None,
                                    old(self).input_active,
                                    crate::input::spec_input_response(
                                        old(self).input, event) is Edited,
                                    (self.entries matches Some(e) && e == entries),
                                    self.input.value@ == newtext,
                                    newtext == crate::input::spec_input_text_after(
                                        old(self).input, event),
                                    first_prefix_match(
                                        entries@, newtext, 0, old(self).selected as int)
                                        == first_prefix_match(
                                            entries@, newtext, i as int,
                                            old(self).selected as int),
                                decreases n - i,
                            {
                                if lower_prefix_of(&self.input.value, &entries[i].name) {
                                    self.selected = i;
                                    return ExplorerResponse::Handled;
                                }
                                i = i + 1;
                            }
                            ExplorerResponse::Handled
                        },
                        None => ExplorerResponse::Handled,
                    }
                },
                InputResponse::Unhandled => ExplorerResponse::Unhandled,
            }
        } else {
            match event {
                Event::Key(k) => match k.code {
                    KeyCode::Esc => ExplorerResponse::Cancel,
                    KeyCode::Up => {
                        let len = match &self.entries {
                            Some(e) => e.len(),
                            None => 0,
                        };
                        if len == 0 {
                            self.selected = 0;
                        } else if self.selected == 0 {
                            self.selected = len - 1;
                        } else {
                            self.selected = self.selected - 1;
                        }
                        ExplorerResponse::Handled
                    },
                    KeyCode::Down => {
                        let len = match &self.entries {
                            Some(e) => e.len(),
                            None => 0,
                        };
                        if len == 0 || self.selected >= len - 1 {
                            self.selected = 0;
                        } else {
                            self.selected = self.selected + 1;
                        }
                        ExplorerResponse::Handled
                    },
                    KeyCode::Enter => {
                        let (name, is_dir): (String, bool) = match &self.entries {
                            Some(entries) => {
                                if entries.len() == 0 {
                                    return ExplorerResponse::Handled;
                                }
                                let e = &entries[self.selected];
                                (e.name.clone(), e.is_dir)
                            },
                            None => {
                                return ExplorerResponse::Handled;
                            },
                        };
                        if is_dir {
                            ExplorerResponse::Descend(name)
                        } else {
                            match self.mode {
                                ExplorerMode::Open => ExplorerResponse::Open(name),
                                ExplorerMode::Save => {
                                    self.confirm_overwrite = Some((false, name));
                                    ExplorerResponse::Handled
                                },
                            }
                        }
                    },
                    KeyCode::Backspace => ExplorerResponse::Ascend,
                    KeyCode::Char(c) => {
                        if c == '/' {
                            self.input_active = true;
                            ExplorerResponse::Handled
                        } else {
                            ExplorerResponse::Unhandled
                        }
                    },
                    _ => ExplorerResponse::Unhandled,
                },
                Event::Mouse => ExplorerResponse::Unhandled,
            }
        }
    }
}

} // verus!
