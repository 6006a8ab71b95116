//! The engine: the stack of levels over one document, the mode the
//! editor is in, and the single entry point that consumes input
//! events.
//!
//! Drilling into a composite takes its payload out of the parent,
//! leaving an empty placeholder in the slot; drilling out puts the
//! payload, as edited, back into the same slot.

use vstd::prelude::*;
use crate::confirm::{Confirm, ConfirmResponse};
use crate::corpus::LabelCorpus;
use crate::filter::{Filter, FilterResponse};
use crate::input::{is_control_char, is_key, is_plain_key, is_shift_key, Event, KeyCode};
use crate::node::{placeholder_val, ParamNode, ParamParent, ParamVal, RowKind};
use crate::rows::{
    row_matches, rows_increasing, val_wf, TreeData, TreeRow,
};
use crate::tree::{Editing, Tree, TreeResponse};

verus! {

/// Startup options a host passes along: the file to open at launch,
/// if any.
pub struct Args {
    pub file: Option<String>,
}

/// One level of descent: the composite payload the level owns, its
/// display state, the filter decisions active at this level, which
/// slot the next-deeper level took its payload from, and the display
/// name the level was entered under.
pub struct Level {
    pub parent: ParamParent,
    pub tree: Tree,
    pub keep: Option<Vec<bool>>,
    pub taken: Option<usize>,
    pub name: String,
}

/// Whether `l`'s display state is faithful to its payload: every row
/// shows a child (the row at a taken slot may be stale until the
/// deeper level returns), source indexes ascend strictly, the filter
/// decisions cover every child, and an open edit is pinned to the
/// selected row.
pub open spec fn level_wf(l: Level, corpus: Option<LabelCorpus>) -> bool {
    &&& val_wf(l.parent@)
    &&& l.parent@.is_composite()
    &&& l.tree.wf()
    &&& rows_increasing(l.tree.data.rows@)
    &&& forall|i: int| 0 <= i < l.tree.data.rows@.len()
        ==> (#[trigger] l.tree.data.rows@[i]).index < l.parent@.num_children()
    &&& forall|i: int| 0 <= i < l.tree.data.rows@.len()
        ==> (match l.taken {
            Some(s) => l.tree.data.rows@[i].index != s,
            None => true,
        } ==> row_matches(
            #[trigger] l.tree.data.rows@[i],
            l.parent@,
            l.tree.data.rows@[i].index as int,
            corpus,
        ))
    &&& match l.keep {
        Some(k) => k@.len() == l.parent@.num_children(),
        None => true,
    }
    &&& match l.tree.editing {
        Editing::Scalar(e) => {
            &&& l.tree.data.rows@.len() > 0
            &&& e.param_index == l.tree.data.rows@[l.tree.selected as int].index
            &&& e.kind == l.tree.data.rows@[l.tree.selected as int].kind
            &&& !(e.kind is Hash) && !(e.kind is List) && !(e.kind is Struct)
        },
        Editing::Hash(e) => {
            &&& l.tree.data.rows@.len() > 0
            &&& e.param_index == l.tree.data.rows@[l.tree.selected as int].index
            &&& l.tree.data.rows@[l.tree.selected as int].kind is Hash
        },
        Editing::Browsing => true,
    }
    &&& match l.taken {
        Some(s) => s < l.parent@.num_children() && l.parent@.child(s as int)
            == placeholder_val(),
        None => true,
    }
}

/// Which modal state the editor is in.
pub enum AppMode {
    ParamView,
    RegexEdit,
    ConfirmOpen(Confirm),
    ConfirmExit(Confirm),
}

/// What the engine asks of its host after an event.
pub enum AppResponse {
    Unhandled,
    Handled,
    DocumentEdited,
    Exit,
    OpenRequest,
    SaveRequest,
    FloatEdit(String),
}

/// The editor engine: the stack of levels (the first is the document
/// root), the modal state, the name filter editor, the label corpus
/// (absent when labels could not be acquired), and whether unsaved
/// edits exist.
pub struct App {
    pub levels: Vec<Level>,
    pub mode: AppMode,
    pub filter: Filter,
    pub corpus: Option<LabelCorpus>,
    pub unsaved: bool,
}

/// The whole document seen from level `i` downward: the deepest
/// payload plugged back through every taken slot above it.
pub open spec fn doc_from(levels: Seq<Level>, i: int) -> ParamVal
    decreases levels.len() - i,
    when 0 <= i < levels.len()
{
    if i == levels.len() - 1 {
        levels[i].parent@
    } else {
        levels[i].parent@.with_child(
            levels[i].taken->0 as int,
            doc_from(levels, i + 1),
        )
    }
}

impl App {
    /// The current document, as a value.
    pub open spec fn doc(self) -> ParamVal {
        doc_from(self.levels@, 0)
    }

    /// The engine's structural invariant: at least the root level,
    /// every level faithful, every level but the deepest having lent
    /// a slot to the one below it.
    pub open spec fn wf(self) -> bool {
        &&& self.levels@.len() >= 1
        &&& forall|i: int| 0 <= i < self.levels@.len()
            ==> level_wf(#[trigger] self.levels@[i], self.corpus)
        &&& forall|i: int| 0 <= i < self.levels@.len() - 1
            ==> (#[trigger] self.levels@[i]).taken is Some
        &&& self.levels@.last().taken is None
        &&& match self.corpus {
            Some(c) => c.wf(),
            None => true,
        }
    }

    /// The depth of descent: 1 at the document root.
    pub fn depth(&self) -> (r: usize)
        requires
            self.wf(),
        ensures
            r == self.levels@.len(),
    {
        self.levels.len()
    }

    /// A fresh engine over a composite document, at the root level
    /// with the first row selected and no filter.
    pub fn new(root: ParamNode, corpus: Option<LabelCorpus>) -> (r: App)
        requires
            root@.is_composite(),
            val_wf(root@),
            corpus matches Some(c) ==> c.wf(),
        ensures
            r.wf(),
            r.doc() == root@,
            r.levels@.len() == 1,
            r.levels@[0].tree.selected == 0,
            r.levels@[0].tree.editing is Browsing,
            r.levels@[0].keep is None,
            r.levels@[0].tree.data.describes(root@, corpus),
            r.mode is ParamView,
            !r.filter.spec_active(),
            r.filter.input.value@ == Seq::<char>::empty(),
            r.filter.input.error is None,
            !r.unsaved,
            r.corpus == corpus,
    {
        let parent = match ParamParent::of_node(root) {
            Some(p) => p,
            None => {
                proof {
                    assert(false);
                }
                ParamParent::List(Vec::new())
            },
        };
        let data = TreeData::new(&parent, corpus.as_ref());
        let tree = Tree::new(data);
        let level = Level {
            parent,
            tree,
            keep: None,
            taken: None,
            name: String::new(),
        };
        proof {
            lemma_fresh_level_wf(level, corpus);
        }
        let mut levels: Vec<Level> = Vec::new();
        levels.push(level);
        App {
            levels,
            mode: AppMode::ParamView,
            filter: Filter::new(),
            corpus,
            unsaved: false,
        }
    }

    /// Replaces the document wholesale: back to a single root level
    /// with its first row selected, the view mode, no filter, and no
    /// unsaved edits.
    pub fn set_param(&mut self, root: ParamNode)
        requires
            old(self).wf(),
            root@.is_composite(),
            val_wf(root@),
        ensures
            final(self).wf(),
            final(self).doc() == root@,
            final(self).levels@.len() == 1,
            final(self).levels@[0].tree.selected == 0,
            final(self).levels@[0].tree.editing is Browsing,
            final(self).levels@[0].keep is None,
            final(self).levels@[0].tree.data.describes(root@, final(self).corpus),
            final(self).mode is ParamView,
            !final(self).filter.spec_active(),
            final(self).filter.input.value@ == Seq::<char>::empty(),
            final(self).filter.input.error is None,
            !final(self).unsaved,
            final(self).corpus == old(self).corpus,
    {
        let parent = match ParamParent::of_node(root) {
            Some(p) => p,
            None => {
                proof {
                    assert(false);
                }
                ParamParent::List(Vec::new())
            },
        };
        let data = TreeData::new(&parent, self.corpus.as_ref());
        let tree = Tree::new(data);
        let level = Level {
            parent,
            tree,
            keep: None,
            taken: None,
            name: String::new(),
        };
        proof {
            lemma_fresh_level_wf(level, self.corpus);
        }
        let mut levels: Vec<Level> = Vec::new();
        levels.push(level);
        self.levels = levels;
        self.mode = AppMode::ParamView;
        self.filter = Filter::new();
        self.unsaved = false;
    }

    /// A copy of the current document: the deepest payload plugged
    /// back through every slot it was taken from.
    pub fn current_document(&self) -> (r: ParamNode)
        requires
            self.wf(),
        ensures
            r@ == self.doc(),
    {
        let n = self.levels.len();
        let mut node = self.levels[n - 1].parent.duplicate().into_node();
        let mut k: usize = n - 1;
        while k > 0
            invariant
                0 <= k <= n - 1,
                n == self.levels@.len(),
                self.wf(),
                node@ == doc_from(self.levels@, k as int),
            decreases k,
        {
            let slot = match self.levels[k - 1].taken {
                Some(s) => s,
                None => {
                    proof {
                        assert(self.levels@[k - 1].taken is Some);
                        assert(false);
                    }
                    0
                },
            };
            let mut par = self.levels[k - 1].parent.duplicate();
            par.set_child(slot, node);
            node = par.into_node();
            k = k - 1;
        }
        node
    }

    /// Whether unsaved edits exist.
    pub fn unsaved(&self) -> (r: bool)
        ensures
            r == self.unsaved,
    {
        self.unsaved
    }

    /// Tells the engine the host has saved the document.
    pub fn mark_saved(&mut self)
        requires
            old(self).wf(),
        ensures
            final(self).wf(),
            *final(self) == (App { unsaved: false, ..*old(self) }),
    {
        self.unsaved = false;
    }
}

/// A level built from a fresh unfiltered projection is faithful.
pub proof fn lemma_fresh_level_wf(level: Level, corpus: Option<LabelCorpus>)
    requires
        val_wf(level.parent@),
        level.parent@.is_composite(),
        level.tree.data.describes(level.parent@, corpus),
        level.tree.wf(),
        level.tree.editing is Browsing,
        level.keep is None,
        level.taken is None,
    ensures
        level_wf(level, corpus),
{
    let rows = level.tree.data.rows@;
    assert forall|i: int, j: int| 0 <= i < j < rows.len()
        implies (#[trigger] rows[i]).index < (#[trigger] rows[j]).index by {
        assert(row_matches(rows[i], level.parent@, i, corpus));
        assert(row_matches(rows[j], level.parent@, j, corpus));
    }
    assert forall|i: int| 0 <= i < rows.len()
        implies (#[trigger] rows[i]).index < level.parent@.num_children()
            && row_matches(rows[i], level.parent@, rows[i].index as int, corpus) by {
        assert(row_matches(rows[i], level.parent@, i, corpus));
    }
}

} // verus!
verus! {

/// Two level stacks that agree below `m` and denote the same document
/// from `m` downward denote the same document from `i` downward.
proof fn lemma_doc_from_eq(a: Seq<Level>, b: Seq<Level>, i: int, m: int)
    requires
        0 <= i <= m,
        m <= a.len() - 1,
        m <= b.len() - 1,
        forall|j: int| i <= j < m ==> a[j] == #[trigger] b[j],
        doc_from(a, m) == doc_from(b, m),
    ensures
        doc_from(a, i) == doc_from(b, i),
    decreases m - i,
{
    if i < m {
        lemma_doc_from_eq(a, b, i + 1, m);
        assert(a[i] == b[i]);
    }
}

/// Replacing one child of a level's payload disturbs no other row of
/// a faithful projection.
proof fn lemma_rows_match_with_child(
    rows: Seq<TreeRow>,
    parent: ParamVal,
    s: int,
    c: ParamVal,
    corpus: Option<LabelCorpus>,
)
    requires
        parent.is_composite(),
        0 <= s < parent.num_children(),
        forall|i: int| 0 <= i < rows.len()
            ==> (#[trigger] rows[i]).index < parent.num_children(),
        forall|i: int| 0 <= i < rows.len()
            ==> row_matches(#[trigger] rows[i], parent, rows[i].index as int, corpus),
    ensures
        forall|i: int| 0 <= i < rows.len() && rows[i].index != s
            ==> row_matches(
                #[trigger] rows[i], parent.with_child(s, c), rows[i].index as int, corpus),
{
    assert forall|i: int| 0 <= i < rows.len() && rows[i].index != s
        implies row_matches(
            #[trigger] rows[i], parent.with_child(s, c), rows[i].index as int, corpus) by {
        parent.lemma_with_child_frame(s, c);
        assert(row_matches(rows[i], parent, rows[i].index as int, corpus));
        match parent {
            ParamVal::Struct(es) => {
                assert(parent.with_child(s, c)->Struct_0[rows[i].index as int].0
                    == es[rows[i].index as int].0);
            },
            _ => {},
        }
    }
}

impl App {
    /// Drills into the selected row's child.
    ///
    /// Only a composite child can be entered: its payload is taken
    /// out of this level (an empty placeholder marks the slot) and
    /// becomes a fresh unfiltered level of its own, selected at its
    /// first row; the outer level's selection and filter stand as
    /// they are.  The document itself does not change.
    pub fn enter_selected(&mut self) -> (r: bool)
        requires
            old(self).wf(),
            old(self).levels@.last().tree.editing is Browsing,
        ensures
            final(self).wf(),
            final(self).mode == old(self).mode,
            final(self).filter == old(self).filter,
            final(self).corpus == old(self).corpus,
            final(self).unsaved == old(self).unsaved,
            final(self).doc() == old(self).doc(),
            ({
                let n = old(self).levels@.len() as int;
                let lv = old(self).levels@.last();
                let rows = lv.tree.data.rows@;
                if rows.len() > 0 && rows[lv.tree.selected as int].is_parent {
                    let s = rows[lv.tree.selected as int].index as int;
                    &&& r == true
                    &&& final(self).levels@.len() == n + 1
                    &&& (forall|i: int| 0 <= i < n - 1
                        ==> final(self).levels@[i] == #[trigger] old(self).levels@[i])
                    &&& final(self).levels@[n - 1].parent@ == lv.parent@.with_child(
                        s, placeholder_val())
                    &&& final(self).levels@[n - 1].taken == Some(
                        rows[lv.tree.selected as int].index)
                    &&& final(self).levels@[n - 1].tree == lv.tree
                    &&& final(self).levels@[n - 1].keep == lv.keep
                    &&& final(self).levels@[n - 1].name == lv.name
                    &&& final(self).levels@[n].parent@ == lv.parent@.child(s)
                    &&& final(self).levels@[n].tree.selected == 0
                    &&& final(self).levels@[n].tree.editing is Browsing
                    &&& final(self).levels@[n].keep is None
                    &&& final(self).levels@[n].taken is None
                    &&& final(self).levels@[n].name@ == rows[lv.tree.selected as int].name@
                    &&& final(self).levels@[n].tree.data.describes(
                        lv.parent@.child(s), final(self).corpus)
                } else {
                    r == false && *final(self) == *old(self)
                }
            }),
    {
        let n = self.levels.len();
        let ghost oldlevels = self.levels@;
        let lv = &self.levels[n - 1];
        if lv.tree.data.rows.len() == 0 {
            return false;
        }
        let row = &lv.tree.data.rows[lv.tree.selected];
        if !row.is_parent {
            return false;
        }
        let s = row.index;
        let rowname = row.name.clone();
        let ghost lvg = self.levels@[n - 1];
        proof {
            assert(level_wf(lvg, self.corpus));
            assert(row_matches(
                lvg.tree.data.rows@[lvg.tree.selected as int], lvg.parent@, s as int,
                self.corpus));
            crate::rows::lemma_val_wf_child(lvg.parent@, s as int);
        }
        let mut plev = match self.levels.pop() {
            Some(p) => p,
            None => {
                proof {
                    assert(false);
                }
                return false;
            },
        };
        let child = plev.parent.take_child(s);
        plev.taken = Some(s);
        let childparent = match ParamParent::of_node(child) {
            Some(p) => p,
            None => {
                proof {
                    assert(false);
                }
                ParamParent::List(Vec::new())
            },
        };
        let data = TreeData::new(&childparent, self.corpus.as_ref());
        let tree = Tree::new(data);
        let newlev = Level {
            parent: childparent,
            tree,
            keep: None,
            taken: None,
            name: rowname,
        };
        proof {
            lemma_fresh_level_wf(newlev, self.corpus);
            // the outer level stays faithful: only slot `s` changed
            crate::rows::lemma_placeholder_wf();
            crate::rows::lemma_val_wf_with_child(lvg.parent@, s as int, placeholder_val());
            lemma_rows_match_with_child(
                lvg.tree.data.rows@, lvg.parent@, s as int, placeholder_val(), self.corpus);
            lvg.parent@.lemma_with_child_frame(s as int, placeholder_val());
        }
        self.levels.push(plev);
        self.levels.push(newlev);
        proof {
            let fl = self.levels@;
            assert(fl.len() == n + 1);
            assert(forall|i: int| 0 <= i < n - 1 ==> fl[i] == #[trigger] oldlevels[i]);
            assert(fl[n as int] == newlev);
            // the document is unchanged: the child went back in, in spirit
            assert(doc_from(fl, n as int) == lvg.parent@.child(s as int));
            lvg.parent@.lemma_with_child_twice(
                s as int, placeholder_val(), lvg.parent@.child(s as int));
            lvg.parent@.lemma_with_child_self(s as int);
            assert(doc_from(fl, n - 1) == doc_from(oldlevels, n - 1));
            lemma_doc_from_eq(oldlevels, fl, 0, n - 1);
        }
        true
    }

    /// Drills back out one level.
    ///
    /// The deepest level's payload, as edited, goes back into the slot
    /// it was taken from; the outer level re-projects its rows (its
    /// filter decisions as they were) and re-selects the child it was
    /// on by source index, not by row position.  At the root there is
    /// nothing to leave and nothing changes.
    pub fn exit_level(&mut self) -> (r: bool)
        requires
            old(self).wf(),
        ensures
            final(self).wf(),
            final(self).mode == old(self).mode,
            final(self).filter == old(self).filter,
            final(self).corpus == old(self).corpus,
            final(self).unsaved == old(self).unsaved,
            final(self).doc() == old(self).doc(),
            ({
                let n = old(self).levels@.len() as int;
                if n == 1 {
                    r == false && *final(self) == *old(self)
                } else {
                    let plev = old(self).levels@[n - 2];
                    let s = plev.taken->0 as int;
                    let child = old(self).levels@[n - 1].parent@;
                    let restored = final(self).levels@[n - 2];
                    &&& r == true
                    &&& final(self).levels@.len() == n - 1
                    &&& (forall|i: int| 0 <= i < n - 2
                        ==> final(self).levels@[i] == #[trigger] old(self).levels@[i])
                    &&& restored.parent@ == plev.parent@.with_child(s, child)
                    &&& restored.keep == plev.keep
                    &&& restored.name == plev.name
                    &&& restored.taken is None
                    &&& restored.tree.editing is Browsing
                    &&& restored.tree.selected == crate::tree::find_row(
                        restored.tree.data.rows@, s, 0)
                    &&& (plev.keep is None ==> restored.tree.data.describes(
                        restored.parent@, final(self).corpus))
                }
            }),
    {
        let n = self.levels.len();
        if n == 1 {
            return false;
        }
        let ghost oldlevels = self.levels@;
        let ghost plevg = self.levels@[n - 2];
        let ghost childg = self.levels@[n - 1].parent@;
        let deepest = match self.levels.pop() {
            Some(l) => l,
            None => {
                proof {
                    assert(false);
                }
                return false;
            },
        };
        let mut plev = match self.levels.pop() {
            Some(l) => l,
            None => {
                proof {
                    assert(false);
                }
                return false;
            },
        };
        let s = match plev.taken {
            Some(s) => s,
            None => {
                proof {
                    assert(oldlevels[n - 2].taken is Some);
                    assert(false);
                }
                0
            },
        };
        let childnode = deepest.parent.into_node();
        proof {
            assert(level_wf(plevg, self.corpus));
            assert(level_wf(oldlevels[n - 1], self.corpus));
            crate::rows::lemma_val_wf_with_child(plevg.parent@, s as int, childg);
            plevg.parent@.lemma_with_child_frame(s as int, childg);
        }
        plev.parent.set_child(s, childnode);
        plev.taken = None;
        let data = TreeData::new(&plev.parent, self.corpus.as_ref());
        let ghost fullrows = data.rows@;
        let data = match &plev.keep {
            Some(k) => data.apply_filter(k),
            None => data,
        };
        let mut tree = Tree::new(data);
        tree.select_param_index(s);
        plev.tree = tree;
        proof {
            // the rebuilt level is faithful
            let restored = plev;
            let pval = plevg.parent@.with_child(s as int, childg);
            assert(restored.parent@ == pval);
            assert forall|i: int, j: int| 0 <= i < j < fullrows.len()
                implies (#[trigger] fullrows[i]).index < (#[trigger] fullrows[j]).index by {
                assert(row_matches(fullrows[i], pval, i, self.corpus));
                assert(row_matches(fullrows[j], pval, j, self.corpus));
            }
            assert forall|i: int| 0 <= i < fullrows.len()
                implies (#[trigger] fullrows[i]).index < pval.num_children()
                    && row_matches(fullrows[i], pval, fullrows[i].index as int, self.corpus)
                by {
                assert(row_matches(fullrows[i], pval, i, self.corpus));
            }
            match plevg.keep {
                Some(k) => {
                    crate::rows::lemma_filter_rows_increasing(fullrows, k@);
                    crate::rows::lemma_filtered_rows_match(fullrows, k@, pval, self.corpus);
                    crate::rows::lemma_filter_rows_sound(fullrows, k@);
                },
                None => {},
            }
            crate::tree::lemma_find_row_in_range(restored.tree.data.rows@, s as int, 0);
            assert(level_wf(restored, self.corpus));
        }
        self.levels.push(plev);
        proof {
            let fl = self.levels@;
            assert(fl.len() == n - 1);
            assert(forall|i: int| 0 <= i < n - 2 ==> fl[i] == #[trigger] oldlevels[i]);
            // the document is unchanged: what was plugged back is what
            // the deeper levels denoted
            assert(doc_from(oldlevels, n - 1) == childg);
            assert(doc_from(fl, n - 2) == plevg.parent@.with_child(s as int, childg));
            assert(doc_from(oldlevels, n - 2) == plevg.parent@.with_child(s as int,
                doc_from(oldlevels, n - 1)));
            lemma_doc_from_eq(oldlevels, fl, 0, n - 2);
        }
        true
    }
}

} // verus!
verus! {

impl App {
    /// Writes an edited scalar into the current level at source index
    /// `idx`, refreshing that row's value text.  Used for every edit
    /// path: parsed scalars, resolved hashes, cycled values, and
    /// host-parsed floats.
    fn apply_node(&mut self, idx: usize, node: ParamNode) -> (row_pos: usize)
        requires
            old(self).wf(),
            idx < old(self).levels@.last().parent@.num_children(),
            val_wf(node@),
            !node@.is_composite(),
            // the row showing `idx`, if any, must show this type
            forall|i: int| 0 <= i < old(self).levels@.last().tree.data.rows@.len()
                && (#[trigger] old(self).levels@.last().tree.data.rows@[i]).index == idx
                ==> old(self).levels@.last().tree.data.rows@[i].kind == crate::node::kind_of(
                    node@),
        ensures
            final(self).wf(),
            final(self).mode == old(self).mode,
            final(self).filter == old(self).filter,
            final(self).corpus == old(self).corpus,
            final(self).unsaved,
            ({
                let n = old(self).levels@.len() as int;
                let lv = old(self).levels@.last();
                &&& final(self).levels@.len() == n
                &&& (forall|i: int| 0 <= i < n - 1
                    ==> final(self).levels@[i] == #[trigger] old(self).levels@[i])
                &&& final(self).levels@[n - 1].parent@ == lv.parent@.with_child(
                    idx as int, node@)
                &&& final(self).levels@[n - 1].keep == lv.keep
                &&& final(self).levels@[n - 1].taken == lv.taken
                &&& final(self).levels@[n - 1].name == lv.name
                &&& final(self).levels@[n - 1].tree.selected == lv.tree.selected
                &&& final(self).levels@[n - 1].tree.editing is Browsing
                &&& final(self).doc() == doc_from(old(self).levels@, 0).with_doc_child(
                    old(self).levels@, idx as int, node@)
            }),
    {
        let n = self.levels.len();
        let ghost oldlevels = self.levels@;
        let ghost lvg = self.levels@[n - 1];
        let mut lv = match self.levels.pop() {
            Some(l) => l,
            None => {
                proof {
                    assert(false);
                }
                return 0;
            },
        };
        proof {
            assert(level_wf(lvg, self.corpus));
            crate::rows::lemma_val_wf_with_child(lvg.parent@, idx as int, node@);
            lvg.parent@.lemma_with_child_frame(idx as int, node@);
        }
        let value = crate::rows::value_text_exec(&node, self.corpus.as_ref());
        lv.parent.set_child(idx, node);
        let ghost parent_after = lv.parent;
        // refresh the row that shows this child, if it is visible
        let m = lv.tree.data.rows.len();
        let mut pos: usize = 0;
        let mut row_pos: usize = 0;
        while pos < m
            invariant
                0 <= pos <= m,
                m == lv.tree.data.rows@.len(),
                row_pos == 0,
                self.corpus == old(self).corpus,
                value@ == crate::rows::value_text(self.corpus, node@),
                lv.parent == parent_after,
                parent_after@ == lvg.parent@.with_child(idx as int, node@),
                lv.taken == lvg.taken,
                lv.keep == lvg.keep,
                lv.name == lvg.name,
                lv.tree.selected == lvg.tree.selected,
                lv.tree.wf(),
                lv.tree.data.kind == lvg.tree.data.kind,
                lv.tree.data.rows@.len() == lvg.tree.data.rows@.len(),
                forall|i: int| 0 <= i < m
                    ==> (#[trigger] lv.tree.data.rows@[i]).index
                        == lvg.tree.data.rows@[i].index
                        && lv.tree.data.rows@[i].kind == lvg.tree.data.rows@[i].kind
                        && lv.tree.data.rows@[i].name@ == lvg.tree.data.rows@[i].name@
                        && lv.tree.data.rows@[i].is_parent
                            == lvg.tree.data.rows@[i].is_parent,
                forall|i: int| 0 <= i < m && lvg.tree.data.rows@[i].index != idx
                    ==> (#[trigger] lv.tree.data.rows@[i]).value@
                        == lvg.tree.data.rows@[i].value@,
                forall|i: int| 0 <= i < pos && lvg.tree.data.rows@[i].index == idx
                    ==> (#[trigger] lv.tree.data.rows@[i]).value@ == crate::rows::value_text(
                        self.corpus, node@),
            decreases m - pos,
        {
            if lv.tree.data.rows[pos].index == idx {
                let old_row = &lv.tree.data.rows[pos];
                let new_row = TreeRow {
                    index: old_row.index,
                    name: old_row.name.clone(),
                    kind: old_row.kind,
                    value: value.clone(),
                    is_parent: old_row.is_parent,
                };
                lv.tree.data.rows.set(pos, new_row);
            }
            pos = pos + 1;
        }
        lv.tree.editing = Editing::Browsing;
        proof {
            // the refreshed level is faithful to the updated payload
            let pval = lvg.parent@.with_child(idx as int, node@);
            assert(rows_increasing(lv.tree.data.rows@)) by {
                assert forall|i: int, j: int| 0 <= i < j < m
                    implies (#[trigger] lv.tree.data.rows@[i]).index
                        < (#[trigger] lv.tree.data.rows@[j]).index by {
                    assert(lvg.tree.data.rows@[i].index < lvg.tree.data.rows@[j].index);
                }
            }
            lemma_rows_match_with_child(
                lvg.tree.data.rows@, lvg.parent@, idx as int, node@, self.corpus);
            assert forall|i: int|
                0 <= i < m && (match lv.taken {
                    Some(s) => lv.tree.data.rows@[i].index != s,
                    None => true,
                }) implies row_matches(
                    #[trigger] lv.tree.data.rows@[i], pval,
                    lv.tree.data.rows@[i].index as int, self.corpus) by {
                let rowi = lv.tree.data.rows@[i];
                let orow = lvg.tree.data.rows@[i];
                if orow.index == idx {
                    assert(pval.child(idx as int) == node@);
                    assert(rowi.kind == crate::node::kind_of(node@));
                    assert(!node@.is_composite());
                } else {
                    assert(row_matches(orow, pval, orow.index as int, self.corpus));
                }
            }
            assert(lv.taken == lvg.taken);
            assert(lv.keep == lvg.keep);
            assert(level_wf(lv, self.corpus));
        }
        self.levels.push(lv);
        self.unsaved = true;
        proof {
            let fl = self.levels@;
            assert(forall|i: int| 0 <= i < n - 1 ==> fl[i] == #[trigger] oldlevels[i]);
            lemma_doc_with_child(oldlevels, fl, idx as int, node@);
        }
        row_pos
    }
}

/// The document after the deepest level's child `idx` is replaced.
pub open spec fn with_doc_child_at(levels: Seq<Level>, i: int, idx: int, c: ParamVal)
    -> ParamVal
    decreases levels.len() - i,
    when 0 <= i < levels.len()
{
    if i == levels.len() - 1 {
        levels[i].parent@.with_child(idx, c)
    } else {
        levels[i].parent@.with_child(
            levels[i].taken->0 as int,
            with_doc_child_at(levels, i + 1, idx, c),
        )
    }
}

impl ParamVal {
    /// Helper alias used in `apply_node`'s contract.
    pub open spec fn with_doc_child(self, levels: Seq<Level>, idx: int, c: ParamVal)
        -> ParamVal {
        with_doc_child_at(levels, 0, idx, c)
    }
}

/// The events a browsing level or the view around it consumes; any
/// other event passes through the engine untouched.
pub open spec fn browsing_handles(event: Event) -> bool {
    ||| is_key(event, KeyCode::Up)
    ||| is_key(event, KeyCode::Down)
    ||| is_key(event, KeyCode::Enter)
    ||| is_key(event, KeyCode::Backspace)
    ||| is_key(event, KeyCode::Esc)
    ||| is_key(event, KeyCode::Char('/'))
    ||| is_control_char(event, 'o')
    ||| is_control_char(event, 's')
}

/// Two level stacks that agree except in the deepest display state
/// denote the same document, before and after a deepest-child edit.
proof fn lemma_with_doc_child_eq(a: Seq<Level>, b: Seq<Level>, i: int, idx: int, c: ParamVal)
    requires
        a.len() == b.len(),
        a.len() >= 1,
        0 <= i < a.len(),
        forall|j: int| i <= j < a.len() - 1 ==> a[j] == #[trigger] b[j],
        a.last().parent@ == b.last().parent@,
        a.last().taken == b.last().taken,
    ensures
        with_doc_child_at(a, i, idx, c) == with_doc_child_at(b, i, idx, c),
    decreases a.len() - i,
{
    if i < a.len() - 1 {
        lemma_with_doc_child_eq(a, b, i + 1, idx, c);
    }
}

/// Replacing the deepest child changes the document exactly at that
/// spot.
proof fn lemma_doc_with_child(a: Seq<Level>, b: Seq<Level>, idx: int, c: ParamVal)
    requires
        a.len() >= 1,
        b.len() == a.len(),
        forall|i: int| 0 <= i < a.len() - 1 ==> a[i] == #[trigger] b[i],
        b.last().parent@ == a.last().parent@.with_child(idx, c),
        b.last().taken == a.last().taken,
    ensures
        doc_from(b, 0) == with_doc_child_at(a, 0, idx, c),
{
    lemma_doc_with_child_from(a, b, 0, idx, c);
}

proof fn lemma_doc_with_child_from(a: Seq<Level>, b: Seq<Level>, i: int, idx: int,
    c: ParamVal)
    requires
        a.len() >= 1,
        b.len() == a.len(),
        0 <= i < a.len(),
        forall|j: int| 0 <= j < a.len() - 1 ==> a[j] == #[trigger] b[j],
        b.last().parent@ == a.last().parent@.with_child(idx, c),
        b.last().taken == a.last().taken,
    ensures
        doc_from(b, i) == with_doc_child_at(a, i, idx, c),
    decreases a.len() - i,
{
    if i < a.len() - 1 {
        lemma_doc_with_child_from(a, b, i + 1, idx, c);
    }
}

} // verus!
verus! {

impl App {
    /// The level the user is looking at.
    pub fn current_level(&self) -> (r: &Level)
        requires
            self.wf(),
        ensures
            *r == self.levels@.last(),
    {
        &self.levels[self.levels.len() - 1]
    }

    /// The hash value of child `idx` of the deepest level, which must
    /// be a hash node.
    fn hash_of_child(&self, idx: usize) -> (r: u64)
        requires
            self.wf(),
            idx < self.levels@.last().parent@.num_children(),
            crate::node::kind_of(self.levels@.last().parent@.child(idx as int)) is Hash,
        ensures
            self.levels@.last().parent@.child(idx as int) == ParamVal::Hash(r),
            r < 0x100_0000_0000,
    {
        let n = self.levels.len();
        proof {
            assert(level_wf(self.levels@[n - 1], self.corpus));
            crate::rows::lemma_val_wf_child(self.levels@[n - 1].parent@, idx as int);
        }
        let node = self.levels[n - 1].parent.nth(idx);
        match node {
            ParamNode::Hash(h) => *h,
            _ => {
                proof {
                    crate::node::lemma_node_kind_agrees(*node);
                    assert(false);
                }
                0
            },
        }
    }

    /// Installs the filter editor's current pattern (or clears it) at
    /// the deepest level: the rows are re-derived and the previously
    /// selected child is re-located by its source index.
    fn refilter_current(&mut self)
        requires
            old(self).wf(),
        ensures
            final(self).wf(),
            final(self).mode == old(self).mode,
            final(self).filter == old(self).filter,
            final(self).corpus == old(self).corpus,
            final(self).unsaved == old(self).unsaved,
            final(self).doc() == old(self).doc(),
            final(self).levels@.len() == old(self).levels@.len(),
    {
        let n = self.levels.len();
        let ghost oldlevels = self.levels@;
        let ghost lvg = self.levels@[n - 1];
        let mut lv = match self.levels.pop() {
            Some(l) => l,
            None => {
                proof {
                    assert(false);
                }
                return;
            },
        };
        proof {
            assert(level_wf(lvg, self.corpus));
        }
        let cur_idx: usize = if lv.tree.data.rows.len() > 0 {
            lv.tree.data.rows[lv.tree.selected].index
        } else {
            0
        };
        let data = TreeData::new(&lv.parent, self.corpus.as_ref());
        let ghost fullrows = data.rows@;
        let keep: Option<Vec<bool>> = if self.filter.regex().is_some() {
            Some(self.filter.keep_for(&data))
        } else {
            None
        };
        let data = match &keep {
            Some(k) => data.apply_filter(k),
            None => data,
        };
        let mut tree = Tree::new(data);
        tree.select_param_index(cur_idx);
        lv.tree = tree;
        lv.keep = keep;
        proof {
            let pval = lvg.parent@;
            assert forall|i: int, j: int| 0 <= i < j < fullrows.len()
                implies (#[trigger] fullrows[i]).index < (#[trigger] fullrows[j]).index by {
                assert(row_matches(fullrows[i], pval, i, self.corpus));
                assert(row_matches(fullrows[j], pval, j, self.corpus));
            }
            assert forall|i: int| 0 <= i < fullrows.len()
                implies (#[trigger] fullrows[i]).index < pval.num_children()
                    && row_matches(fullrows[i], pval, fullrows[i].index as int, self.corpus)
                by {
                assert(row_matches(fullrows[i], pval, i, self.corpus));
            }
            match &lv.keep {
                Some(k) => {
                    crate::rows::lemma_filter_rows_increasing(fullrows, k@);
                    crate::rows::lemma_filtered_rows_match(fullrows, k@, pval, self.corpus);
                    crate::rows::lemma_filter_rows_sound(fullrows, k@);
                },
                None => {},
            }
            crate::tree::lemma_find_row_in_range(lv.tree.data.rows@, cur_idx as int, 0);
            assert(level_wf(lv, self.corpus));
        }
        self.levels.push(lv);
        proof {
            lemma_doc_from_eq(oldlevels, self.levels@, 0, n - 1);
        }
    }

    /// Feeds one input event to the engine: the sole mutation entry
    /// point.
    ///
    /// In the parameter view the event first goes to the deepest
    /// level.  A drill-in request enters a composite child or begins
    /// editing a scalar one; a drill-out request leaves the level (a
    /// no-op at the root); submitted edits are parsed type-exactly and
    /// either applied (the document is then marked edited) or shown as
    /// an error beside the buffer, with the node untouched; float text
    /// is handed to the host to parse.  Unconsumed keys switch modes:
    /// filter editing, an open or save request, or leaving (behind a
    /// confirmation whenever unsaved edits exist).  Only a response of
    /// `DocumentEdited` ever changes the document.
    #[verifier::rlimit(60)]
    pub fn handle_event(&mut self, event: Event) -> (r: AppResponse)
        requires
            old(self).wf(),
        ensures
            final(self).wf(),
            final(self).corpus == old(self).corpus,
            !(r is DocumentEdited) ==> final(self).doc() == old(self).doc(),
            !(r is DocumentEdited) ==> final(self).unsaved == old(self).unsaved,
            r is DocumentEdited ==> final(self).unsaved,
            r is Exit ==> (old(self).mode is ParamView && !old(self).unsaved)
                || old(self).mode is ConfirmExit,
            r is OpenRequest ==> (old(self).mode is ParamView && !old(self).unsaved)
                || old(self).mode is ConfirmOpen,
            r is SaveRequest ==> old(self).mode is ParamView,
            // a submitted scalar edit: float text goes to the host;
            // parsing text replaces exactly the edited child and closes
            // the edit; a failed parse touches nothing and keeps the
            // edit open with an error shown
            (old(self).mode is ParamView
                && old(self).levels@.last().tree.editing is Scalar
                && crate::input::spec_input_response(
                    old(self).levels@.last().tree.editing->Scalar_0.input, event) is Submit)
                ==> ({
                    let e = old(self).levels@.last().tree.editing->Scalar_0;
                    &&& final(self).levels@.len() == old(self).levels@.len()
                    &&& final(self).mode is ParamView
                    &&& final(self).filter == old(self).filter
                    &&& if e.kind is Float {
                        (r matches AppResponse::FloatEdit(s) && s@ == e.input.value@)
                        && (final(self).levels@.last().tree.editing matches
                            Editing::Scalar(e2) && e2.kind is Float
                            && e2.param_index == e.param_index)
                        && final(self).levels@.last().tree.data == old(
                            self).levels@.last().tree.data
                    } else {
                        match crate::edit::parse_scalar_spec(e.kind, e.input.value@) {
                            Some(v) => r is DocumentEdited
                                && final(self).doc() == doc_from(old(self).levels@, 0)
                                    .with_doc_child(
                                    old(self).levels@, e.param_index as int, v)
                                && final(self).levels@.last().tree.editing is Browsing,
                            None => r is Handled
                                && (final(self).levels@.last().tree.editing matches
                                    Editing::Scalar(e2) && e2.kind == e.kind
                                    && e2.param_index == e.param_index
                                    && e2.input.error is Some)
                                && final(self).levels@.last().tree.data == old(
                                    self).levels@.last().tree.data,
                        }
                    }
                }),
            // cancelling a scalar edit returns to browsing untouched
            (old(self).mode is ParamView
                && old(self).levels@.last().tree.editing is Scalar
                && crate::input::spec_input_response(
                    old(self).levels@.last().tree.editing->Scalar_0.input, event) is Cancel)
                ==> r is Handled && final(self).levels@.last().tree.editing is Browsing
                    && final(self).levels@.len() == old(self).levels@.len()
                    && final(self).mode is ParamView
                    && final(self).filter == old(self).filter
                    && final(self).levels@.last().tree.data == old(
                        self).levels@.last().tree.data,
            // any other keystroke stays inside the scalar edit, only
            // moving its buffer
            (old(self).mode is ParamView
                && old(self).levels@.last().tree.editing is Scalar
                && !(crate::input::spec_input_response(
                    old(self).levels@.last().tree.editing->Scalar_0.input, event) is Submit)
                && !(crate::input::spec_input_response(
                    old(self).levels@.last().tree.editing->Scalar_0.input, event) is Cancel))
                ==> ({
                    let e = old(self).levels@.last().tree.editing->Scalar_0;
                    &&& r is Handled
                    &&& final(self).mode is ParamView
                    &&& final(self).filter == old(self).filter
                    &&& final(self).levels@.len() == old(self).levels@.len()
                    &&& final(self).levels@.last().tree.data == old(
                        self).levels@.last().tree.data
                    &&& final(self).levels@.last().tree.selected == old(
                        self).levels@.last().tree.selected
                    &&& (final(self).levels@.last().tree.editing matches Editing::Scalar(e2)
                        && e2.kind == e.kind && e2.param_index == e.param_index
                        && e2.input.value@ == crate::input::spec_input_text_after(
                            e.input, event))
                }),
            // a submitted hash edit: the resolved hash replaces exactly
            // the edited child unless the buffer is a malformed literal
            (old(self).mode is ParamView
                && old(self).levels@.last().tree.editing is Hash
                && is_key(event, KeyCode::Enter))
                ==> ({
                    let e = old(self).levels@.last().tree.editing->Hash_0;
                    &&& final(self).levels@.len() == old(self).levels@.len()
                    &&& final(self).mode is ParamView
                    &&& final(self).filter == old(self).filter
                    &&& if crate::hash::has_hex_marker(e.editor.value@)
                        && crate::hash::parse_hash_literal(e.editor.value@) is None {
                        r is Handled && (final(self).levels@.last().tree.editing matches
                            Editing::Hash(e2) && e2.param_index == e.param_index)
                    } else {
                        r is DocumentEdited
                        && final(self).doc() == doc_from(old(self).levels@, 0)
                            .with_doc_child(old(self).levels@, e.param_index as int,
                            ParamVal::Hash(crate::corpus::resolved_hash_of(
                                e.editor, old(self).corpus)))
                        && final(self).levels@.last().tree.editing is Browsing
                    }
                }),
            // cancelling a hash edit returns to browsing untouched
            (old(self).mode is ParamView
                && old(self).levels@.last().tree.editing is Hash
                && is_key(event, KeyCode::Esc))
                ==> r is Handled && final(self).levels@.last().tree.editing is Browsing
                    && final(self).levels@.len() == old(self).levels@.len()
                    && final(self).mode is ParamView
                    && final(self).filter == old(self).filter
                    && final(self).levels@.last().tree.data == old(
                        self).levels@.last().tree.data,
            // any other event stays inside the hash edit
            (old(self).mode is ParamView
                && old(self).levels@.last().tree.editing is Hash
                && !is_key(event, KeyCode::Enter) && !is_key(event, KeyCode::Esc))
                ==> r is Handled
                    && final(self).mode is ParamView
                    && final(self).filter == old(self).filter
                    && final(self).levels@.len() == old(self).levels@.len()
                    && final(self).levels@.last().tree.data == old(
                        self).levels@.last().tree.data
                    && final(self).levels@.last().tree.selected == old(
                        self).levels@.last().tree.selected
                    && (final(self).levels@.last().tree.editing matches Editing::Hash(e2)
                        && e2.param_index == old(
                            self).levels@.last().tree.editing->Hash_0.param_index),
            // browsing, plain arrows move the selection with wrap-around
            // and change nothing else
            (old(self).mode is ParamView && old(self).levels@.last().tree.editing is Browsing
                && is_plain_key(event, KeyCode::Up))
                ==> r is Handled && final(self).mode is ParamView
                    && final(self).filter == old(self).filter
                    && final(self).levels@ == old(self).levels@.update(
                        old(self).levels@.len() - 1,
                        (Level {
                            tree: (Tree {
                                selected: crate::tree::dec_sel(
                                    old(self).levels@.last().tree.data.rows@.len() as int,
                                    old(self).levels@.last().tree.selected as int) as usize,
                                ..old(self).levels@.last().tree
                            }),
                            ..old(self).levels@.last()
                        })),
            (old(self).mode is ParamView && old(self).levels@.last().tree.editing is Browsing
                && is_plain_key(event, KeyCode::Down))
                ==> r is Handled && final(self).mode is ParamView
                    && final(self).filter == old(self).filter
                    && final(self).levels@ == old(self).levels@.update(
                        old(self).levels@.len() - 1,
                        (Level {
                            tree: (Tree {
                                selected: crate::tree::inc_sel(
                                    old(self).levels@.last().tree.data.rows@.len() as int,
                                    old(self).levels@.last().tree.selected as int) as usize,
                                ..old(self).levels@.last().tree
                            }),
                            ..old(self).levels@.last()
                        })),
            // browsing, shift-arrows cycle the selected value in place
            (old(self).mode is ParamView && old(self).levels@.last().tree.editing is Browsing
                && (is_shift_key(event, KeyCode::Up) || is_shift_key(event, KeyCode::Down)))
                ==> ({
                    let lv = old(self).levels@.last();
                    &&& final(self).mode is ParamView
                    &&& final(self).filter == old(self).filter
                    &&& final(self).levels@.len() == old(self).levels@.len()
                    &&& if lv.tree.data.rows@.len() > 0 && lv.tree.data.rows@[
                        lv.tree.selected as int].kind.spec_is_incremental() {
                        let idx = lv.tree.data.rows@[lv.tree.selected as int].index as int;
                        match crate::edit::cycle_spec(
                            lv.parent@.child(idx), is_shift_key(event, KeyCode::Up)) {
                            Some(v) => r is DocumentEdited && final(self).doc() == doc_from(
                                old(self).levels@, 0).with_doc_child(
                                old(self).levels@, idx, v),
                            None => r is Handled,
                        }
                    } else {
                        r is Handled
                    }
                }),
            // browsing, enter drills into a composite child or begins
            // an edit of a terminal one, seeded with its current text
            (old(self).mode is ParamView && old(self).levels@.last().tree.editing is Browsing
                && is_key(event, KeyCode::Enter))
                ==> ({
                    let n = old(self).levels@.len() as int;
                    let lv = old(self).levels@.last();
                    &&& r is Handled
                    &&& final(self).mode is ParamView
                    &&& final(self).filter == old(self).filter
                    &&& if lv.tree.data.rows@.len() == 0 {
                        final(self).levels@.len() == n
                    } else {
                        let row = lv.tree.data.rows@[lv.tree.selected as int];
                        if row.is_parent {
                            &&& final(self).levels@.len() == n + 1
                            &&& final(self).levels@[n - 1].tree == lv.tree
                            &&& final(self).levels@[n - 1].keep == lv.keep
                            &&& final(self).levels@[n - 1].taken == Some(row.index)
                            &&& final(self).levels@[n].parent@ == lv.parent@.child(
                                row.index as int)
                            &&& final(self).levels@[n].tree.selected == 0
                            &&& final(self).levels@[n].keep is None
                            &&& final(self).levels@[n].name@ == row.name@
                            &&& final(self).levels@[n].tree.data.describes(
                                lv.parent@.child(row.index as int), old(self).corpus)
                        } else if row.kind is Hash {
                            &&& final(self).levels@.len() == n
                            &&& final(self).levels@.last().tree.data == lv.tree.data
                            &&& final(self).levels@.last().tree.selected == lv.tree.selected
                            &&& (final(self).levels@.last().tree.editing matches
                                Editing::Hash(e) && e.param_index == row.index
                                && (lv.parent@.child(row.index as int) matches
                                    ParamVal::Hash(h) && e.editor.return_value == h
                                    && e.editor.value@ == crate::rows::hash_display(
                                        old(self).corpus, h)))
                        } else {
                            &&& final(self).levels@.len() == n
                            &&& final(self).levels@.last().tree.data == lv.tree.data
                            &&& final(self).levels@.last().tree.selected == lv.tree.selected
                            &&& (final(self).levels@.last().tree.editing matches
                                Editing::Scalar(e) && e.kind == row.kind
                                && e.param_index == row.index
                                && e.input.value@ == row.value@
                                && e.input.error is None)
                        }
                    }
                }),
            // browsing, backspace drills out: the edited payload goes
            // back into its slot, the outer level re-selects the child
            // it was on by source index, its filter as it was; at the
            // root nothing changes
            (old(self).mode is ParamView && old(self).levels@.last().tree.editing is Browsing
                && is_key(event, KeyCode::Backspace))
                ==> ({
                    let n = old(self).levels@.len() as int;
                    &&& r is Handled
                    &&& final(self).mode is ParamView
                    &&& final(self).filter == old(self).filter
                    &&& if n > 1 {
                        let plev = old(self).levels@[n - 2];
                        let s = plev.taken->0 as int;
                        &&& final(self).levels@.len() == n - 1
                        &&& final(self).levels@[n - 2].parent@ == plev.parent@.with_child(
                            s, old(self).levels@[n - 1].parent@)
                        &&& final(self).levels@[n - 2].keep == plev.keep
                        &&& final(self).levels@[n - 2].tree.selected == crate::tree::find_row(
                            final(self).levels@[n - 2].tree.data.rows@, s, 0)
                        &&& final(self).levels@[n - 2].tree.editing is Browsing
                    } else {
                        &&& final(self).levels@ == old(self).levels@
                        &&& final(self).mode == old(self).mode
                        &&& final(self).filter == old(self).filter
                        &&& final(self).unsaved == old(self).unsaved
                    }
                }),
            // browsing, escape leaves, or asks first when edits are unsaved
            (old(self).mode is ParamView && old(self).levels@.last().tree.editing is Browsing
                && is_key(event, KeyCode::Esc))
                ==> (if old(self).unsaved {
                    r is Handled && final(self).mode is ConfirmExit
                } else {
                    r is Exit
                }),
            // browsing, `/` opens the filter editor
            (old(self).mode is ParamView && old(self).levels@.last().tree.editing is Browsing
                && is_key(event, KeyCode::Char('/')))
                ==> r is Handled && final(self).mode is RegexEdit,
            // browsing, an open request asks first when edits are unsaved
            (old(self).mode is ParamView && old(self).levels@.last().tree.editing is Browsing
                && is_control_char(event, 'o'))
                ==> (if old(self).unsaved {
                    r is Handled && final(self).mode is ConfirmOpen
                } else {
                    r is OpenRequest
                }),
            (old(self).mode is ParamView && old(self).levels@.last().tree.editing is Browsing
                && is_control_char(event, 's'))
                ==> r is SaveRequest,
            // browsing, any event not listed above passes through
            // untouched
            (old(self).mode is ParamView && old(self).levels@.last().tree.editing is Browsing
                && !browsing_handles(event))
                ==> r is Unhandled && final(self).levels@ == old(self).levels@
                    && final(self).mode == old(self).mode
                    && final(self).filter == old(self).filter
                    && final(self).unsaved == old(self).unsaved,
            // leaving and the host requests carry no state change of
            // their own
            (r is Exit || r is OpenRequest || r is SaveRequest)
                ==> final(self).levels@ == old(self).levels@
                    && final(self).mode is ParamView
                    && final(self).filter == old(self).filter
                    && final(self).unsaved == old(self).unsaved,
            // the confirm prompts: a yes answer carries the request
            // out, anything else returns to the view
            old(self).mode is ConfirmOpen ==> ({
                &&& final(self).levels == old(self).levels
                &&& final(self).unsaved == old(self).unsaved
                &&& match crate::confirm::spec_confirm_response(
                    old(self).mode->ConfirmOpen_0, event) {
                    ConfirmResponse::Confirm(yes) => final(self).mode is ParamView && (
                        if yes { r is OpenRequest } else { r is Handled }),
                    ConfirmResponse::Handled => r is Handled
                        && final(self).mode is ConfirmOpen,
                    ConfirmResponse::Unhandled => r is Unhandled
                        && final(self).mode is ConfirmOpen,
                }
            }),
            old(self).mode is ConfirmExit ==> ({
                &&& final(self).levels == old(self).levels
                &&& final(self).unsaved == old(self).unsaved
                &&& match crate::confirm::spec_confirm_response(
                    old(self).mode->ConfirmExit_0, event) {
                    ConfirmResponse::Confirm(yes) => if yes {
                        r is Exit
                    } else {
                        r is Handled && final(self).mode is ParamView
                    },
                    ConfirmResponse::Handled => r is Handled
                        && final(self).mode is ConfirmExit,
                    ConfirmResponse::Unhandled => r is Unhandled
                        && final(self).mode is ConfirmExit,
                }
            }),
            // the filter editor consumes its events; cancelling always
            // returns to the view
            old(self).mode is RegexEdit ==> r is Handled
                && final(self).levels@.len() == old(self).levels@.len()
                && (final(self).mode is ParamView || final(self).mode is RegexEdit)
                && (crate::input::spec_input_response(old(self).filter.input, event)
                    is Cancel ==> final(self).mode is ParamView),
            // the document changes only through a successful edit
            r is DocumentEdited ==> (old(self).mode is ParamView && ({
                let lv = old(self).levels@.last();
                ||| (lv.tree.editing is Scalar
                    && crate::input::spec_input_response(
                        lv.tree.editing->Scalar_0.input, event) is Submit
                    && !(lv.tree.editing->Scalar_0.kind is Float)
                    && crate::edit::parse_scalar_spec(lv.tree.editing->Scalar_0.kind,
                        lv.tree.editing->Scalar_0.input.value@) is Some)
                ||| (lv.tree.editing is Hash && is_key(event, KeyCode::Enter))
                ||| (lv.tree.editing is Browsing
                    && (is_shift_key(event, KeyCode::Up)
                        || is_shift_key(event, KeyCode::Down))
                    && lv.tree.data.rows@.len() > 0
                    && lv.tree.data.rows@[lv.tree.selected as int].kind.spec_is_incremental())
            })),
    {
        if matches!(self.mode, AppMode::ParamView) {
            let n = self.levels.len();
            let ghost oldlevels = self.levels@;
            let ghost lvg = self.levels@[n - 1];
            let mut lv = match self.levels.pop() {
                Some(l) => l,
                None => {
                    proof {
                        assert(false);
                    }
                    return AppResponse::Handled;
                },
            };
            proof {
                assert(level_wf(lvg, self.corpus));
            }
            let corpus_ref = self.corpus.as_ref();
            proof {
                assert(crate::corpus::corpus_val(corpus_ref) == self.corpus) by {
                    match self.corpus {
                        Some(c) => {},
                        None => {},
                    }
                }
            }
            let resp = lv.tree.handle_event(event, corpus_ref);
            self.levels.push(lv);
            proof {
                assert(level_wf(self.levels@[n - 1], self.corpus));
                lemma_doc_from_eq(oldlevels, self.levels@, 0, n - 1);
                assert(self.doc() == doc_from(oldlevels, 0));
            }
            match resp {
                TreeResponse::Focus => {
                    let lvr = &self.levels[n - 1];
                    if lvr.tree.data.rows.len() == 0 {
                        return AppResponse::Handled;
                    }
                    let row = &lvr.tree.data.rows[lvr.tree.selected];
                    let idx = row.index;
                    let kind = row.kind;
                    if row.is_parent {
                        self.enter_selected();
                        AppResponse::Handled
                    } else if matches!(kind, RowKind::Hash) {
                        proof {
                            assert(row_matches(
                                self.levels@[n - 1].tree.data.rows@[
                                    self.levels@[n - 1].tree.selected as int],
                                self.levels@[n - 1].parent@, idx as int, self.corpus));
                        }
                        let h = self.hash_of_child(idx);
                        let editor = crate::corpus::HashInput::new(h, self.corpus.as_ref());
                        let mut lv2 = match self.levels.pop() {
                            Some(l) => l,
                            None => {
                                proof {
                                    assert(false);
                                }
                                return AppResponse::Handled;
                            },
                        };
                        lv2.tree.start_hash_editing(editor);
                        self.levels.push(lv2);
                        proof {
                            assert(level_wf(self.levels@[n - 1], self.corpus));
                            lemma_doc_from_eq(oldlevels, self.levels@, 0, n - 1);
                        }
                        AppResponse::Handled
                    } else {
                        proof {
                            assert(row_matches(
                                self.levels@[n - 1].tree.data.rows@[
                                    self.levels@[n - 1].tree.selected as int],
                                self.levels@[n - 1].parent@, idx as int, self.corpus));
                        }
                        let mut lv2 = match self.levels.pop() {
                            Some(l) => l,
                            None => {
                                proof {
                                    assert(false);
                                }
                                return AppResponse::Handled;
                            },
                        };
                        lv2.tree.start_editing();
                        self.levels.push(lv2);
                        proof {
                            assert(level_wf(self.levels@[n - 1], self.corpus));
                            lemma_doc_from_eq(oldlevels, self.levels@, 0, n - 1);
                        }
                        AppResponse::Handled
                    }
                },
                TreeResponse::Unfocus => {
                    self.exit_level();
                    AppResponse::Handled
                },
                TreeResponse::SetValue(idx, kind, buf) => {
                    if matches!(kind, RowKind::Float) {
                        AppResponse::FloatEdit(crate::text::chars_to_string(&buf))
                    } else {
                        match crate::edit::parse_scalar(kind, &buf) {
                            Some(node) => {
                                let ghost midlevels = self.levels@;
                                proof {
                                    lemma_unique_row_kind(
                                        self.levels@[n - 1], idx as int, self.corpus);
                                    assert(crate::node::kind_of(node@) == kind) by {
                                        let s = buf@;
                                        assert(crate::edit::parse_scalar_spec(kind, s)
                                            == Some(node@));
                                    }
                                }
                                self.apply_node(idx, node);
                                proof {
                                    lemma_with_doc_child_eq(
                                        midlevels, oldlevels, 0, idx as int, node@);
                                }
                                AppResponse::DocumentEdited
                            },
                            None => {
                                let mut lv2 = match self.levels.pop() {
                                    Some(l) => l,
                                    None => {
                                        proof {
                                            assert(false);
                                        }
                                        return AppResponse::Handled;
                                    },
                                };
                                lv2.tree.set_editing_error(Some(String::from_str(
                                    "[Parse error]")));
                                self.levels.push(lv2);
                                proof {
                                    assert(level_wf(self.levels@[n - 1], self.corpus));
                                    lemma_doc_from_eq(oldlevels, self.levels@, 0, n - 1);
                                }
                                AppResponse::Handled
                            },
                        }
                    }
                },
                TreeResponse::SetHash(idx, h) => {
                    let ghost midlevels = self.levels@;
                    proof {
                        lemma_unique_row_kind(self.levels@[n - 1], idx as int, self.corpus);
                    }
                    let node = ParamNode::Hash(h);
                    self.apply_node(idx, node);
                    proof {
                        lemma_with_doc_child_eq(
                            midlevels, oldlevels, 0, idx as int, node@);
                    }
                    AppResponse::DocumentEdited
                },
                TreeResponse::Handled => {
                    proof {
                        assert(self.levels@ =~= oldlevels.update(
                            n - 1, self.levels@[n - 1]));
                        if lvg.tree.editing is Browsing {
                            if is_plain_key(event, KeyCode::Up) {
                                assert(self.levels@[n - 1].tree == (Tree {
                                    selected: crate::tree::dec_sel(
                                        lvg.tree.data.rows@.len() as int,
                                        lvg.tree.selected as int) as usize,
                                    ..lvg.tree
                                }));
                            }
                            if is_plain_key(event, KeyCode::Down) {
                                assert(self.levels@[n - 1].tree == (Tree {
                                    selected: crate::tree::inc_sel(
                                        lvg.tree.data.rows@.len() as int,
                                        lvg.tree.selected as int) as usize,
                                    ..lvg.tree
                                }));
                            }
                        }
                    }
                    AppResponse::Handled
                },
                TreeResponse::IncValue(idx) => {
                    let ghost midlevels = self.levels@;
                    let r2 = self.cycle_at(idx, true);
                    proof {
                        assert(midlevels.last().parent@ == lvg.parent@);
                        if r2 is DocumentEdited {
                            let stepped = crate::edit::cycle_spec(
                                midlevels.last().parent@.child(idx as int), true);
                            lemma_with_doc_child_eq(
                                midlevels, oldlevels, 0, idx as int, stepped->0);
                        }
                    }
                    r2
                },
                TreeResponse::DecValue(idx) => {
                    let ghost midlevels = self.levels@;
                    let r2 = self.cycle_at(idx, false);
                    proof {
                        assert(midlevels.last().parent@ == lvg.parent@);
                        if r2 is DocumentEdited {
                            let stepped = crate::edit::cycle_spec(
                                midlevels.last().parent@.child(idx as int), false);
                            lemma_with_doc_child_eq(
                                midlevels, oldlevels, 0, idx as int, stepped->0);
                        }
                    }
                    r2
                },
                TreeResponse::Unhandled => {
                    match event {
                        Event::Key(k) => match k.code {
                            KeyCode::Char(c) => {
                                if c == '/' {
                                    self.mode = AppMode::RegexEdit;
                                    self.filter.focus(true);
                                    AppResponse::Handled
                                } else if c == 'o' && k.modifiers.control {
                                    if self.unsaved {
                                        self.mode = AppMode::ConfirmOpen(Confirm::new(
                                            String::from_str(
                                            "Unsaved changes. Confirm open?")));
                                        AppResponse::Handled
                                    } else {
                                        AppResponse::OpenRequest
                                    }
                                } else if c == 's' && k.modifiers.control {
                                    AppResponse::SaveRequest
                                } else {
                                    AppResponse::Unhandled
                                }
                            },
                            KeyCode::Esc => {
                                if self.unsaved {
                                    self.mode = AppMode::ConfirmExit(Confirm::new(
                                        String::from_str(
                                        "Unsaved changes. Confirm exit?")));
                                    AppResponse::Handled
                                } else {
                                    AppResponse::Exit
                                }
                            },
                            _ => AppResponse::Unhandled,
                        },
                        Event::Mouse => AppResponse::Unhandled,
                    }
                },
            }
        } else if matches!(self.mode, AppMode::RegexEdit) {
            match self.filter.handle_event(event) {
                FilterResponse::Exit => {
                    self.mode = AppMode::ParamView;
                    self.filter.focus(false);
                    self.refilter_current();
                    AppResponse::Handled
                },
                FilterResponse::Unhandled => AppResponse::Handled,
            }
        } else {
            let open_mode = matches!(self.mode, AppMode::ConfirmOpen(_));
            let resp = match &mut self.mode {
                AppMode::ConfirmOpen(c) => c.handle_event(event),
                AppMode::ConfirmExit(c) => c.handle_event(event),
                _ => {
                    proof {
                        assert(false);
                    }
                    ConfirmResponse::Unhandled
                },
            };
            match resp {
                ConfirmResponse::Confirm(yes) => {
                    self.mode = AppMode::ParamView;
                    if yes {
                        if open_mode {
                            AppResponse::OpenRequest
                        } else {
                            AppResponse::Exit
                        }
                    } else {
                        AppResponse::Handled
                    }
                },
                ConfirmResponse::Handled => AppResponse::Handled,
                ConfirmResponse::Unhandled => AppResponse::Unhandled,
            }
        }
    }

    /// Cycles the value at source index `idx` of the deepest level one
    /// step up or down, wrapping at the type's bounds.  Only booleans
    /// and integers cycle; anything else is left alone.
    fn cycle_at(&mut self, idx: usize, up: bool) -> (r: AppResponse)
        requires
            old(self).wf(),
            idx < old(self).levels@.last().parent@.num_children(),
        ensures
            final(self).wf(),
            final(self).corpus == old(self).corpus,
            final(self).mode == old(self).mode,
            final(self).filter == old(self).filter,
            final(self).levels@.len() == old(self).levels@.len(),
            !(r is DocumentEdited) ==> *final(self) == *old(self),
            r is DocumentEdited ==> final(self).unsaved,
            ({
                let stepped = crate::edit::cycle_spec(
                    old(self).levels@.last().parent@.child(idx as int), up);
                match stepped {
                    Some(v) => r is DocumentEdited && final(self).doc() == doc_from(
                        old(self).levels@, 0).with_doc_child(
                        old(self).levels@, idx as int, v),
                    None => r is Handled,
                }
            }),
    {
        let n = self.levels.len();
        proof {
            assert(level_wf(self.levels@[n - 1], self.corpus));
            crate::rows::lemma_val_wf_child(self.levels@[n - 1].parent@, idx as int);
        }
        let node = self.levels[n - 1].parent.nth(idx);
        match crate::edit::cycle_value(node, up) {
            Some(next) => {
                proof {
                    lemma_unique_row_kind(self.levels@[n - 1], idx as int, self.corpus);
                    assert(crate::edit::cycle_spec(node@, up) == Some(next@));
                    assert(crate::node::kind_of(next@) == crate::node::kind_of(node@));
                }
                self.apply_node(idx, next);
                AppResponse::DocumentEdited
            },
            None => AppResponse::Handled,
        }
    }

    /// Accepts the host's parse of float text for the open float edit:
    /// a parsed value replaces the node's bits and closes the edit, a
    /// failed parse shows an error and keeps the edit open, and with
    /// no float edit open nothing happens.
    pub fn submit_float(&mut self, bits: Option<u32>) -> (r: AppResponse)
        requires
            old(self).wf(),
        ensures
            final(self).wf(),
            final(self).corpus == old(self).corpus,
            final(self).mode == old(self).mode,
            final(self).filter == old(self).filter,
            !(r is DocumentEdited) ==> final(self).doc() == old(self).doc(),
            !(r is DocumentEdited) ==> final(self).unsaved == old(self).unsaved,
            r is DocumentEdited ==> final(self).unsaved,
            (old(self).levels@.last().tree.editing matches Editing::Scalar(e)
                && e.kind is Float)
                ==> ({
                    let e = old(self).levels@.last().tree.editing->Scalar_0;
                    &&& final(self).levels@.len() == old(self).levels@.len()
                    &&& match bits {
                        Some(b) => r is DocumentEdited
                            && final(self).doc() == doc_from(old(self).levels@, 0)
                                .with_doc_child(old(self).levels@, e.param_index as int,
                                ParamVal::Float(b))
                            && final(self).levels@.last().tree.editing is Browsing,
                        None => r is Handled
                            && (final(self).levels@.last().tree.editing matches
                                Editing::Scalar(e2) && e2.kind is Float
                                && e2.param_index == e.param_index
                                && e2.input.error is Some),
                    }
                }),
            !(old(self).levels@.last().tree.editing matches Editing::Scalar(e)
                && e.kind is Float)
                ==> r is Unhandled && *final(self) == *old(self),
    {
        let n = self.levels.len();
        let ghost lvg = self.levels@[n - 1];
        proof {
            assert(level_wf(lvg, self.corpus));
        }
        let (is_float_edit, idx) = match &self.levels[n - 1].tree.editing {
            Editing::Scalar(e) => (matches!(e.kind, RowKind::Float), e.param_index),
            _ => (false, 0),
        };
        if !is_float_edit {
            return AppResponse::Unhandled;
        }
        match bits {
            Some(b) => {
                proof {
                    lemma_unique_row_kind(lvg, idx as int, self.corpus);
                }
                self.apply_node(idx, ParamNode::Float(b));
                AppResponse::DocumentEdited
            },
            None => {
                let ghost oldlevels = self.levels@;
                let mut lv = match self.levels.pop() {
                    Some(l) => l,
                    None => {
                        proof {
                            assert(false);
                        }
                        return AppResponse::Handled;
                    },
                };
                lv.tree.set_editing_error(Some(String::from_str("[Parse error]")));
                self.levels.push(lv);
                proof {
                    assert(level_wf(self.levels@[n - 1], self.corpus));
                    lemma_doc_from_eq(oldlevels, self.levels@, 0, n - 1);
                }
                AppResponse::Handled
            },
        }
    }
}

/// In a faithful level, every visible row showing source index `idx`
/// shows the same child, so they all carry the type of that child.
proof fn lemma_unique_row_kind(l: Level, idx: int, corpus: Option<LabelCorpus>)
    requires
        level_wf(l, corpus),
        l.taken is None,
    ensures
        forall|i: int| 0 <= i < l.tree.data.rows@.len()
            && (#[trigger] l.tree.data.rows@[i]).index == idx
            ==> l.tree.data.rows@[i].kind == crate::node::kind_of(l.parent@.child(idx)),
{
    assert forall|i: int| 0 <= i < l.tree.data.rows@.len()
        && (#[trigger] l.tree.data.rows@[i]).index == idx
        implies l.tree.data.rows@[i].kind == crate::node::kind_of(l.parent@.child(idx)) by {
        assert(row_matches(l.tree.data.rows@[i], l.parent@,
            l.tree.data.rows@[i].index as int, corpus));
    }
}

} // verus!
verus! {

/// Navigation symmetry: entering a composite child and immediately
/// leaving restores the level exactly.
///
/// `enter_selected` records the selected row's source index `s`,
/// swaps the child for the placeholder, and touches neither the
/// level's selection nor its filter; `exit_level` puts the child's
/// value back into slot `s` and re-selects by source index.  So when
/// nothing was edited inside, the payload the level ends with is the
/// payload it began with, and re-selecting `s` lands on the very row
/// that was selected before.
pub proof fn lemma_navigation_symmetry(l: Level, corpus: Option<LabelCorpus>)
    requires
        level_wf(l, corpus),
        l.taken is None,
        l.tree.data.rows@.len() > 0,
        l.tree.data.rows@[l.tree.selected as int].is_parent,
    ensures
        ({
            let s = l.tree.data.rows@[l.tree.selected as int].index as int;
            &&& l.parent@.with_child(s, placeholder_val()).with_child(
                s, l.parent@.child(s)) == l.parent@
            &&& crate::tree::find_row(l.tree.data.rows@, s, 0) == l.tree.selected
        }),
{
    let s = l.tree.data.rows@[l.tree.selected as int].index as int;
    assert(row_matches(l.tree.data.rows@[l.tree.selected as int], l.parent@, s, corpus));
    l.parent@.lemma_with_child_twice(s, placeholder_val(), l.parent@.child(s));
    l.parent@.lemma_with_child_self(s);
    crate::tree::lemma_find_row_unique(l.tree.data.rows@, l.tree.selected as int);
}

/// Take/replace integrity: editing inside a taken child and putting
/// it back touches exactly the slot it was taken from.
///
/// Whatever the placeholder held in the meantime, restoring the
/// edited child value `e` leaves every other child, every key and the
/// child count of the parent as they were.
pub proof fn lemma_take_replace_integrity(p: ParamVal, s: int, e: ParamVal)
    requires
        p.is_composite(),
        0 <= s < p.num_children(),
    ensures
        p.with_child(s, placeholder_val()).with_child(s, e) == p.with_child(s, e),
        p.with_child(s, e).num_children() == p.num_children(),
        p.with_child(s, e).child(s) == e,
        forall|j: int| 0 <= j < p.num_children() && j != s
            ==> p.with_child(s, e).child(j) == p.child(j),
        forall|j: int| 0 <= j < p.num_children() ==> p.with_child(s, e).key(j) == p.key(j),
{
    p.lemma_with_child_twice(s, placeholder_val(), e);
    p.lemma_with_child_frame(s, e);
}

} // verus!
