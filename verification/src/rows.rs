//! Row projection: one level of the document flattened into
//! display-ready rows, with an optional name filter that never
//! renumbers the underlying children.

use vstd::prelude::*;
use crate::corpus::LabelCorpus;
use crate::hash::hash_literal;
use crate::node::{
    kind_of, lemma_entry_vals_of_index, lemma_entry_vals_of_len, lemma_vals_of_index,
    lemma_vals_of_len, ParamNode, ParamParent, ParamVal, RowKind,
};
use crate::text::{dec_digits, format_u64, signed_dec_digits, format_i64, chars_to_string};

verus! {

// ---------------------------------------------------------------------
// Well-formed documents: every hash fits in 40 bits
// ---------------------------------------------------------------------

pub open spec fn vals_wf(s: Seq<ParamVal>) -> bool
    decreases s,
{
    s.len() == 0 || (vals_wf(s.drop_last()) && val_wf(s.last()))
}

pub open spec fn entries_wf(s: Seq<(u64, ParamVal)>) -> bool
    decreases s,
{
    s.len() == 0 || (entries_wf(s.drop_last()) && s.last().0 < 0x100_0000_0000 && val_wf(
        s.last().1))
}

/// Every hash value and struct key in the tree fits in 40 bits.
pub open spec fn val_wf(v: ParamVal) -> bool
    decreases v,
{
    match v {
        ParamVal::Hash(h) => h < 0x100_0000_0000,
        ParamVal::List(cs) => vals_wf(cs),
        ParamVal::Struct(es) => entries_wf(es),
        _ => true,
    }
}

pub broadcast proof fn lemma_vals_wf_index(s: Seq<ParamVal>, i: int)
    requires
        vals_wf(s),
        0 <= i < s.len(),
    ensures
        val_wf(#[trigger] s[i]),
    decreases s,
{
    if i < s.len() - 1 {
        lemma_vals_wf_index(s.drop_last(), i);
    }
}

pub broadcast proof fn lemma_entries_wf_index(s: Seq<(u64, ParamVal)>, i: int)
    requires
        entries_wf(s),
        0 <= i < s.len(),
    ensures
        (#[trigger] s[i]).0 < 0x100_0000_0000,
        val_wf(s[i].1),
    decreases s,
{
    if i < s.len() - 1 {
        lemma_entries_wf_index(s.drop_last(), i);
    }
}

// ---------------------------------------------------------------------
// The display text of names and values
// ---------------------------------------------------------------------

/// The display name of a hash: its label when the corpus knows one,
/// else its literal form.
pub open spec fn hash_display(corpus: Option<LabelCorpus>, h: u64) -> Seq<char> {
    match corpus {
        Some(c) => match c.spec_label_of(h) {
            Some(l) => l,
            None => hash_literal(h),
        },
        None => hash_literal(h),
    }
}

/// The summary text of a composite: `(<n> children)`.
pub open spec fn children_text(n: int) -> Seq<char> {
    "("@ + dec_digits(n as nat) + " children)"@
}

/// The canonical display text of a value.  A float's text is left to
/// the host (shown here as empty), since the engine never interprets
/// float bits.
pub open spec fn value_text(corpus: Option<LabelCorpus>, v: ParamVal) -> Seq<char> {
    match v {
        ParamVal::Bool(b) => if b { "true"@ } else { "false"@ },
        ParamVal::I8(x) => signed_dec_digits(x as int),
        ParamVal::U8(x) => dec_digits(x as nat),
        ParamVal::I16(x) => signed_dec_digits(x as int),
        ParamVal::U16(x) => dec_digits(x as nat),
        ParamVal::I32(x) => signed_dec_digits(x as int),
        ParamVal::U32(x) => dec_digits(x as nat),
        ParamVal::Float(_) => Seq::empty(),
        ParamVal::Hash(h) => hash_display(corpus, h),
        ParamVal::Str(s) => s,
        ParamVal::List(cs) => children_text(cs.len() as int),
        ParamVal::Struct(es) => children_text(es.len() as int),
    }
}

/// The display text of a hash, as executable code.
pub fn hash_display_text(corpus: Option<&LabelCorpus>, h: u64) -> (r: String)
    requires
        h < 0x100_0000_0000,
        corpus matches Some(c) ==> c.wf(),
    ensures
        r@ == hash_display(crate::corpus::corpus_val(corpus), h),
{
    match corpus {
        Some(c) => match c.label_of(h) {
            Some(l) => l,
            None => chars_to_string(&crate::hash::format_hash(h)),
        },
        None => chars_to_string(&crate::hash::format_hash(h)),
    }
}

/// The summary text of a composite with `n` children.
fn children_text_exec(n: usize) -> (r: String)
    ensures
        r@ == children_text(n as int),
{
    let mut v: Vec<char> = Vec::new();
    v.push('(');
    let mut digits = format_u64(n as u64);
    v.append(&mut digits);
    let mut tail = crate::text::string_to_chars(" children)");
    v.append(&mut tail);
    proof {
        reveal_strlit("(");
        assert(seq!['('] =~= "("@);
        assert(v@ =~= "("@ + dec_digits(n as nat) + " children)"@);
    }
    chars_to_string(&v)
}

/// The canonical display text of a node's value.
pub fn value_text_exec(node: &ParamNode, corpus: Option<&LabelCorpus>) -> (r: String)
    requires
        val_wf(node@),
        corpus matches Some(c) ==> c.wf(),
    ensures
        r@ == value_text(crate::corpus::corpus_val(corpus), node@),
{
    match node {
        ParamNode::Bool(b) => {
            if *b {
                String::from_str("true")
            } else {
                String::from_str("false")
            }
        },
        ParamNode::I8(x) => chars_to_string(&format_i64(*x as i64)),
        ParamNode::U8(x) => chars_to_string(&format_u64(*x as u64)),
        ParamNode::I16(x) => chars_to_string(&format_i64(*x as i64)),
        ParamNode::U16(x) => chars_to_string(&format_u64(*x as u64)),
        ParamNode::I32(x) => chars_to_string(&format_i64(*x as i64)),
        ParamNode::U32(x) => chars_to_string(&format_u64(*x as u64)),
        ParamNode::Float(_) => String::new(),
        ParamNode::Hash(h) => hash_display_text(corpus, *h),
        ParamNode::Str(s) => s.clone(),
        ParamNode::List(cs) => {
            proof {
                lemma_vals_of_len(cs@);
            }
            children_text_exec(cs.len())
        },
        ParamNode::Struct(es) => {
            proof {
                lemma_entry_vals_of_len(es@);
            }
            children_text_exec(es.len())
        },
    }
}

// ---------------------------------------------------------------------
// Rows
// ---------------------------------------------------------------------

/// One display row of a level: the child's name, type tag and value,
/// and its position in the unfiltered child sequence.
pub struct TreeRow {
    pub index: usize,
    pub name: String,
    pub kind: RowKind,
    pub value: String,
    pub is_parent: bool,
}

/// Whether a level shows a struct or a list.
#[derive(Debug, Clone, Copy, PartialEq, Eq, Structural)]
pub enum TreeKind {
    Struct,
    List,
}

/// The rows of one level.
pub struct TreeData {
    pub rows: Vec<TreeRow>,
    pub kind: TreeKind,
}

/// The display name of child `i` of a composite.
pub open spec fn row_name(parent: ParamVal, i: int, corpus: Option<LabelCorpus>) -> Seq<char> {
    match parent {
        ParamVal::Struct(es) => hash_display(corpus, es[i].0),
        _ => dec_digits(i as nat),
    }
}

/// Whether `row` faithfully describes child `i` of `parent`.
pub open spec fn row_matches(
    row: TreeRow,
    parent: ParamVal,
    i: int,
    corpus: Option<LabelCorpus>,
) -> bool {
    &&& row.index == i
    &&& row.name@ == row_name(parent, i, corpus)
    &&& row.kind == kind_of(parent.child(i))
    &&& row.value@ == value_text(corpus, parent.child(i))
    &&& row.is_parent == parent.child(i).is_composite()
}

impl TreeData {
    /// Faithful: one row per child, in order, each describing its
    /// child, with `index` equal to the child's unfiltered position.
    pub open spec fn describes(
        self,
        parent: ParamVal,
        corpus: Option<LabelCorpus>,
    ) -> bool {
        &&& self.rows@.len() == parent.num_children()
        &&& forall|i: int|
            0 <= i < self.rows@.len() ==> row_matches(#[trigger] self.rows@[i], parent, i, corpus)
        &&& (self.kind is Struct <==> parent is Struct)
    }

    /// Projects every child of a composite into a row.
    pub fn new(parent: &ParamParent, corpus: Option<&LabelCorpus>) -> (r: TreeData)
        requires
            val_wf(parent@),
            corpus matches Some(c) ==> c.wf(),
        ensures
            r.describes(parent@, crate::corpus::corpus_val(corpus)),
    {
        let n = parent.len();
        let mut rows: Vec<TreeRow> = Vec::new();
        let mut i: usize = 0;
        while i < n
            invariant
                0 <= i <= n,
                n == parent@.num_children(),
                val_wf(parent@),
                corpus matches Some(c) ==> c.wf(),
                rows@.len() == i,
                forall|j: int|
                    0 <= j < i ==> row_matches(
                        #[trigger] rows@[j], parent@, j, crate::corpus::corpus_val(corpus)),
            decreases n - i,
        {
            let child = parent.nth(i);
            proof {
                match parent {
                    ParamParent::List(cs) => {
                        lemma_vals_of_len(cs@);
                        lemma_vals_of_index(cs@, i as int);
                        lemma_vals_wf_index(parent@->List_0, i as int);
                    },
                    ParamParent::Struct(es) => {
                        lemma_entry_vals_of_len(es@);
                        lemma_entry_vals_of_index(es@, i as int);
                        lemma_entries_wf_index(parent@->Struct_0, i as int);
                    },
                }
            }
            let name: String = match parent {
                ParamParent::List(_) => chars_to_string(&format_u64(i as u64)),
                ParamParent::Struct(es) => hash_display_text(corpus, es[i].0),
            };
            let row = TreeRow {
                index: i,
                name,
                kind: RowKind::from_param(child),
                value: value_text_exec(child, corpus),
                is_parent: child.is_composite(),
            };
            rows.push(row);
            i = i + 1;
        }
        let kind = match parent {
            ParamParent::List(_) => TreeKind::List,
            ParamParent::Struct(_) => TreeKind::Struct,
        };
        TreeData { rows, kind }
    }
}

} // verus!
verus! {

// ---------------------------------------------------------------------
// Filtering: which rows are visible, never renumbering children
// ---------------------------------------------------------------------

/// Whether a row survives the filter decisions `keep` (one decision
/// per unfiltered child).
pub open spec fn row_kept(row: TreeRow, keep: Seq<bool>) -> bool {
    row.index < keep.len() && keep[row.index as int]
}

/// The rows that survive, in order.
pub open spec fn filter_rows(rows: Seq<TreeRow>, keep: Seq<bool>) -> Seq<TreeRow>
    decreases rows,
{
    if rows.len() == 0 {
        Seq::empty()
    } else {
        let prev = filter_rows(rows.drop_last(), keep);
        if row_kept(rows.last(), keep) {
            prev.push(rows.last())
        } else {
            prev
        }
    }
}

/// Every row that survives filtering satisfies the filter, sits below
/// the length bound, and comes from the input.
pub proof fn lemma_filter_rows_sound(rows: Seq<TreeRow>, keep: Seq<bool>)
    ensures
        forall|i: int| 0 <= i < filter_rows(rows, keep).len()
            ==> row_kept(#[trigger] filter_rows(rows, keep)[i], keep),
        filter_rows(rows, keep).len() <= rows.len(),
    decreases rows,
{
    if rows.len() > 0 {
        lemma_filter_rows_sound(rows.drop_last(), keep);
    }
}

/// Filtering what has already been filtered changes nothing: the
/// visible rows are exactly the same sequence.
pub proof fn lemma_filter_idempotent(rows: Seq<TreeRow>, keep: Seq<bool>)
    ensures
        filter_rows(filter_rows(rows, keep), keep) == filter_rows(rows, keep),
{
    lemma_filter_rows_sound(rows, keep);
    lemma_filter_all_kept(filter_rows(rows, keep), keep);
}

/// Filtering a sequence whose rows all pass is the identity.
pub proof fn lemma_filter_all_kept(rows: Seq<TreeRow>, keep: Seq<bool>)
    requires
        forall|i: int| 0 <= i < rows.len() ==> row_kept(#[trigger] rows[i], keep),
    ensures
        filter_rows(rows, keep) == rows,
    decreases rows,
{
    if rows.len() == 0 {
        assert(filter_rows(rows, keep) =~= rows);
    } else {
        assert(forall|i: int| 0 <= i < rows.len() - 1
            ==> rows.drop_last()[i] == #[trigger] rows[i]);
        lemma_filter_all_kept(rows.drop_last(), keep);
        assert(filter_rows(rows, keep) =~= rows) by {
            assert(row_kept(rows.last(), keep));
            assert(filter_rows(rows, keep) == rows.drop_last().push(rows.last()));
        }
    }
}

impl TreeData {
    /// Keeps only the rows whose underlying child the filter accepts.
    /// The surviving rows still carry their original `index`.
    pub fn apply_filter(self, keep: &Vec<bool>) -> (r: TreeData)
        ensures
            r.rows@ == filter_rows(self.rows@, keep@),
            r.kind == self.kind,
    {
        let n = self.rows.len();
        let TreeData { rows, kind } = self;
        let ghost allrows = rows@;
        let mut rows = rows;
        let mut out: Vec<TreeRow> = Vec::new();
        let mut i: usize = 0;
        proof {
            assert(allrows.take(0) =~= Seq::<TreeRow>::empty());
        }
        // consume from the front to move rows without cloning
        while i < n
            invariant
                0 <= i <= n,
                n == allrows.len(),
                rows@ == allrows.skip(i as int),
                out@ == filter_rows(allrows.take(i as int), keep@),
            decreases n - i,
        {
            let row = rows.remove(0);
            proof {
                assert(row == allrows[i as int]);
                assert(rows@ =~= allrows.skip(i + 1));
                let t1 = allrows.take(i + 1);
                assert(t1.drop_last() =~= allrows.take(i as int));
                assert(t1.last() == allrows[i as int]);
            }
            let kept = row.index < keep.len() && keep[row.index];
            if kept {
                out.push(row);
            }
            i = i + 1;
        }
        proof {
            assert(allrows.take(n as int) =~= allrows);
        }
        TreeData { rows: out, kind }
    }
}

/// The filtered projection still describes the same children: each
/// surviving row describes the child at its own `index`.
pub proof fn lemma_filtered_rows_match(
    rows: Seq<TreeRow>,
    keep: Seq<bool>,
    parent: ParamVal,
    corpus: Option<LabelCorpus>,
)
    requires
        forall|i: int| 0 <= i < rows.len() ==> row_matches(#[trigger] rows[i], parent, i, corpus),
    ensures
        forall|i: int| 0 <= i < filter_rows(rows, keep).len()
            ==> row_matches(
                #[trigger] filter_rows(rows, keep)[i],
                parent,
                filter_rows(rows, keep)[i].index as int,
                corpus,
            ),
    decreases rows,
{
    if rows.len() > 0 {
        assert(forall|i: int| 0 <= i < rows.len() - 1
            ==> rows.drop_last()[i] == #[trigger] rows[i]);
        lemma_filtered_rows_match(rows.drop_last(), keep, parent, corpus);
    }
}

} // verus!
verus! {

/// Replacing one well-formed element keeps a sequence well-formed.
pub proof fn lemma_vals_wf_update(s: Seq<ParamVal>, i: int, v: ParamVal)
    requires
        vals_wf(s),
        val_wf(v),
        0 <= i < s.len(),
    ensures
        vals_wf(s.update(i, v)),
    decreases s,
{
    let t = s.update(i, v);
    if i == s.len() - 1 {
        assert(t.drop_last() =~= s.drop_last());
        assert(t.last() == v);
    } else {
        assert(t.drop_last() =~= s.drop_last().update(i, v));
        lemma_vals_wf_update(s.drop_last(), i, v);
        assert(t.last() == s.last());
    }
}

pub proof fn lemma_entries_wf_update(s: Seq<(u64, ParamVal)>, i: int, v: ParamVal)
    requires
        entries_wf(s),
        val_wf(v),
        0 <= i < s.len(),
    ensures
        entries_wf(s.update(i, (s[i].0, v))),
    decreases s,
{
    let t = s.update(i, (s[i].0, v));
    if i == s.len() - 1 {
        assert(t.drop_last() =~= s.drop_last());
        assert(t.last() == (s[i].0, v));
        lemma_entries_wf_index(s, i);
    } else {
        assert(t.drop_last() =~= s.drop_last().update(i, (s[i].0, v)));
        lemma_entries_wf_update(s.drop_last(), i, v);
        assert(t.last() == s.last());
    }
}

/// Replacing a well-formed child keeps the whole composite well
/// formed.
pub proof fn lemma_val_wf_with_child(p: ParamVal, i: int, v: ParamVal)
    requires
        val_wf(p),
        val_wf(v),
        p.is_composite(),
        0 <= i < p.num_children(),
    ensures
        val_wf(p.with_child(i, v)),
{
    match p {
        ParamVal::List(cs) => {
            lemma_vals_wf_update(cs, i, v);
        },
        ParamVal::Struct(es) => {
            lemma_entries_wf_update(es, i, v);
        },
        _ => {},
    }
}

/// Every child of a well-formed composite is well formed, and every
/// struct key fits in 40 bits.
pub proof fn lemma_val_wf_child(p: ParamVal, i: int)
    requires
        val_wf(p),
        p.is_composite(),
        0 <= i < p.num_children(),
    ensures
        val_wf(p.child(i)),
        p is Struct ==> (p.key(i) matches Some(k) && k < 0x100_0000_0000),
{
    match p {
        ParamVal::List(cs) => {
            lemma_vals_wf_index(cs, i);
        },
        ParamVal::Struct(es) => {
            lemma_entries_wf_index(es, i);
        },
        _ => {},
    }
}

/// The placeholder left in a taken slot is well formed.
pub proof fn lemma_placeholder_wf()
    ensures
        val_wf(crate::node::placeholder_val()),
        crate::node::placeholder_val().is_composite(),
        crate::node::placeholder_val().num_children() == 0,
{
}

/// Whether the rows' source indexes strictly ascend (so each child
/// shows at most once).
pub open spec fn rows_increasing(rows: Seq<TreeRow>) -> bool {
    forall|i: int, j: int| 0 <= i < j < rows.len()
        ==> (#[trigger] rows[i]).index < (#[trigger] rows[j]).index
}

/// Filtering keeps the rows' source indexes strictly ascending.
pub proof fn lemma_filter_rows_increasing(rows: Seq<TreeRow>, keep: Seq<bool>)
    requires
        rows_increasing(rows),
    ensures
        rows_increasing(filter_rows(rows, keep)),
        filter_rows(rows, keep).len() > 0 ==> filter_rows(rows, keep).last().index
            <= rows.last().index,
    decreases rows,
{
    if rows.len() > 0 {
        let dl = rows.drop_last();
        assert(forall|i: int| 0 <= i < dl.len() ==> dl[i] == #[trigger] rows[i]);
        lemma_filter_rows_increasing(dl, keep);
        let prev = filter_rows(dl, keep);
        if row_kept(rows.last(), keep) {
            let whole = prev.push(rows.last());
            assert forall|i: int, j: int| 0 <= i < j < whole.len()
                implies (#[trigger] whole[i]).index < (#[trigger] whole[j]).index by {
                if j < whole.len() - 1 {
                } else if prev.len() > 0 && i < prev.len() {
                    assert(whole[i] == prev[i]);
                    assert(whole[j] == rows.last());
                    if prev.len() > 0 {
                        assert(prev.last().index <= dl.last().index);
                        assert(prev[i].index <= prev.last().index) by {
                            if i < prev.len() - 1 {
                                assert(prev[i].index < prev[prev.len() - 1].index);
                            }
                        }
                        assert(dl.last() == rows[rows.len() - 2]);
                        assert(dl.last().index < rows.last().index);
                    }
                }
            }
        }
    }
}

} // verus!
