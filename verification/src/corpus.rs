//! The label corpus: the sorted set of known human-readable names for
//! hash keys, with prefix search for autocomplete.

use vstd::prelude::*;
use crate::input::KeyCode;
use crate::text::{
    chars_eq_str, has_prefix, lex_le, lex_lt, lemma_lex_antisym, lemma_lex_total,
    lemma_lex_trans, str_lex_le,
};

verus! {

/// The known labels, in strictly ascending lexicographic order, each
/// with the 40-bit hash it names.  Populated once at startup and read
/// thereafter.
pub struct LabelCorpus {
    pub hashes: Vec<u64>,
    pub labels: Vec<String>,
}

impl LabelCorpus {
    /// The labels as character sequences.
    pub open spec fn lv(self) -> Seq<Seq<char>> {
        self.labels@.map_values(|l: String| l@)
    }

    /// Well-formed: one 40-bit hash per label, labels strictly
    /// ascending (so no label occurs twice).
    pub open spec fn wf(self) -> bool {
        &&& self.hashes@.len() == self.labels@.len()
        &&& forall|i: int| 0 <= i < self.hashes@.len()
            ==> #[trigger] self.hashes@[i] < 0x100_0000_0000
        &&& forall|i: int, j: int|
            0 <= i < j < self.lv().len() ==> lex_lt(#[trigger] self.lv()[i], #[trigger] self.lv()[j])
    }

    /// Whether some entry carries this label.
    pub open spec fn has_label(self, l: Seq<char>) -> bool {
        exists|i: int| 0 <= i < self.lv().len() && self.lv()[i] == l
    }

    /// Whether some entry maps this label to this hash.
    pub open spec fn maps(self, l: Seq<char>, h: u64) -> bool {
        exists|i: int|
            0 <= i < self.lv().len() && self.lv()[i] == l && self.hashes@[i] == h
    }

    pub fn new() -> (r: LabelCorpus)
        ensures
            r.wf(),
            r.lv().len() == 0,
    {
        LabelCorpus { hashes: Vec::new(), labels: Vec::new() }
    }

    pub fn len(&self) -> (r: usize)
        requires
            self.wf(),
        ensures
            r == self.lv().len(),
    {
        self.labels.len()
    }

    /// Adds one label.  A label already present keeps its original
    /// hash; a new one is placed so that the order stays ascending.
    pub fn insert(&mut self, hash: u64, label: String)
        requires
            old(self).wf(),
            hash < 0x100_0000_0000,
        ensures
            final(self).wf(),
            final(self).has_label(label@),
            old(self).has_label(label@) ==> *final(self) == *old(self),
            !old(self).has_label(label@) ==> final(self).maps(label@, hash),
            forall|l: Seq<char>, h: u64|
                old(self).maps(l, h) ==> #[trigger] final(self).maps(l, h),
            forall|l: Seq<char>, h: u64|
                #[trigger] final(self).maps(l, h) ==> old(self).maps(l, h)
                    || (l == label@ && h == hash),
    {
        let n = self.labels.len();
        let mut pos: usize = 0;
        while pos < n && !str_lex_le(label.as_str(), self.labels[pos].as_str())
            invariant
                0 <= pos <= n,
                n == self.labels@.len(),
                *self == *old(self),
                self.wf(),
                forall|i: int| 0 <= i < pos ==> lex_lt(#[trigger] self.lv()[i], label@),
            decreases n - pos,
        {
            proof {
                lemma_lex_total(label@, self.lv()[pos as int]);
                if self.lv()[pos as int] == label@ {
                    assert(lex_le(label@, self.lv()[pos as int]));
                }
            }
            pos = pos + 1;
        }
        if pos < n {
            if self.labels[pos] == label {
                proof {
                    assert(self.lv()[pos as int] == label@);
                }
                return;
            }
        }
        proof {
            if pos < n {
                assert(lex_le(label@, self.lv()[pos as int]));
                assert(self.lv()[pos as int] != label@);
            }
            // the label is nowhere in the corpus
            assert forall|i: int| 0 <= i < n implies self.lv()[i] != label@ by {
                if i < pos {
                } else if i == pos {
                } else if pos < n {
                    assert(lex_lt(self.lv()[pos as int], self.lv()[i]));
                    if self.lv()[i] == label@ {
                        assert(lex_le(label@, self.lv()[pos as int]));
                        assert(lex_le(self.lv()[pos as int], label@));
                        lemma_lex_antisym(label@, self.lv()[pos as int]);
                    }
                }
            }
        }
        let ghost oldc = *self;
        self.hashes.insert(pos, hash);
        self.labels.insert(pos, label);
        proof {
            let p = pos as int;
            let lvn = self.lv();
            let lvo = oldc.lv();
            assert(self.labels@ == oldc.labels@.insert(p, label));
            assert(lvn.len() == lvo.len() + 1);
            assert(forall|i: int| 0 <= i < p ==> lvn[i] == #[trigger] lvo[i]);
            assert(lvn[p] == label@);
            assert(forall|i: int| p < i < lvn.len() ==> lvn[i] == #[trigger] lvo[i - 1]);
            assert forall|i: int, j: int| 0 <= i < j < lvn.len()
                implies lex_lt(#[trigger] lvn[i], #[trigger] lvn[j]) by {
                if i < p && j < p {
                    assert(lvn[i] == lvo[i] && lvn[j] == lvo[j]);
                    assert(lex_lt(lvn[i], lvn[j]));
                } else if i < p && j == p {
                    assert(lvn[i] == lvo[i]);
                    assert(lex_lt(lvo[i], label@));
                    assert(lex_lt(lvn[i], lvn[j]));
                } else if i == p && j > p {
                    assert(p < lvo.len());
                    assert(lex_le(label@, lvo[p]) && lvo[p] != label@);
                    if j - 1 > p {
                        assert(lex_lt(lvo[p], lvo[j - 1]));
                        lemma_lex_trans(label@, lvo[p], lvo[j - 1]);
                        if label@ == lvo[j - 1] {
                            lemma_lex_antisym(label@, lvo[p]);
                        }
                        assert(lvn[i] == label@ && lvn[j] == lvo[j - 1]);
                        assert(lex_lt(lvn[i], lvn[j]));
                    } else {
                        assert(j - 1 == p);
                        assert(lvn[i] == label@ && lvn[j] == lvo[p]);
                        assert(lex_lt(lvn[i], lvn[j]));
                    }
                } else if i < p && j > p {
                    assert(lvn[i] == lvo[i] && lvn[j] == lvo[j - 1]);
                    assert(i < j - 1);
                    assert(lex_lt(lvn[i], lvn[j]));
                } else {
                    assert(i > p && j > p);
                    assert(lvn[i] == lvo[i - 1] && lvn[j] == lvo[j - 1]);
                    assert(lex_lt(lvn[i], lvn[j]));
                }
            }
            assert(final(self).maps(label@, hash)) by {
                assert(lvn[p] == label@ && self.hashes@[p] == hash);
            }
            assert forall|l: Seq<char>, h: u64| oldc.maps(l, h)
                implies #[trigger] final(self).maps(l, h) by {
                let i = choose|i: int|
                    0 <= i < lvo.len() && lvo[i] == l && oldc.hashes@[i] == h;
                if i < p {
                    assert(lvn[i] == l && self.hashes@[i] == h);
                } else {
                    assert(lvn[i + 1] == l && self.hashes@[i + 1] == h);
                }
            }
            assert forall|l: Seq<char>, h: u64| #[trigger] final(self).maps(l, h)
                implies oldc.maps(l, h) || (l == label@ && h == hash) by {
                let i = choose|i: int|
                    0 <= i < lvn.len() && lvn[i] == l && self.hashes@[i] == h;
                if i < p {
                    assert(lvo[i] == l && oldc.hashes@[i] == h);
                } else if i > p {
                    assert(lvo[i - 1] == l && oldc.hashes@[i - 1] == h);
                }
            }
        }
    }

    /// Builds a corpus from a label source: pairs of hash and label.
    /// Every label of the source is present; every entry of the corpus
    /// comes from the source.  Where the source repeats a label, the
    /// first pair wins.
    pub fn from_entries(entries: &Vec<(u64, String)>) -> (r: LabelCorpus)
        requires
            forall|k: int| 0 <= k < entries@.len()
                ==> (#[trigger] entries@[k]).0 < 0x100_0000_0000,
        ensures
            r.wf(),
            forall|k: int| 0 <= k < entries@.len() ==> r.has_label(#[trigger] entries@[k].1@),
            forall|l: Seq<char>, h: u64|
                #[trigger] r.maps(l, h) ==> exists|k: int|
                    0 <= k < entries@.len() && entries@[k].1@ == l && entries@[k].0 == h,
    {
        let mut c = LabelCorpus::new();
        let n = entries.len();
        let mut k: usize = 0;
        while k < n
            invariant
                0 <= k <= n,
                n == entries@.len(),
                forall|j: int| 0 <= j < entries@.len()
                    ==> (#[trigger] entries@[j]).0 < 0x100_0000_0000,
                c.wf(),
                forall|j: int| 0 <= j < k ==> c.has_label(#[trigger] entries@[j].1@),
                forall|l: Seq<char>, h: u64|
                    #[trigger] c.maps(l, h) ==> exists|j: int|
                        0 <= j < k && entries@[j].1@ == l && entries@[j].0 == h,
            decreases n - k,
        {
            let ghost cpre = c;
            let hash = entries[k].0;
            let label = entries[k].1.clone();
            proof {
                assert(entries@[k as int].0 < 0x100_0000_0000);
            }
            c.insert(hash, label);
            proof {
                assert forall|j: int| 0 <= j < k + 1
                    implies c.has_label(#[trigger] entries@[j].1@) by {
                    if j < k {
                        let i = choose|i: int|
                            0 <= i < cpre.lv().len() && cpre.lv()[i] == entries@[j].1@;
                        assert(cpre.maps(entries@[j].1@, cpre.hashes@[i]));
                        assert(c.maps(entries@[j].1@, cpre.hashes@[i]));
                    }
                }
            }
            k = k + 1;
        }
        c
    }
}

} // verus!
verus! {

impl LabelCorpus {
    /// The first entry, scanning from position `i`, whose hash is `h`.
    pub open spec fn label_from(self, h: u64, i: int) -> Option<Seq<char>>
        decreases self.lv().len() - i,
        when 0 <= i <= self.lv().len()
    {
        if i >= self.lv().len() {
            None
        } else if self.hashes@[i] == h {
            Some(self.lv()[i])
        } else {
            self.label_from(h, i + 1)
        }
    }

    /// The label shown for a hash: the first entry with that hash.
    pub open spec fn spec_label_of(self, h: u64) -> Option<Seq<char>> {
        self.label_from(h, 0)
    }

    /// The hash a label resolves to, when the label is known.
    pub fn hash_of(&self, text: &Vec<char>) -> (r: Option<u64>)
        requires
            self.wf(),
        ensures
            match r {
                Some(h) => self.maps(text@, h) && h < 0x100_0000_0000,
                None => !self.has_label(text@),
            },
    {
        let n = self.labels.len();
        let mut i: usize = 0;
        while i < n
            invariant
                0 <= i <= n,
                n == self.labels@.len(),
                self.wf(),
                forall|j: int| 0 <= j < i ==> self.lv()[j] != text@,
            decreases n - i,
        {
            if chars_eq_str(text, self.labels[i].as_str()) {
                proof {
                    assert(self.lv()[i as int] == text@);
                }
                return Some(self.hashes[i]);
            }
            i = i + 1;
        }
        None
    }

    /// The label of a hash, when one is known: the first entry with
    /// that hash.
    pub fn label_of(&self, h: u64) -> (r: Option<String>)
        requires
            self.wf(),
        ensures
            match r {
                Some(l) => self.spec_label_of(h) == Some(l@),
                None => self.spec_label_of(h) is None,
            },
    {
        let n = self.labels.len();
        let mut i: usize = 0;
        while i < n
            invariant
                0 <= i <= n,
                n == self.labels@.len(),
                self.wf(),
                self.spec_label_of(h) == self.label_from(h, i as int),
            decreases n - i,
        {
            if self.hashes[i] == h {
                return Some(self.labels[i].clone());
            }
            i = i + 1;
        }
        None
    }

    /// The labels with prefix `p`, in corpus (ascending) order.
    pub open spec fn prefix_matches(self, p: Seq<char>) -> Seq<Seq<char>> {
        self.lv().filter(|l: Seq<char>| has_prefix(l, p))
    }

    /// Every known label with the given prefix, in ascending order,
    /// capped at `limit` entries.
    pub fn matches_prefix(&self, prefix: &Vec<char>, limit: usize) -> (r: Vec<String>)
        requires
            self.wf(),
        ensures
            r@.map_values(|l: String| l@) == self.prefix_matches(prefix@).take(
                if limit <= self.prefix_matches(prefix@).len() {
                    limit as int
                } else {
                    self.prefix_matches(prefix@).len() as int
                }),
    {
        broadcast use vstd::seq_lib::group_seq_lib_default;

        let ghost pred = |l: Seq<char>| has_prefix(l, prefix@);
        let ghost full = self.lv();
        let n = self.labels.len();
        let mut out: Vec<String> = Vec::new();
        let mut i: usize = 0;
        proof {
            assert(full.take(0) =~= Seq::<Seq<char>>::empty());
            reveal(Seq::filter);
        }
        while i < n && out.len() < limit
            invariant
                0 <= i <= n,
                n == self.labels@.len(),
                self.wf(),
                full == self.lv(),
                pred == (|l: Seq<char>| has_prefix(l, prefix@)),
                out@.map_values(|l: String| l@) == full.take(i as int).filter(pred),
                out@.len() <= limit,
            decreases n - i,
        {
            let ghost outpre = out@;
            let m = chars_prefix_of_str_here(prefix, &self.labels[i]);
            if m {
                out.push(self.labels[i].clone());
            }
            proof {
                let t = full.take(i as int);
                let t1 = full.take(i + 1);
                assert(t1.drop_last() =~= t);
                assert(t1.last() == full[i as int]);
                reveal(Seq::filter);
                assert(t1.filter(pred) == if pred(full[i as int]) {
                    t.filter(pred).push(full[i as int])
                } else {
                    t.filter(pred)
                });
                if m {
                    assert(out@.map_values(|l: String| l@) =~= outpre.map_values(
                        |l: String| l@).push(self.labels@[i as int]@));
                }
            }
            i = i + 1;
        }
        proof {
            let flt = full.filter(pred);
            let cap: int = if limit <= flt.len() { limit as int } else { flt.len() as int };
            if i == n {
                assert(full.take(n as int) =~= full);
                assert(out@.map_values(|l: String| l@) == flt);
                assert(out@.len() <= limit);
                assert(flt.take(cap) =~= flt);
            } else {
                assert(out@.len() == limit);
                let t = full.take(i as int);
                assert(full =~= t + full.skip(i as int));
                Seq::filter_distributes_over_add(t, full.skip(i as int), pred);
                assert(flt == t.filter(pred) + full.skip(i as int).filter(pred));
                assert(t.filter(pred).len() == limit);
                assert(cap == limit);
                assert(flt.take(cap) =~= t.filter(pred));
            }
        }
        out
    }
}

/// Whether the characters of `p` form a prefix of the label `l`.
fn chars_prefix_of_str_here(p: &Vec<char>, l: &String) -> (r: bool)
    ensures
        r == has_prefix(l@, p@),
{
    let r = crate::text::chars_prefix_of_str(p, 0, l.as_str());
    proof {
        assert(p@.skip(0) =~= p@);
    }
    r
}

} // verus!
verus! {

/// How a hash editor's text resolves: as a literal hash, as a known
/// label, as an unknown label (its derived hash is still usable), with
/// the corpus unavailable, or not at all.
#[derive(Debug, Clone, Copy, PartialEq, Eq, Structural)]
pub enum Validity {
    LabelExists(u64),
    LabelNotExists(u64),
    LabelsPoisoned(u64),
    Hash(u64),
    HashInvalid,
}

/// The number of autocomplete candidates kept at a time.
pub const MATCH_LIMIT: usize = 1000;

/// The corpus an optional reference points at, as a value.
pub open spec fn corpus_val(c: Option<&LabelCorpus>) -> Option<LabelCorpus> {
    match c {
        Some(r) => Some(*r),
        None => None,
    }
}

/// The first `limit` elements of `s`, or all of them if fewer.
pub open spec fn capped(s: Seq<Seq<char>>, limit: int) -> Seq<Seq<char>> {
    s.take(if limit <= s.len() { limit } else { s.len() as int })
}

/// The candidate labels for a buffer: labels with the buffer as
/// prefix, unless the buffer is a hash literal or no corpus is at
/// hand.
pub open spec fn spec_candidates(corpus: Option<LabelCorpus>, text: Seq<char>) -> Seq<Seq<char>> {
    match corpus {
        Some(c) => if crate::hash::has_hex_marker(text) {
            Seq::empty()
        } else {
            capped(c.prefix_matches(text), MATCH_LIMIT as int)
        },
        None => Seq::empty(),
    }
}

/// Resolves editor text to a 40-bit hash: a literal `0x..` form is
/// read as written; otherwise the text is looked up as a label, and an
/// unknown or unlookupable label still yields its derived hash.
pub fn resolve(text: &Vec<char>, corpus: Option<&LabelCorpus>) -> (r: Validity)
    requires
        corpus matches Some(c) ==> c.wf(),
    ensures
        crate::hash::has_hex_marker(text@) ==> match crate::hash::parse_hash_literal(text@) {
            Some(h) => r == Validity::Hash(h),
            None => r == Validity::HashInvalid,
        },
        !crate::hash::has_hex_marker(text@) ==> match corpus {
            Some(c) => {
                if c.has_label(text@) {
                    r matches Validity::LabelExists(h) && c.maps(text@, h)
                } else {
                    r == Validity::LabelNotExists(crate::hash::label_hash(text@))
                }
            },
            None => r == Validity::LabelsPoisoned(crate::hash::label_hash(text@)),
        },
        r matches Validity::Hash(h) ==> h < 0x100_0000_0000,
        r matches Validity::LabelExists(h) ==> h < 0x100_0000_0000,
        r matches Validity::LabelNotExists(h) ==> h < 0x100_0000_0000,
        r matches Validity::LabelsPoisoned(h) ==> h < 0x100_0000_0000,
{
    if crate::hash::starts_with_hex_marker(text) {
        match crate::hash::parse_hash(text) {
            Some(h) => Validity::Hash(h),
            None => Validity::HashInvalid,
        }
    } else {
        match corpus {
            Some(c) => match c.hash_of(text) {
                Some(h) => Validity::LabelExists(h),
                None => {
                    let s = crate::text::chars_to_string(text);
                    Validity::LabelNotExists(crate::hash::hash_of_label(s.as_str()))
                },
            },
            None => {
                let s = crate::text::chars_to_string(text);
                Validity::LabelsPoisoned(crate::hash::hash_of_label(s.as_str()))
            },
        }
    }
}

/// What the hash editor did with a key.
#[derive(Debug, Clone, Copy, PartialEq, Eq, Structural)]
pub enum HashInputResponse {
    Unhandled,
    Handled,
    Submit,
    Cancel,
}

/// The hash editing state: the buffer, the value last committed, the
/// autocomplete candidates for the buffer, and the candidate cursor.
pub struct HashInput {
    pub value: Vec<char>,
    pub return_value: u64,
    pub candidates: Vec<String>,
    pub match_num: Option<usize>,
}

impl HashInput {
    /// The candidate labels as character sequences.
    pub open spec fn cv(self) -> Seq<Seq<char>> {
        self.candidates@.map_values(|l: String| l@)
    }

    /// Recomputes the candidates for the current buffer and resets the
    /// cursor.
    fn update_matches(&mut self, corpus: Option<&LabelCorpus>)
        requires
            corpus matches Some(c) ==> c.wf(),
        ensures
            final(self).value == old(self).value,
            final(self).return_value == old(self).return_value,
            final(self).cv() == spec_candidates(corpus_val(corpus), final(self).value@),
            final(self).match_num is None,
    {
        if crate::hash::starts_with_hex_marker(&self.value) {
            self.candidates = Vec::new();
            proof {
                assert(self.cv() =~= Seq::<Seq<char>>::empty());
            }
        } else {
            match corpus {
                Some(c) => {
                    self.candidates = c.matches_prefix(&self.value, MATCH_LIMIT);
                },
                None => {
                    self.candidates = Vec::new();
                    proof {
                        assert(self.cv() =~= Seq::<Seq<char>>::empty());
                    }
                },
            }
        }
        self.match_num = None;
    }

    /// A fresh editor seeded with the textual form of `hash`: its
    /// label when the corpus knows one, else its literal form.
    pub fn new(hash: u64, corpus: Option<&LabelCorpus>) -> (r: HashInput)
        requires
            hash < 0x100_0000_0000,
            corpus matches Some(c) ==> c.wf(),
        ensures
            r.return_value == hash,
            match corpus {
                Some(c) => match c.spec_label_of(hash) {
                    Some(l) => r.value@ == l,
                    None => r.value@ == crate::hash::hash_literal(hash),
                },
                None => r.value@ == crate::hash::hash_literal(hash),
            },
            r.cv() == spec_candidates(corpus_val(corpus), r.value@),
            r.match_num is None,
    {
        let seeded: Vec<char> = match corpus {
            Some(c) => match c.label_of(hash) {
                Some(l) => crate::text::string_to_chars(l.as_str()),
                None => crate::hash::format_hash(hash),
            },
            None => crate::hash::format_hash(hash),
        };
        let mut r = HashInput {
            value: seeded,
            return_value: hash,
            candidates: Vec::new(),
            match_num: None,
        };
        r.update_matches(corpus);
        r
    }

    /// The value last committed with enter.
    pub fn value(&self) -> (r: u64)
        ensures
            r == self.return_value,
    {
        self.return_value
    }

    /// The buffer as a `String`.
    pub fn text(&self) -> (r: String)
        ensures
            r@ == self.value@,
    {
        crate::text::chars_to_string(&self.value)
    }

    /// How the current buffer resolves.
    pub fn status(&self, corpus: Option<&LabelCorpus>) -> (r: Validity)
        requires
            corpus matches Some(c) ==> c.wf(),
        ensures
            crate::hash::has_hex_marker(self.value@) ==> match crate::hash::parse_hash_literal(
                self.value@) {
                Some(h) => r == Validity::Hash(h),
                None => r == Validity::HashInvalid,
            },
            !crate::hash::has_hex_marker(self.value@) ==> match corpus {
                Some(c) => {
                    if c.has_label(self.value@) {
                        r matches Validity::LabelExists(h) && c.maps(self.value@, h)
                    } else {
                        r == Validity::LabelNotExists(crate::hash::label_hash(self.value@))
                    }
                },
                None => r == Validity::LabelsPoisoned(crate::hash::label_hash(self.value@)),
            },
            r matches Validity::Hash(h) ==> h < 0x100_0000_0000,
            r matches Validity::LabelExists(h) ==> h < 0x100_0000_0000,
            r matches Validity::LabelNotExists(h) ==> h < 0x100_0000_0000,
            r matches Validity::LabelsPoisoned(h) ==> h < 0x100_0000_0000,
    {
        resolve(&self.value, corpus)
    }

    /// Feeds one key to the editor.
    ///
    /// Typing extends or shortens the buffer, recomputing candidates
    /// and resetting the cursor; down and up move the cursor, clamped
    /// to the candidate range; tab replaces the buffer with the
    /// current candidate; enter commits the resolved hash unless the
    /// buffer is a malformed literal; escape cancels.
    pub fn handle_key(&mut self, key: KeyCode, corpus: Option<&LabelCorpus>) -> (r: HashInputResponse)
        requires
            corpus matches Some(c) ==> c.wf(),
        ensures
            match key {
                KeyCode::Char(c) => {
                    &&& r is Handled
                    &&& final(self).value@ == old(self).value@.push(c)
                    &&& final(self).cv() == spec_candidates(corpus_val(corpus), final(self).value@)
                    &&& final(self).match_num is None
                    &&& final(self).return_value == old(self).return_value
                },
                KeyCode::Backspace => {
                    &&& r is Handled
                    &&& final(self).value@ == (if old(self).value@.len() == 0 {
                        old(self).value@
                    } else {
                        old(self).value@.drop_last()
                    })
                    &&& final(self).cv() == spec_candidates(corpus_val(corpus), final(self).value@)
                    &&& final(self).match_num is None
                    &&& final(self).return_value == old(self).return_value
                },
                KeyCode::Down => {
                    &&& r is Handled
                    &&& final(self).value == old(self).value
                    &&& final(self).candidates == old(self).candidates
                    &&& final(self).return_value == old(self).return_value
                    &&& final(self).match_num == (if old(self).cv().len() == 0 {
                        Option::<usize>::None
                    } else {
                        match old(self).match_num {
                            Some(cur) => Some(
                                if cur + 1 < old(self).cv().len() { (cur + 1) as usize }
                                else { (old(self).cv().len() - 1) as usize }),
                            None => Some(0usize),
                        }
                    })
                },
                KeyCode::Up => {
                    &&& r is Handled
                    &&& final(self).value == old(self).value
                    &&& final(self).candidates == old(self).candidates
                    &&& final(self).return_value == old(self).return_value
                    &&& final(self).match_num == (if old(self).cv().len() == 0 {
                        Option::<usize>::None
                    } else {
                        match old(self).match_num {
                            Some(cur) => Some(if cur > 0 { (cur - 1) as usize } else { 0usize }),
                            None => Option::<usize>::None,
                        }
                    })
                },
                KeyCode::Tab => {
                    &&& r is Handled
                    &&& final(self).return_value == old(self).return_value
                    &&& match old(self).match_num {
                        Some(k) => {
                            if k < old(self).cv().len() {
                                final(self).value@ == old(self).cv()[k as int]
                                    && final(self).cv() == spec_candidates(
                                        corpus_val(corpus), final(self).value@)
                                    && final(self).match_num is None
                            } else {
                                *final(self) == *old(self)
                            }
                        },
                        None => *final(self) == *old(self),
                    }
                },
                KeyCode::Enter => {
                    &&& final(self).value == old(self).value
                    &&& final(self).candidates == old(self).candidates
                    &&& final(self).match_num == old(self).match_num
                    &&& if crate::hash::has_hex_marker(old(self).value@)
                            && crate::hash::parse_hash_literal(old(self).value@) is None {
                        r is Unhandled && final(self).return_value == old(self).return_value
                    } else {
                        r is Submit && resolved_hash_of(*old(self), corpus_val(corpus)) == final(
                            self).return_value && final(self).return_value < 0x100_0000_0000
                    }
                },
                KeyCode::Esc => r is Cancel && *final(self) == *old(self),
                _ => r is Unhandled && *final(self) == *old(self),
            },
    {
        match key {
            KeyCode::Char(c) => {
                self.value.push(c);
                self.update_matches(corpus);
                HashInputResponse::Handled
            },
            KeyCode::Backspace => {
                if self.value.len() > 0 {
                    self.value.pop();
                }
                self.update_matches(corpus);
                HashInputResponse::Handled
            },
            KeyCode::Down => {
                let len = self.candidates.len();
                if len == 0 {
                    self.match_num = None;
                } else {
                    match self.match_num {
                        Some(cur) => {
                            if cur < len - 1 {
                                self.match_num = Some(cur + 1);
                            } else {
                                self.match_num = Some(len - 1);
                            }
                        },
                        None => {
                            self.match_num = Some(0);
                        },
                    }
                }
                HashInputResponse::Handled
            },
            KeyCode::Up => {
                let len = self.candidates.len();
                if len == 0 {
                    self.match_num = None;
                } else {
                    match self.match_num {
                        Some(cur) => {
                            if cur > 0 {
                                self.match_num = Some(cur - 1);
                            } else {
                                self.match_num = Some(0);
                            }
                        },
                        None => {},
                    }
                }
                HashInputResponse::Handled
            },
            KeyCode::Tab => {
                match self.match_num {
                    Some(k) => {
                        if k < self.candidates.len() {
                            self.value = crate::text::string_to_chars(
                                self.candidates[k].as_str());
                            self.update_matches(corpus);
                        }
                    },
                    None => {},
                }
                HashInputResponse::Handled
            },
            KeyCode::Enter => {
                let status = self.status(corpus);
                match status {
                    Validity::Hash(h) => {
                        self.return_value = h;
                        HashInputResponse::Submit
                    },
                    Validity::LabelExists(h) => {
                        self.return_value = h;
                        HashInputResponse::Submit
                    },
                    Validity::LabelNotExists(h) => {
                        self.return_value = h;
                        HashInputResponse::Submit
                    },
                    Validity::LabelsPoisoned(h) => {
                        self.return_value = h;
                        HashInputResponse::Submit
                    },
                    Validity::HashInvalid => HashInputResponse::Unhandled,
                }
            },
            KeyCode::Esc => HashInputResponse::Cancel,
            _ => HashInputResponse::Unhandled,
        }
    }
}

/// The hash that a submitted buffer commits: the literal's value, the
/// known label's hash, or the derived hash of the text.
pub open spec fn resolved_hash_of(h: HashInput, corpus: Option<LabelCorpus>) -> u64 {
    if crate::hash::has_hex_marker(h.value@) {
        match crate::hash::parse_hash_literal(h.value@) {
            Some(v) => v,
            None => h.return_value,
        }
    } else {
        match corpus {
            Some(c) => if c.has_label(h.value@) {
                spec_corpus_hash(c, h.value@)
            } else {
                crate::hash::label_hash(h.value@)
            },
            None => crate::hash::label_hash(h.value@),
        }
    }
}

/// The hash of a label known to a well-formed corpus.
pub open spec fn spec_corpus_hash(c: LabelCorpus, l: Seq<char>) -> u64 {
    choose|h: u64| c.maps(l, h)
}

} // verus!
verus! {

/// A found label sits somewhere in the corpus.
proof fn lemma_label_from_witness(c: LabelCorpus, h: u64, i: int, l: Seq<char>)
    requires
        c.wf(),
        0 <= i <= c.lv().len(),
        c.label_from(h, i) == Some(l),
    ensures
        exists|j: int| #![auto] i <= j < c.lv().len() && c.hashes@[j] == h && c.lv()[j] == l,
    decreases c.lv().len() - i,
{
    if i < c.lv().len() {
        if c.hashes@[i] == h {
            assert(c.lv()[i] == l);
        } else {
            lemma_label_from_witness(c, h, i + 1, l);
        }
    }
}

/// Reading back the display text of a hash gives the hash again: a
/// known label maps only to it (labels are unique in a well-formed
/// corpus), and the literal form parses to it.  The one text this
/// cannot cover is a label that itself begins with the literal marker
/// `0x`, which the resolver reads as a literal instead.
pub proof fn lemma_hash_display_round_trip(c: LabelCorpus, h: u64)
    requires
        c.wf(),
        h < 0x100_0000_0000,
    ensures
        match c.spec_label_of(h) {
            Some(l) => c.has_label(l) && (!crate::hash::has_hex_marker(l)
                ==> forall|h2: u64| c.maps(l, h2) ==> h2 == h),
            None => crate::hash::parse_hash_literal(crate::hash::hash_literal(h))
                == Some(h),
        },
{
    match c.spec_label_of(h) {
        Some(l) => {
            lemma_label_from_witness(c, h, 0, l);
            let i = choose|j: int| #![auto] 0 <= j < c.lv().len() && c.hashes@[j] == h
                && c.lv()[j] == l;
            assert(c.has_label(l));
            if !crate::hash::has_hex_marker(l) {
                assert forall|h2: u64| c.maps(l, h2) implies h2 == h by {
                    let j = choose|j: int|
                        0 <= j < c.lv().len() && c.lv()[j] == l && c.hashes@[j] == h2;
                    if i < j {
                        assert(crate::text::lex_lt(c.lv()[i], c.lv()[j]));
                    } else if j < i {
                        assert(crate::text::lex_lt(c.lv()[j], c.lv()[i]));
                    }
                }
            }
        },
        None => {
            crate::hash::lemma_hash_literal_round_trip(h);
        },
    }
}

} // verus!
