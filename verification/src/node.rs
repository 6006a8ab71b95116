//! The value model: the tagged node type and its mathematical view.

use vstd::prelude::*;

verus! {

/// The universal value type of a parameter document.
///
/// `List` and `Struct` are the composite (navigable) variants; every
/// other variant is a terminal (editable in place).  A `Struct` keeps
/// its entries in document order; keys need not be unique and entries
/// are addressed by position.  `Float` carries the raw bit pattern of a
/// 32-bit IEEE value: the engine never interprets it numerically.
pub enum ParamNode {
    Bool(bool),
    I8(i8),
    U8(u8),
    I16(i16),
    U16(u16),
    I32(i32),
    U32(u32),
    Float(u32),
    Hash(u64),
    Str(String),
    List(Vec<ParamNode>),
    Struct(Vec<(u64, ParamNode)>),
}

/// The mathematical value of a [`ParamNode`]: the same tree with every
/// collection replaced by its abstract sequence.
#[verifier::ext_equal]
pub enum ParamVal {
    Bool(bool),
    I8(i8),
    U8(u8),
    I16(i16),
    U16(u16),
    I32(i32),
    U32(u32),
    Float(u32),
    Hash(u64),
    Str(Seq<char>),
    List(Seq<ParamVal>),
    Struct(Seq<(u64, ParamVal)>),
}

/// The value of each node in a sequence of nodes.
pub open spec fn vals_of(s: Seq<ParamNode>) -> Seq<ParamVal>
    decreases s,
{
    if s.len() == 0 {
        Seq::empty()
    } else {
        vals_of(s.drop_last()).push(node_val(s.last()))
    }
}

/// The value of each entry in a sequence of keyed nodes.
pub open spec fn entry_vals_of(s: Seq<(u64, ParamNode)>) -> Seq<(u64, ParamVal)>
    decreases s,
{
    if s.len() == 0 {
        Seq::empty()
    } else {
        entry_vals_of(s.drop_last()).push((s.last().0, node_val(s.last().1)))
    }
}

/// The mathematical value of a node.
pub open spec fn node_val(n: ParamNode) -> ParamVal
    decreases n,
{
    match n {
        ParamNode::Bool(b) => ParamVal::Bool(b),
        ParamNode::I8(v) => ParamVal::I8(v),
        ParamNode::U8(v) => ParamVal::U8(v),
        ParamNode::I16(v) => ParamVal::I16(v),
        ParamNode::U16(v) => ParamVal::U16(v),
        ParamNode::I32(v) => ParamVal::I32(v),
        ParamNode::U32(v) => ParamVal::U32(v),
        ParamNode::Float(v) => ParamVal::Float(v),
        ParamNode::Hash(v) => ParamVal::Hash(v),
        ParamNode::Str(s) => ParamVal::Str(s@),
        ParamNode::List(cs) => ParamVal::List(vals_of(cs@)),
        ParamNode::Struct(es) => ParamVal::Struct(entry_vals_of(es@)),
    }
}

impl View for ParamNode {
    type V = ParamVal;

    open spec fn view(&self) -> ParamVal {
        node_val(*self)
    }
}

impl ParamNode {
    /// Whether the node is a composite (navigable) value.
    pub fn is_composite(&self) -> (r: bool)
        ensures
            r == self@.is_composite(),
    {
        match self {
            ParamNode::List(_) => true,
            ParamNode::Struct(_) => true,
            _ => false,
        }
    }
}

impl ParamVal {
    /// Whether the value is a composite (a list or a struct).
    pub open spec fn is_composite(self) -> bool {
        self is List || self is Struct
    }
}

/// The length and entries of `vals_of` follow the underlying sequence.
pub broadcast proof fn lemma_vals_of_len(s: Seq<ParamNode>)
    ensures
        #[trigger] vals_of(s).len() == s.len(),
    decreases s,
{
    if s.len() > 0 {
        lemma_vals_of_len(s.drop_last());
    }
}

pub broadcast proof fn lemma_vals_of_index(s: Seq<ParamNode>, i: int)
    requires
        0 <= i < s.len(),
    ensures
        vals_of(s).len() == s.len(),
        #[trigger] vals_of(s)[i] == node_val(s[i]),
    decreases s,
{
    lemma_vals_of_len(s);
    if i < s.len() - 1 {
        lemma_vals_of_index(s.drop_last(), i);
    }
}

pub broadcast proof fn lemma_entry_vals_of_len(s: Seq<(u64, ParamNode)>)
    ensures
        #[trigger] entry_vals_of(s).len() == s.len(),
    decreases s,
{
    if s.len() > 0 {
        lemma_entry_vals_of_len(s.drop_last());
    }
}

pub broadcast proof fn lemma_entry_vals_of_index(s: Seq<(u64, ParamNode)>, i: int)
    requires
        0 <= i < s.len(),
    ensures
        entry_vals_of(s).len() == s.len(),
        #[trigger] entry_vals_of(s)[i] == (s[i].0, node_val(s[i].1)),
    decreases s,
{
    lemma_entry_vals_of_len(s);
    if i < s.len() - 1 {
        lemma_entry_vals_of_index(s.drop_last(), i);
    }
}

} // verus!
verus! {

/// The type tag of a node: one of the twelve variant names.
#[derive(Debug, Clone, Copy, PartialEq, Eq, Structural)]
pub enum RowKind {
    Bool,
    I8,
    U8,
    I16,
    U16,
    I32,
    U32,
    Float,
    Hash,
    Str,
    List,
    Struct,
}

/// The type tag of a value.
pub open spec fn kind_of(v: ParamVal) -> RowKind {
    match v {
        ParamVal::Bool(_) => RowKind::Bool,
        ParamVal::I8(_) => RowKind::I8,
        ParamVal::U8(_) => RowKind::U8,
        ParamVal::I16(_) => RowKind::I16,
        ParamVal::U16(_) => RowKind::U16,
        ParamVal::I32(_) => RowKind::I32,
        ParamVal::U32(_) => RowKind::U32,
        ParamVal::Float(_) => RowKind::Float,
        ParamVal::Hash(_) => RowKind::Hash,
        ParamVal::Str(_) => RowKind::Str,
        ParamVal::List(_) => RowKind::List,
        ParamVal::Struct(_) => RowKind::Struct,
    }
}

impl RowKind {
    /// The display text of the tag.
    pub open spec fn text(self) -> Seq<char> {
        match self {
            RowKind::Bool => "bool"@,
            RowKind::I8 => "i8"@,
            RowKind::U8 => "u8"@,
            RowKind::I16 => "i16"@,
            RowKind::U16 => "u16"@,
            RowKind::I32 => "i32"@,
            RowKind::U32 => "u32"@,
            RowKind::Float => "f32"@,
            RowKind::Hash => "hash"@,
            RowKind::Str => "string"@,
            RowKind::List => "list"@,
            RowKind::Struct => "struct"@,
        }
    }

    /// The tag of a node.
    pub fn from_param(param: &ParamNode) -> (r: RowKind)
        ensures
            r == kind_of(param@),
    {
        match param {
            ParamNode::Bool(_) => RowKind::Bool,
            ParamNode::I8(_) => RowKind::I8,
            ParamNode::U8(_) => RowKind::U8,
            ParamNode::I16(_) => RowKind::I16,
            ParamNode::U16(_) => RowKind::U16,
            ParamNode::I32(_) => RowKind::I32,
            ParamNode::U32(_) => RowKind::U32,
            ParamNode::Float(_) => RowKind::Float,
            ParamNode::Hash(_) => RowKind::Hash,
            ParamNode::Str(_) => RowKind::Str,
            ParamNode::List(_) => RowKind::List,
            ParamNode::Struct(_) => RowKind::Struct,
        }
    }

    /// The display text of the tag.
    pub fn as_str(&self) -> (r: &'static str)
        ensures
            r@ == self.text(),
    {
        match self {
            RowKind::Bool => "bool",
            RowKind::I8 => "i8",
            RowKind::U8 => "u8",
            RowKind::I16 => "i16",
            RowKind::U16 => "u16",
            RowKind::I32 => "i32",
            RowKind::U32 => "u32",
            RowKind::Float => "f32",
            RowKind::Hash => "hash",
            RowKind::Str => "string",
            RowKind::List => "list",
            RowKind::Struct => "struct",
        }
    }

    /// Whether the tag is one of the numeric types.
    pub fn is_number(&self) -> (r: bool)
        ensures
            r == self.spec_is_number(),
    {
        matches!(self,
            RowKind::I8 | RowKind::U8 | RowKind::I16 | RowKind::U16
            | RowKind::I32 | RowKind::U32 | RowKind::Float)
    }

    pub open spec fn spec_is_number(self) -> bool {
        self is I8 || self is U8 || self is I16 || self is U16
            || self is I32 || self is U32 || self is Float
    }

    /// Whether the tag supports the increment and decrement shortcuts.
    pub fn is_incremental(&self) -> (r: bool)
        ensures
            r == self.spec_is_incremental(),
    {
        if matches!(self, RowKind::Bool) {
            true
        } else {
            self.is_number()
        }
    }

    pub open spec fn spec_is_incremental(self) -> bool {
        self is Bool || self.spec_is_number()
    }

    /// Whether the tag is a composite (navigable) type.
    pub open spec fn spec_is_parent(self) -> bool {
        self is List || self is Struct
    }
}

/// A composite node made navigable: the payload a level of the editor
/// owns while the user is inside it.
pub enum ParamParent {
    List(Vec<ParamNode>),
    Struct(Vec<(u64, ParamNode)>),
}

/// The position of a child within its parent: a sequence index for a
/// list, a 40-bit key for a struct.
#[derive(Debug, Clone, Copy)]
pub enum ParentIndex {
    List(usize),
    Struct(u64),
}

impl View for ParamParent {
    type V = ParamVal;

    open spec fn view(&self) -> ParamVal {
        match self {
            ParamParent::List(cs) => ParamVal::List(vals_of(cs@)),
            ParamParent::Struct(es) => ParamVal::Struct(entry_vals_of(es@)),
        }
    }
}

impl ParamVal {
    /// The number of children of a composite value.
    pub open spec fn num_children(self) -> int {
        match self {
            ParamVal::List(cs) => cs.len() as int,
            ParamVal::Struct(es) => es.len() as int,
            _ => 0,
        }
    }

    /// The `i`-th child of a composite value.
    pub open spec fn child(self, i: int) -> ParamVal {
        match self {
            ParamVal::List(cs) => cs[i],
            ParamVal::Struct(es) => es[i].1,
            _ => self,
        }
    }

    /// The key of the `i`-th child, for a struct.
    pub open spec fn key(self, i: int) -> Option<u64> {
        match self {
            ParamVal::Struct(es) => Some(es[i].0),
            _ => None,
        }
    }

    /// The same composite with child `i` replaced.
    pub open spec fn with_child(self, i: int, c: ParamVal) -> ParamVal {
        match self {
            ParamVal::List(cs) => ParamVal::List(cs.update(i, c)),
            ParamVal::Struct(es) => ParamVal::Struct(es.update(i, (es[i].0, c))),
            _ => self,
        }
    }
}

/// The empty node left in a slot while its real child is taken by a
/// deeper level.
pub open spec fn placeholder_val() -> ParamVal {
    ParamVal::List(Seq::empty())
}

impl ParamParent {
    /// The number of children.
    pub fn len(&self) -> (r: usize)
        ensures
            r == self@.num_children(),
    {
        match self {
            ParamParent::List(cs) => {
                proof {
                    lemma_vals_of_len(cs@);
                }
                cs.len()
            },
            ParamParent::Struct(es) => {
                proof {
                    lemma_entry_vals_of_len(es@);
                }
                es.len()
            },
        }
    }

    pub fn is_empty(&self) -> (r: bool)
        ensures
            r == (self@.num_children() == 0),
    {
        self.len() == 0
    }

    /// A reference to the `n`-th child.
    pub fn nth(&self, n: usize) -> (r: &ParamNode)
        requires
            n < self@.num_children(),
        ensures
            r@ == self@.child(n as int),
    {
        match self {
            ParamParent::List(cs) => {
                proof {
                    lemma_vals_of_len(cs@);
                    lemma_vals_of_index(cs@, n as int);
                }
                &cs[n]
            },
            ParamParent::Struct(es) => {
                proof {
                    lemma_entry_vals_of_len(es@);
                    lemma_entry_vals_of_index(es@, n as int);
                }
                &es[n].1
            },
        }
    }

    /// The position of the `n`-th child: its index or its key.
    pub fn index_at(&self, n: usize) -> (r: ParentIndex)
        requires
            n < self@.num_children(),
        ensures
            match r {
                ParentIndex::List(i) => self@ is List && i == n,
                ParentIndex::Struct(k) => self@ is Struct && Some(k) == self@.key(n as int),
            },
    {
        match self {
            ParamParent::List(cs) => {
                proof {
                    lemma_vals_of_len(cs@);
                }
                ParentIndex::List(n)
            },
            ParamParent::Struct(es) => {
                proof {
                    lemma_entry_vals_of_len(es@);
                    lemma_entry_vals_of_index(es@, n as int);
                }
                ParentIndex::Struct(es[n].0)
            },
        }
    }

    /// Removes the `n`-th child, leaving the empty placeholder in its
    /// slot.
    pub fn take_child(&mut self, n: usize) -> (r: ParamNode)
        requires
            n < old(self)@.num_children(),
        ensures
            r@ == old(self)@.child(n as int),
            final(self)@ == old(self)@.with_child(n as int, placeholder_val()),
    {
        match self {
            ParamParent::List(cs) => {
                let ghost orig = cs@;
                proof {
                    lemma_vals_of_len(orig);
                    lemma_vals_of_index(orig, n as int);
                }
                let child = cs.remove(n);
                let ph = ParamNode::List(Vec::new());
                cs.insert(n, ph);
                proof {
                    lemma_vals_of_update_frame(orig, n as int);
                    assert(cs@ =~= orig.update(n as int, ph));
                    assert(ph@ == placeholder_val());
                    assert(vals_of(cs@) =~= vals_of(orig).update(
                        n as int, placeholder_val()));
                }
                child
            },
            ParamParent::Struct(es) => {
                let ghost orig = es@;
                proof {
                    lemma_entry_vals_of_len(orig);
                    lemma_entry_vals_of_index(orig, n as int);
                }
                let entry = es.remove(n);
                let key = entry.0;
                let child = entry.1;
                let ph = ParamNode::List(Vec::new());
                es.insert(n, (key, ph));
                proof {
                    lemma_entry_vals_of_update_frame(orig, n as int);
                    assert(es@ =~= orig.update(n as int, (key, ph)));
                    assert(ph@ == placeholder_val());
                    assert(entry_vals_of(es@) =~= entry_vals_of(orig).update(
                        n as int, (key, placeholder_val())));
                }
                child
            },
        }
    }

    /// Puts a node into the `n`-th slot, replacing what is there.
    pub fn set_child(&mut self, n: usize, node: ParamNode)
        requires
            n < old(self)@.num_children(),
        ensures
            final(self)@ == old(self)@.with_child(n as int, node@),
    {
        match self {
            ParamParent::List(cs) => {
                let ghost orig = cs@;
                proof {
                    lemma_vals_of_len(orig);
                    lemma_vals_of_index(orig, n as int);
                }
                cs.remove(n);
                cs.insert(n, node);
                proof {
                    lemma_vals_of_update_frame(orig, n as int);
                    assert(cs@ =~= orig.update(n as int, node));
                    assert(vals_of(cs@) =~= vals_of(orig).update(n as int, node@));
                }
            },
            ParamParent::Struct(es) => {
                let ghost orig = es@;
                proof {
                    lemma_entry_vals_of_len(orig);
                    lemma_entry_vals_of_index(orig, n as int);
                }
                let key = es[n].0;
                es.remove(n);
                es.insert(n, (key, node));
                proof {
                    lemma_entry_vals_of_update_frame(orig, n as int);
                    assert(es@ =~= orig.update(n as int, (key, node)));
                    assert(entry_vals_of(es@) =~= entry_vals_of(orig).update(
                        n as int, (key, node@)));
                }
            },
        }
    }
}

/// Updating one element of a sequence updates exactly that element of
/// its value sequence.
pub proof fn lemma_vals_of_update_frame(s: Seq<ParamNode>, n: int)
    requires
        0 <= n < s.len(),
    ensures
        forall|t: Seq<ParamNode>|
            t.len() == s.len()
            && (forall|i: int| 0 <= i < s.len() && i != n ==> t[i] == #[trigger] s[i])
            ==> #[trigger] vals_of(t) =~= vals_of(s).update(n, node_val(t[n])),
{
    assert forall|t: Seq<ParamNode>|
        t.len() == s.len()
        && (forall|i: int| 0 <= i < s.len() && i != n ==> t[i] == #[trigger] s[i])
        implies #[trigger] vals_of(t) =~= vals_of(s).update(n, node_val(t[n])) by {
        lemma_vals_of_len(t);
        lemma_vals_of_len(s);
        assert forall|j: int| 0 <= j < s.len()
            implies vals_of(t)[j] == vals_of(s).update(n, node_val(t[n]))[j] by {
            lemma_vals_of_index(t, j);
            lemma_vals_of_index(s, j);
        }
    }
}

pub proof fn lemma_entry_vals_of_update_frame(s: Seq<(u64, ParamNode)>, n: int)
    requires
        0 <= n < s.len(),
    ensures
        forall|t: Seq<(u64, ParamNode)>|
            t.len() == s.len()
            && (forall|i: int| 0 <= i < s.len() && i != n ==> t[i] == #[trigger] s[i])
            ==> #[trigger] entry_vals_of(t) =~= entry_vals_of(s).update(
                n, (t[n].0, node_val(t[n].1))),
{
    assert forall|t: Seq<(u64, ParamNode)>|
        t.len() == s.len()
        && (forall|i: int| 0 <= i < s.len() && i != n ==> t[i] == #[trigger] s[i])
        implies #[trigger] entry_vals_of(t) =~= entry_vals_of(s).update(
            n, (t[n].0, node_val(t[n].1))) by {
        lemma_entry_vals_of_len(t);
        lemma_entry_vals_of_len(s);
        assert forall|j: int| 0 <= j < s.len()
            implies entry_vals_of(t)[j] == entry_vals_of(s).update(
                n, (t[n].0, node_val(t[n].1)))[j] by {
            lemma_entry_vals_of_index(t, j);
            lemma_entry_vals_of_index(s, j);
        }
    }
}

} // verus!
verus! {

broadcast use vstd::std_specs::vec::group_vec_axioms;

impl ParamNode {
    /// The number of children (zero for a terminal).
    pub fn child_count(&self) -> (r: usize)
        ensures
            r == self@.num_children(),
    {
        match self {
            ParamNode::List(cs) => {
                proof {
                    lemma_vals_of_len(cs@);
                }
                cs.len()
            },
            ParamNode::Struct(es) => {
                proof {
                    lemma_entry_vals_of_len(es@);
                }
                es.len()
            },
            _ => 0,
        }
    }

    /// A deep copy of the tree.
    pub fn duplicate(&self) -> (r: ParamNode)
        ensures
            r@ == self@,
        decreases *self,
    {
        match self {
            ParamNode::Bool(v) => ParamNode::Bool(*v),
            ParamNode::I8(v) => ParamNode::I8(*v),
            ParamNode::U8(v) => ParamNode::U8(*v),
            ParamNode::I16(v) => ParamNode::I16(*v),
            ParamNode::U16(v) => ParamNode::U16(*v),
            ParamNode::I32(v) => ParamNode::I32(*v),
            ParamNode::U32(v) => ParamNode::U32(*v),
            ParamNode::Float(v) => ParamNode::Float(*v),
            ParamNode::Hash(v) => ParamNode::Hash(*v),
            ParamNode::Str(s) => ParamNode::Str(s.clone()),
            ParamNode::List(cs) => {
                let n = cs.len();
                let mut v: Vec<ParamNode> = Vec::new();
                let mut i: usize = 0;
                while i < n
                    invariant
                        0 <= i <= n,
                        n == cs@.len(),
                        *self == ParamNode::List(*cs),
                        v@.len() == i,
                        forall|j: int| 0 <= j < i ==> (#[trigger] v@[j])@ == cs@[j]@,
                    decreases n - i,
                {
                    proof {
                        assert(decreases_to!(*self => cs@[i as int])) by {
                            assert(decreases_to!(*self => (*self)->List_0));
                            assert(decreases_to!((*self)->List_0 => (*self)->List_0@));
                            assert(decreases_to!((*self)->List_0@ => (*self)->List_0@[i as int]));
                        }
                    }
                    let c = cs[i].duplicate();
                    v.push(c);
                    i = i + 1;
                }
                proof {
                    lemma_vals_of_len(v@);
                    lemma_vals_of_len(cs@);
                    assert forall|j: int| 0 <= j < n
                        implies vals_of(v@)[j] == vals_of(cs@)[j] by {
                        lemma_vals_of_index(v@, j);
                        lemma_vals_of_index(cs@, j);
                    }
                    assert(vals_of(v@) =~= vals_of(cs@));
                }
                ParamNode::List(v)
            },
            ParamNode::Struct(es) => {
                let n = es.len();
                let mut v: Vec<(u64, ParamNode)> = Vec::new();
                let mut i: usize = 0;
                while i < n
                    invariant
                        0 <= i <= n,
                        n == es@.len(),
                        *self == ParamNode::Struct(*es),
                        v@.len() == i,
                        forall|j: int| 0 <= j < i ==> (#[trigger] v@[j]).0 == es@[j].0
                            && v@[j].1@ == es@[j].1@,
                    decreases n - i,
                {
                    proof {
                        assert(decreases_to!(*self => es@[i as int].1)) by {
                            assert(decreases_to!(*self => (*self)->Struct_0));
                            assert(decreases_to!((*self)->Struct_0 => (*self)->Struct_0@));
                            assert(decreases_to!((*self)->Struct_0@ => (*self)->Struct_0@[i as int]));
                            assert(decreases_to!((*self)->Struct_0@[i as int] => (*self)->Struct_0@[i as int].1));
                        }
                    }
                    let key = es[i].0;
                    let c = es[i].1.duplicate();
                    v.push((key, c));
                    i = i + 1;
                }
                proof {
                    lemma_entry_vals_of_len(v@);
                    lemma_entry_vals_of_len(es@);
                    assert forall|j: int| 0 <= j < n
                        implies entry_vals_of(v@)[j] == entry_vals_of(es@)[j] by {
                        lemma_entry_vals_of_index(v@, j);
                        lemma_entry_vals_of_index(es@, j);
                    }
                    assert(entry_vals_of(v@) =~= entry_vals_of(es@));
                }
                ParamNode::Struct(v)
            },
        }
    }
}

/// The type tag of a node, read off the node itself.
pub open spec fn node_kind(n: ParamNode) -> RowKind {
    match n {
        ParamNode::Bool(_) => RowKind::Bool,
        ParamNode::I8(_) => RowKind::I8,
        ParamNode::U8(_) => RowKind::U8,
        ParamNode::I16(_) => RowKind::I16,
        ParamNode::U16(_) => RowKind::U16,
        ParamNode::I32(_) => RowKind::I32,
        ParamNode::U32(_) => RowKind::U32,
        ParamNode::Float(_) => RowKind::Float,
        ParamNode::Hash(_) => RowKind::Hash,
        ParamNode::Str(_) => RowKind::Str,
        ParamNode::List(_) => RowKind::List,
        ParamNode::Struct(_) => RowKind::Struct,
    }
}

/// A node's tag and its value's tag agree.
pub proof fn lemma_node_kind_agrees(n: ParamNode)
    ensures
        kind_of(node_val(n)) == node_kind(n),
{
}

/// Whether two trees denote the same value.
#[verifier::rlimit(50)]
pub fn node_eq(a: &ParamNode, b: &ParamNode) -> (r: bool)
    ensures
        r == (a@ == b@),
    decreases *a,
{
    match (a, b) {
        (ParamNode::Bool(x), ParamNode::Bool(y)) => x == y,
        (ParamNode::I8(x), ParamNode::I8(y)) => x == y,
        (ParamNode::U8(x), ParamNode::U8(y)) => x == y,
        (ParamNode::I16(x), ParamNode::I16(y)) => x == y,
        (ParamNode::U16(x), ParamNode::U16(y)) => x == y,
        (ParamNode::I32(x), ParamNode::I32(y)) => x == y,
        (ParamNode::U32(x), ParamNode::U32(y)) => x == y,
        (ParamNode::Float(x), ParamNode::Float(y)) => x == y,
        (ParamNode::Hash(x), ParamNode::Hash(y)) => x == y,
        (ParamNode::Str(x), ParamNode::Str(y)) => *x == *y,
        (ParamNode::List(xs), ParamNode::List(ys)) => {
            proof {
                lemma_vals_of_len(xs@);
                lemma_vals_of_len(ys@);
            }
            let n = xs.len();
            if n != ys.len() {
                return false;
            }
            let mut i: usize = 0;
            while i < n
                invariant
                    0 <= i <= n,
                    n == xs@.len() == ys@.len(),
                    *a == ParamNode::List(*xs),
                    *b == ParamNode::List(*ys),
                    forall|j: int| 0 <= j < i ==> (#[trigger] xs@[j])@ == ys@[j]@,
                decreases n - i,
            {
                proof {
                    assert(decreases_to!(*a => xs@[i as int])) by {
                        assert(decreases_to!(*a => (*a)->List_0));
                        assert(decreases_to!((*a)->List_0 => (*a)->List_0@));
                        assert(decreases_to!((*a)->List_0@ => (*a)->List_0@[i as int]));
                    }
                }
                if !node_eq(&xs[i], &ys[i]) {
                    proof {
                        lemma_vals_of_index(xs@, i as int);
                        lemma_vals_of_index(ys@, i as int);
                    }
                    return false;
                }
                i = i + 1;
            }
            proof {
                assert forall|j: int| 0 <= j < n
                    implies vals_of(xs@)[j] == vals_of(ys@)[j] by {
                    lemma_vals_of_index(xs@, j);
                    lemma_vals_of_index(ys@, j);
                }
                assert(vals_of(xs@) =~= vals_of(ys@));
            }
            true
        },
        (ParamNode::Struct(xs), ParamNode::Struct(ys)) => {
            proof {
                lemma_entry_vals_of_len(xs@);
                lemma_entry_vals_of_len(ys@);
            }
            let n = xs.len();
            if n != ys.len() {
                return false;
            }
            let mut i: usize = 0;
            while i < n
                invariant
                    0 <= i <= n,
                    n == xs@.len() == ys@.len(),
                    *a == ParamNode::Struct(*xs),
                    *b == ParamNode::Struct(*ys),
                    forall|j: int| 0 <= j < i ==> (#[trigger] xs@[j]).0 == ys@[j].0
                        && xs@[j].1@ == ys@[j].1@,
                decreases n - i,
            {
                proof {
                    assert(decreases_to!(*a => xs@[i as int].1)) by {
                        assert(decreases_to!(*a => (*a)->Struct_0));
                        assert(decreases_to!((*a)->Struct_0 => (*a)->Struct_0@));
                        assert(decreases_to!((*a)->Struct_0@ => (*a)->Struct_0@[i as int]));
                        assert(decreases_to!((*a)->Struct_0@[i as int] => (*a)->Struct_0@[i as int].1));
                    }
                }
                if xs[i].0 != ys[i].0 {
                    proof {
                        lemma_entry_vals_of_index(xs@, i as int);
                        lemma_entry_vals_of_index(ys@, i as int);
                    }
                    return false;
                }
                if !node_eq(&xs[i].1, &ys[i].1) {
                    proof {
                        lemma_entry_vals_of_index(xs@, i as int);
                        lemma_entry_vals_of_index(ys@, i as int);
                    }
                    return false;
                }
                i = i + 1;
            }
            proof {
                assert forall|j: int| 0 <= j < n
                    implies entry_vals_of(xs@)[j] == entry_vals_of(ys@)[j] by {
                    lemma_entry_vals_of_index(xs@, j);
                    lemma_entry_vals_of_index(ys@, j);
                }
                assert(entry_vals_of(xs@) =~= entry_vals_of(ys@));
            }
            true
        },
        _ => {
            proof {
                lemma_node_kind_agrees(*a);
                lemma_node_kind_agrees(*b);
                assert(node_kind(*a) != node_kind(*b));
            }
            false
        },
    }
}

impl ParamParent {
    /// Wraps a composite node as a navigable level payload.
    pub fn of_node(node: ParamNode) -> (r: Option<ParamParent>)
        ensures
            match r {
                Some(p) => node@.is_composite() && p@ == node@,
                None => !node@.is_composite(),
            },
    {
        match node {
            ParamNode::List(cs) => Some(ParamParent::List(cs)),
            ParamNode::Struct(es) => Some(ParamParent::Struct(es)),
            _ => None,
        }
    }

    /// Unwraps the payload back into a node.
    pub fn into_node(self) -> (r: ParamNode)
        ensures
            r@ == self@,
    {
        match self {
            ParamParent::List(cs) => ParamNode::List(cs),
            ParamParent::Struct(es) => ParamNode::Struct(es),
        }
    }
}

} // verus!
verus! {

impl ParamVal {
    /// Replacing a child and then replacing it again keeps only the
    /// second replacement.
    pub proof fn lemma_with_child_twice(self, i: int, a: ParamVal, b: ParamVal)
        requires
            self.is_composite(),
            0 <= i < self.num_children(),
        ensures
            self.with_child(i, a).with_child(i, b) == self.with_child(i, b),
    {
        match self {
            ParamVal::List(cs) => {
                assert(cs.update(i, a).update(i, b) =~= cs.update(i, b));
            },
            ParamVal::Struct(es) => {
                assert(es.update(i, (es[i].0, a)).update(i, (es[i].0, b)) =~= es.update(
                    i, (es[i].0, b)));
            },
            _ => {},
        }
    }

    /// Putting a child's own value back into its slot changes nothing.
    pub proof fn lemma_with_child_self(self, i: int)
        requires
            self.is_composite(),
            0 <= i < self.num_children(),
        ensures
            self.with_child(i, self.child(i)) == self,
    {
        match self {
            ParamVal::List(cs) => {
                assert(cs.update(i, cs[i]) =~= cs);
            },
            ParamVal::Struct(es) => {
                assert(es.update(i, (es[i].0, es[i].1)) =~= es) by {
                    assert(forall|j: int| 0 <= j < es.len() && j != i
                        ==> es.update(i, (es[i].0, es[i].1))[j] == #[trigger] es[j]);
                    assert(es.update(i, (es[i].0, es[i].1))[i] == (es[i].0, es[i].1));
                }
            },
            _ => {},
        }
    }

    /// Replacing a child keeps the child count, the other children,
    /// and every key.
    pub proof fn lemma_with_child_frame(self, i: int, c: ParamVal)
        requires
            self.is_composite(),
            0 <= i < self.num_children(),
        ensures
            self.with_child(i, c).is_composite(),
            self.with_child(i, c) is List <==> self is List,
            self.with_child(i, c).num_children() == self.num_children(),
            self.with_child(i, c).child(i) == c,
            forall|j: int| 0 <= j < self.num_children() && j != i
                ==> self.with_child(i, c).child(j) == self.child(j),
            forall|j: int| 0 <= j < self.num_children()
                ==> self.with_child(i, c).key(j) == self.key(j),
    {
    }
}

} // verus!
verus! {

impl ParamParent {
    /// A deep copy of the payload.
    pub fn duplicate(&self) -> (r: ParamParent)
        ensures
            r@ == self@,
    {
        match self {
            ParamParent::List(cs) => {
                let n = cs.len();
                let mut v: Vec<ParamNode> = Vec::new();
                let mut i: usize = 0;
                while i < n
                    invariant
                        0 <= i <= n,
                        n == cs@.len(),
                        v@.len() == i,
                        forall|j: int| 0 <= j < i ==> (#[trigger] v@[j])@ == cs@[j]@,
                    decreases n - i,
                {
                    let c = cs[i].duplicate();
                    v.push(c);
                    i = i + 1;
                }
                proof {
                    lemma_vals_of_len(v@);
                    lemma_vals_of_len(cs@);
                    assert forall|j: int| 0 <= j < n
                        implies vals_of(v@)[j] == vals_of(cs@)[j] by {
                        lemma_vals_of_index(v@, j);
                        lemma_vals_of_index(cs@, j);
                    }
                    assert(vals_of(v@) =~= vals_of(cs@));
                }
                ParamParent::List(v)
            },
            ParamParent::Struct(es) => {
                let n = es.len();
                let mut v: Vec<(u64, ParamNode)> = Vec::new();
                let mut i: usize = 0;
                while i < n
                    invariant
                        0 <= i <= n,
                        n == es@.len(),
                        v@.len() == i,
                        forall|j: int| 0 <= j < i ==> (#[trigger] v@[j]).0 == es@[j].0
                            && v@[j].1@ == es@[j].1@,
                    decreases n - i,
                {
                    let key = es[i].0;
                    let c = es[i].1.duplicate();
                    v.push((key, c));
                    i = i + 1;
                }
                proof {
                    lemma_entry_vals_of_len(v@);
                    lemma_entry_vals_of_len(es@);
                    assert forall|j: int| 0 <= j < n
                        implies entry_vals_of(v@)[j] == entry_vals_of(es@)[j] by {
                        lemma_entry_vals_of_index(v@, j);
                        lemma_entry_vals_of_index(es@, j);
                    }
                    assert(entry_vals_of(v@) =~= entry_vals_of(es@));
                }
                ParamParent::Struct(v)
            },
        }
    }
}

} // verus!
