//! The allocation scope: an arena of dynamic-tree nodes.
//!
//! Every node the codec touches lives in a [`Scope`] and is addressed by an
//! integer handle.  A node's children are always allocated before the node
//! itself, so every handle a node holds is smaller than the node's own handle;
//! that ordering is the arena's well-formedness and is what bounds every
//! traversal.  The arena is append-only: once allocated, a node never changes,
//! which is the immutability the decoder relies on.

use vstd::prelude::*;

verus! {

broadcast use vstd::std_specs::vec::group_vec_axioms;

/// One node of the dynamic value tree.  A number carries the exact integer
/// value of the double the engine would store (see the number model).
#[derive(Debug)]
pub enum NodeData {
    Null,
    Boolean(bool),
    Number(i128),
    Text(String),
    Array(Vec<usize>),
    Object(Vec<(String, usize)>),
}

/// The runtime kind of a dynamic node, plus the engine's missing-value
/// sentinel (the kind a lookup reports when a key or index is absent).
#[derive(Debug, Clone, Copy, PartialEq, Eq, Structural)]
pub enum NodeKind {
    Null,
    Boolean,
    Number,
    Text,
    Array,
    Object,
    Undefined,
}

impl NodeData {
    /// The runtime kind of this node.
    pub open spec fn kind(&self) -> NodeKind {
        match self {
            NodeData::Null => NodeKind::Null,
            NodeData::Boolean(_) => NodeKind::Boolean,
            NodeData::Number(_) => NodeKind::Number,
            NodeData::Text(_) => NodeKind::Text,
            NodeData::Array(_) => NodeKind::Array,
            NodeData::Object(_) => NodeKind::Object,
        }
    }

    /// Every handle this node holds is below `h`.
    pub open spec fn children_lt(&self, h: int) -> bool {
        match self {
            NodeData::Array(hs) => forall|i: int| 0 <= i < hs@.len() ==> (hs@[i] as int) < h,
            NodeData::Object(ps) => forall|i: int| 0 <= i < ps@.len() ==> (ps@[i].1 as int) < h,
            _ => true,
        }
    }
}

/// Arena well-formedness: each node's children precede it.
pub open spec fn arena_wf(a: Seq<NodeData>) -> bool {
    forall|i: int| 0 <= i < a.len() ==> (#[trigger] a[i]).children_lt(i)
}

/// The object-field lookup the engine performs: the value under the last
/// insertion of `name`, if any (later insertions shadow earlier ones).
pub open spec fn obj_lookup(ps: Seq<(String, usize)>, name: Seq<char>) -> Option<usize>
    decreases ps.len(),
{
    if ps.len() == 0 {
        None
    } else if ps.last().0@ == name {
        Some(ps.last().1)
    } else {
        obj_lookup(ps.drop_last(), name)
    }
}

/// An allocation scope owning a tree of dynamic nodes.
pub struct Scope {
    nodes: Vec<NodeData>,
}

impl View for Scope {
    type V = Seq<NodeData>;

    closed spec fn view(&self) -> Seq<NodeData> {
        self.nodes@
    }
}

impl Scope {
    /// The arena's well-formedness: children precede their parent.
    pub open spec fn wf(&self) -> bool {
        arena_wf(self@)
    }

    /// Opens a fresh, empty allocation scope.
    pub fn new() -> (s: Scope)
        ensures
            s@ == Seq::<NodeData>::empty(),
            s.wf(),
    {
        Scope { nodes: Vec::new() }
    }

    /// How many nodes this scope holds.
    pub fn len(&self) -> (n: usize)
        ensures
            n == self@.len(),
    {
        self.nodes.len()
    }

    /// Allocates a node whose children (if any) are already in the arena, and
    /// returns its handle.
    pub fn allocate(&mut self, data: NodeData) -> (h: usize)
        requires
            old(self).wf(),
            data.children_lt(old(self)@.len() as int),
        ensures
            final(self)@ == old(self)@.push(data),
            h == old(self)@.len(),
            final(self).wf(),
    {
        let h = self.nodes.len();
        self.nodes.push(data);
        proof {
            assert forall|i: int| 0 <= i < self@.len() implies (#[trigger] self@[i]).children_lt(
                i,
            ) by {
                if i < h {
                    assert(old(self)@[i].children_lt(i));
                }
            }
        }
        h
    }

    /// Reads the node under a handle.
    pub fn node(&self, h: usize) -> (d: &NodeData)
        requires
            h < self@.len(),
        ensures
            *d == self@[h as int],
    {
        &self.nodes[h]
    }

    /// Looks a field name up in an object node, yielding the handle under the
    /// last insertion of that name, or nothing: the missing-value sentinel.
    pub fn object_get(&self, obj: usize, name: &String) -> (r: Option<usize>)
        requires
            obj < self@.len(),
            self@[obj as int] is Object,
        ensures
            r == obj_lookup(self@[obj as int]->Object_0@, name@),
    {
        let ps: &Vec<(String, usize)> = match self.node(obj) {
            NodeData::Object(ps) => ps,
            _ => unreached(),
        };
        proof {
            assert(ps@ == self@[obj as int]->Object_0@);
        }
        let ghost all: Seq<(String, usize)> = ps@;
        let mut i: usize = ps.len();
        proof {
            assert(all.take(i as int) =~= all);
        }
        while i > 0
            invariant
                i <= ps@.len(),
                ps@ == all,
                obj < self@.len(),
                self@[obj as int] is Object,
                all == self@[obj as int]->Object_0@,
                obj_lookup(all, name@) == obj_lookup(all.take(i as int), name@),
            decreases i,
        {
            i = i - 1;
            proof {
                assert(all.take(i as int + 1).last() == all[i as int]);
                assert(all.take(i as int + 1).drop_last() =~= all.take(i as int));
            }
            if ps[i].0 == *name {
                proof {
                    assert(all.take(i as int + 1).len() > 0);
                    assert(all.take(i as int + 1).last().0@ == name@);
                    assert(obj_lookup(all.take(i as int + 1), name@) == Some(all[i as int].1));
                    assert(obj_lookup(all, name@) == Some(all[i as int].1));
                }
                return Some(ps[i].1);
            }
            proof {
                assert(obj_lookup(all.take(i as int + 1), name@) == obj_lookup(
                    all.take(i as int),
                    name@,
                ));
            }
        }
        proof {
            assert(all.take(0) =~= Seq::<(String, usize)>::empty());
        }
        None
    }

    /// The runtime kind of the node under a handle.
    pub fn node_kind(&self, h: usize) -> (k: NodeKind)
        requires
            h < self@.len(),
        ensures
            k == self@[h as int].kind(),
    {
        match self.node(h) {
            NodeData::Null => NodeKind::Null,
            NodeData::Boolean(_) => NodeKind::Boolean,
            NodeData::Number(_) => NodeKind::Number,
            NodeData::Text(_) => NodeKind::Text,
            NodeData::Array(_) => NodeKind::Array,
            NodeData::Object(_) => NodeKind::Object,
        }
    }

    /// The value of a Boolean node.
    pub fn bool_value(&self, h: usize) -> (b: bool)
        requires
            h < self@.len(),
            self@[h as int] is Boolean,
        ensures
            b == self@[h as int]->Boolean_0,
    {
        match self.node(h) {
            NodeData::Boolean(b) => *b,
            _ => unreached(),
        }
    }

    /// The integer value of the double a Number node holds.
    pub fn number_value(&self, h: usize) -> (n: i128)
        requires
            h < self@.len(),
            self@[h as int] is Number,
        ensures
            n == self@[h as int]->Number_0,
    {
        match self.node(h) {
            NodeData::Number(n) => *n,
            _ => unreached(),
        }
    }

    /// A copy of the text a String node holds.
    pub fn text_clone(&self, h: usize) -> (s: String)
        requires
            h < self@.len(),
            self@[h as int] is Text,
        ensures
            s@ == self@[h as int]->Text_0@,
    {
        match self.node(h) {
            NodeData::Text(t) => t.clone(),
            _ => unreached(),
        }
    }

    /// How many elements an Array node holds.
    pub fn array_len(&self, h: usize) -> (n: usize)
        requires
            h < self@.len(),
            self@[h as int] is Array,
        ensures
            n == self@[h as int]->Array_0@.len(),
    {
        match self.node(h) {
            NodeData::Array(hs) => hs.len(),
            _ => unreached(),
        }
    }

    /// The handle of one element of an Array node.
    pub fn array_child(&self, h: usize, i: usize) -> (c: usize)
        requires
            h < self@.len(),
            self@[h as int] is Array,
            i < self@[h as int]->Array_0@.len(),
        ensures
            c == self@[h as int]->Array_0@[i as int],
    {
        match self.node(h) {
            NodeData::Array(hs) => hs[i],
            _ => unreached(),
        }
    }

    /// How many name-value pairs an Object node holds.
    pub fn object_len(&self, h: usize) -> (n: usize)
        requires
            h < self@.len(),
            self@[h as int] is Object,
        ensures
            n == self@[h as int]->Object_0@.len(),
    {
        match self.node(h) {
            NodeData::Object(ps) => ps.len(),
            _ => unreached(),
        }
    }

    /// A copy of the name of one field of an Object node.
    pub fn object_key_clone(&self, h: usize, i: usize) -> (s: String)
        requires
            h < self@.len(),
            self@[h as int] is Object,
            i < self@[h as int]->Object_0@.len(),
        ensures
            s@ == self@[h as int]->Object_0@[i as int].0@,
    {
        match self.node(h) {
            NodeData::Object(ps) => ps[i].0.clone(),
            _ => unreached(),
        }
    }

    /// The value handle of one field of an Object node.
    pub fn object_val(&self, h: usize, i: usize) -> (c: usize)
        requires
            h < self@.len(),
            self@[h as int] is Object,
            i < self@[h as int]->Object_0@.len(),
        ensures
            c == self@[h as int]->Object_0@[i as int].1,
    {
        match self.node(h) {
            NodeData::Object(ps) => ps[i].1,
            _ => unreached(),
        }
    }

    /// Looks a field up in an object node through an interned string node,
    /// as the engine does with a key handle; the result is exactly the
    /// by-name lookup of that key's text.
    pub fn object_get_key(&self, obj: usize, key: usize) -> (r: Option<usize>)
        requires
            obj < self@.len(),
            self@[obj as int] is Object,
            key < self@.len(),
            self@[key as int] is Text,
        ensures
            r == obj_lookup(self@[obj as int]->Object_0@, self@[key as int]->Text_0@),
    {
        let name: &String = match self.node(key) {
            NodeData::Text(t) => t,
            _ => unreached(),
        };
        self.object_get(obj, name)
    }
}

} // verus!
