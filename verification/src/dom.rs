//! The DOM model: a write-once tree of element and text nodes, plus the
//! attribute map an element carries and the error type the parsers report.

use vstd::prelude::*;

verus! {

broadcast use vstd::std_specs::vec::axiom_vec_decreases_to_view, vstd::seq::axiom_seq_index_decreases;

/// One attribute entry: name and value.
pub type AttrsView = Seq<(Seq<char>, Seq<char>)>;

/// Index of the first entry named `name`, or `-1` if there is none.
pub open spec fn attr_index(a: AttrsView, name: Seq<char>) -> int
    decreases a.len(),
{
    if a.len() == 0 {
        -1
    } else if a[0].0 == name {
        0
    } else {
        let r = attr_index(a.drop_first(), name);
        if r < 0 {
            -1
        } else {
            r + 1
        }
    }
}

pub proof fn lemma_attr_index(a: AttrsView, name: Seq<char>)
    ensures
        attr_index(a, name) >= 0 ==> 0 <= attr_index(a, name) < a.len()
            && a[attr_index(a, name)].0 == name
            && forall|k: int| 0 <= k < attr_index(a, name) ==> a[k].0 != name,
        attr_index(a, name) < 0 ==> forall|k: int| 0 <= k < a.len() ==> a[k].0 != name,
    decreases a.len(),
{
    if a.len() > 0 && a[0].0 != name {
        let t = a.drop_first();
        lemma_attr_index(t, name);
        let r = attr_index(t, name);
        if r >= 0 {
            assert(a[r + 1] == t[r]);
            assert forall|k: int| 0 <= k < r + 1 implies a[k].0 != name by {
                if k > 0 {
                    assert(a[k] == t[k - 1]);
                }
            }
        } else {
            assert forall|k: int| 0 <= k < a.len() implies a[k].0 != name by {
                if k > 0 {
                    assert(a[k] == t[k - 1]);
                }
            }
        }
    }
}

/// `attr_index` returns exactly the position of the first match.
pub proof fn lemma_attr_index_at(a: AttrsView, name: Seq<char>, i: int)
    requires
        0 <= i < a.len(),
        a[i].0 == name,
        forall|k: int| 0 <= k < i ==> a[k].0 != name,
    ensures
        attr_index(a, name) == i,
{
    lemma_attr_index(a, name);
    let r = attr_index(a, name);
    if r < 0 {
        assert(a[i].0 != name);
    } else if r < i {
        assert(a[r].0 != name);
    } else if r > i {
        assert(a[i].0 != name);
    }
}

/// Map update, keys kept unique: replace the entry named `name` if one
/// exists, append otherwise.
pub open spec fn attrs_put(a: AttrsView, name: Seq<char>, value: Seq<char>) -> AttrsView {
    if attr_index(a, name) >= 0 {
        a.update(attr_index(a, name), (name, value))
    } else {
        a.push((name, value))
    }
}

/// Value of the entry named `name`, if any.
pub open spec fn attrs_get(a: AttrsView, name: Seq<char>) -> Option<Seq<char>> {
    if attr_index(a, name) >= 0 {
        Some(a[attr_index(a, name)].1)
    } else {
        None
    }
}

/// An element's attributes: string keys mapped to string values, keys
/// unique, insertion order kept but irrelevant to lookup.
#[derive(Debug, Clone, PartialEq)]
pub struct AttrMap {
    pub entries: Vec<(String, String)>,
}

impl View for AttrMap {
    type V = AttrsView;

    open spec fn view(&self) -> AttrsView {
        Seq::new(self.entries@.len(), |i: int| (self.entries@[i].0@, self.entries@[i].1@))
    }
}

impl AttrMap {
    pub fn new() -> (r: AttrMap)
        ensures
            r@ == Seq::<(Seq<char>, Seq<char>)>::empty(),
    {
        let r = AttrMap { entries: Vec::new() };
        proof {
            assert(r@ =~= Seq::<(Seq<char>, Seq<char>)>::empty());
        }
        r
    }

    /// Insert `name = value`; a later insertion under the same name
    /// replaces the earlier one.
    pub fn insert(&mut self, name: String, value: String)
        ensures
            final(self)@ == attrs_put(old(self)@, name@, value@),
    {
        proof {
            lemma_attr_index(self@, name@);
        }
        let n = self.entries.len();
        let mut i: usize = 0;
        while i < n
            invariant
                i <= n,
                n == self.entries@.len(),
                *self == *old(self),
                forall|k: int| 0 <= k < i ==> self@[k].0 != name@,
            decreases n - i,
        {
            if self.entries[i].0 == name {
                proof {
                    assert(old(self)@[i as int].0 == name@);
                    lemma_attr_index_at(old(self)@, name@, i as int);
                }
                self.entries.set(i, (name, value));
                proof {
                    assert(final(self)@ =~= attrs_put(old(self)@, name@, value@));
                }
                return;
            }
            proof {
                assert(self@[i as int].0 == self.entries@[i as int].0@);
            }
            i = i + 1;
        }
        self.entries.push((name, value));
        proof {
            assert(attr_index(old(self)@, name@) < 0);
            assert(final(self)@ =~= attrs_put(old(self)@, name@, value@));
        }
    }

    /// Look the attribute named `name` up.
    pub fn get(&self, name: &String) -> (r: Option<&String>)
        ensures
            match r {
                Some(v) => attrs_get(self@, name@) == Some(v@),
                None => attrs_get(self@, name@) is None,
            },
    {
        proof {
            lemma_attr_index(self@, name@);
        }
        let n = self.entries.len();
        let mut i: usize = 0;
        while i < n
            invariant
                i <= n,
                n == self.entries@.len(),
                forall|k: int| 0 <= k < i ==> self@[k].0 != name@,
            decreases n - i,
        {
            if self.entries[i].0 == *name {
                proof {
                    assert(self@[i as int].0 == name@);
                    lemma_attr_index_at(self@, name@, i as int);
                }
                return Some(&self.entries[i].1);
            }
            proof {
                assert(self@[i as int].0 == self.entries@[i as int].0@);
            }
            i = i + 1;
        }
        None
    }

    pub fn len(&self) -> (n: usize)
        ensures
            n == self@.len(),
    {
        self.entries.len()
    }

    /// A copy with the same entries.
    pub fn duplicate(&self) -> (r: AttrMap)
        ensures
            r@ == self@,
    {
        let n = self.entries.len();
        let mut entries: Vec<(String, String)> = Vec::new();
        let mut i: usize = 0;
        while i < n
            invariant
                i <= n,
                n == self.entries@.len(),
                entries@.len() == i as int,
                forall|k: int| 0 <= k < i ==> entries@[k].0@ == self.entries@[k].0@
                    && entries@[k].1@ == self.entries@[k].1@,
            decreases n - i,
        {
            let name = self.entries[i].0.clone();
            let value = self.entries[i].1.clone();
            entries.push((name, value));
            i = i + 1;
        }
        let r = AttrMap { entries };
        proof {
            assert(r@ =~= self@);
        }
        r
    }
}

/// A DOM node: an element with a tag name, attributes and ordered
/// children, or a run of raw text.
#[derive(Debug, PartialEq)]
pub enum Node {
    Element { tag: String, attributes: AttrMap, children: Vec<Node> },
    Text(String),
}

/// The mathematical shape of a DOM node.
pub enum NodeView {
    Element { tag: Seq<char>, attributes: AttrsView, children: Seq<NodeView> },
    Text(Seq<char>),
}

pub open spec fn node_view(n: Node) -> NodeView
    decreases n,
{
    match n {
        Node::Element { tag, attributes, children } => NodeView::Element {
            tag: tag@,
            attributes: attributes@,
            children: Seq::new(
                children@.len(),
                |i: int|
                    if 0 <= i < children@.len() {
                        node_view(children@[i])
                    } else {
                        NodeView::Text(Seq::empty())
                    },
            ),
        },
        Node::Text(s) => NodeView::Text(s@),
    }
}

impl View for Node {
    type V = NodeView;

    open spec fn view(&self) -> NodeView {
        node_view(*self)
    }
}

impl Node {
    /// Build an element node.
    pub fn element(tag: String, attributes: AttrMap, children: Vec<Node>) -> (r: Node)
        ensures
            r@ == (NodeView::Element {
                tag: tag@,
                attributes: attributes@,
                children: Seq::new(children@.len(), |i: int| children@[i]@),
            }),
    {
        proof {
            let r = Node::Element { tag, attributes, children };
            assert(r@ matches NodeView::Element { children: cs, .. } && cs
                =~= Seq::new(children@.len(), |i: int| children@[i]@));
        }
        Node::Element { tag, attributes, children }
    }

    /// Build a text node.
    pub fn text(content: String) -> (r: Node)
        ensures
            r@ == NodeView::Text(content@),
    {
        Node::Text(content)
    }
}

/// A structural parse error: the grammar was not satisfied at `position`.
/// The internal "no match, try the next alternative" signal never leaves
/// the parsers; every surfaced failure is of this kind.
#[derive(Debug, Clone, PartialEq)]
pub struct ParseError {
    pub position: usize,
    pub message: String,
}

} // verus!
