//! How each structure is written as a tree of nodes and read back, and the
//! bytes of a structure: the bytes of its tree.

use crate::codec::decode;
use crate::codec::decode_node;
use crate::codec::encode;
use crate::codec::encode_node;
use crate::codec::fits;
use crate::codec::lemma_list_view;
use crate::codec::lemma_node_round_trip;
use crate::codec::nodes_view;
use crate::codec::Node;
use crate::codec::NodeV;
use crate::ids::Id;
use crate::ids::IdV;
use crate::seqs::views;
use vstd::prelude::*;

verus! {

/// A structure with a tree of nodes that stands for it.
pub trait Nodal: View + Sized {
    /// The tree that stands for a value.
    spec fn to_node_spec(v: Self::V) -> NodeV;

    /// The value that a tree stands for, if it stands for one.
    spec fn from_node_spec(n: NodeV) -> Option<Self::V>;

    /// Reading the tree of a value gives the value.
    proof fn lemma_round_trip(v: Self::V)
        ensures
            Self::from_node_spec(Self::to_node_spec(v)) == Some(v),
    ;

    fn to_node(&self) -> (n: Node)
        ensures
            n@ == Self::to_node_spec(self@),
    ;

    fn from_node(n: &Node) -> (r: Option<Self>)
        ensures
            match r {
                Some(x) => Self::from_node_spec(n@) == Some(x@),
                None => Self::from_node_spec(n@).is_none(),
            },
    ;
}

/// The bytes of a value.
pub open spec fn spec_to_bytes<T: Nodal>(v: T::V) -> Seq<u8> {
    encode_node(T::to_node_spec(v))
}

/// The value that the bytes stand for, if they stand for one.
pub open spec fn spec_from_bytes<T: Nodal>(b: Seq<u8>) -> Option<T::V> {
    match decode_node(b) {
        Some(n) => T::from_node_spec(n),
        None => None,
    }
}

/// Reading the bytes of a value gives the value, where no part of the value
/// is too long to be written.
pub proof fn lemma_bytes_round_trip<T: Nodal>(v: T::V)
    requires
        fits(T::to_node_spec(v)),
    ensures
        spec_from_bytes::<T>(spec_to_bytes::<T>(v)) == Some(v),
{
    lemma_node_round_trip(T::to_node_spec(v));
    T::lemma_round_trip(v);
}

/// Writes a value. What comes out can be read back: see `from_bytes`.
pub fn to_bytes<T: Nodal>(x: &T) -> (bytes: Vec<u8>)
    ensures
        bytes@ == spec_to_bytes::<T>(x@),
        spec_from_bytes::<T>(bytes@) == Some(x@),
{
    let n = x.to_node();
    let bytes = encode(&n);
    proof {
        lemma_bytes_round_trip::<T>(x@);
    }
    bytes
}

/// Reads a value.
pub fn from_bytes<T: Nodal>(bytes: &[u8]) -> (r: Option<T>)
    ensures
        match r {
            Some(x) => spec_from_bytes::<T>(bytes@) == Some(x@),
            None => spec_from_bytes::<T>(bytes@).is_none(),
        },
{
    match decode(bytes) {
        Some(n) => T::from_node(&n),
        None => None,
    }
}

/// The nodes of a list node.
pub fn as_list(n: &Node) -> (r: Option<&Vec<Node>>)
    ensures
        match r {
            Some(cs) => n@ == NodeV::List(nodes_view(cs@)),
            None => !(n@ is List),
        },
{
    match n {
        Node::List(cs) => {
            proof {
                lemma_list_view(*cs);
            }
            Some(cs)
        },
        _ => None,
    }
}

/// A list node of the given nodes.
pub fn list_of(cs: Vec<Node>) -> (n: Node)
    ensures
        n@ == NodeV::List(nodes_view(cs@)),
{
    proof {
        lemma_list_view(cs);
    }
    Node::List(cs)
}

/// The tree of a list: the list of its elements' trees.
pub open spec fn list_to_node_spec<T: Nodal>(xs: Seq<T::V>) -> NodeV {
    NodeV::List(Seq::new(xs.len(), |i: int| T::to_node_spec(xs[i])))
}

/// The list that a tree stands for: the values of its nodes, where it is a
/// list node and each of its nodes stands for a value.
pub open spec fn node_to_list_spec<T: Nodal>(n: NodeV) -> Option<Seq<T::V>> {
    match n {
        NodeV::List(cs) => if forall|i: int|
            0 <= i < cs.len() ==> (#[trigger] T::from_node_spec(cs[i])).is_some() {
            Some(Seq::new(cs.len(), |i: int| T::from_node_spec(cs[i]).unwrap()))
        } else {
            None
        },
        _ => None,
    }
}

pub proof fn lemma_list_round_trip<T: Nodal>(xs: Seq<T::V>)
    ensures
        node_to_list_spec::<T>(list_to_node_spec::<T>(xs)) == Some(xs),
{
    let n = list_to_node_spec::<T>(xs);
    let cs = n->List_0;
    assert forall|i: int| 0 <= i < cs.len() implies (#[trigger] T::from_node_spec(cs[i]))
        == Some(xs[i]) by {
        T::lemma_round_trip(xs[i]);
    }
    assert(node_to_list_spec::<T>(n).unwrap() =~= xs);
}

pub fn list_to_node<T: Nodal>(xs: &Vec<T>) -> (n: Node)
    ensures
        n@ == list_to_node_spec::<T>(views(xs@)),
{
    let mut cs: Vec<Node> = Vec::new();
    let mut i: usize = 0;
    while i < xs.len()
        invariant
            i <= xs.len(),
            cs@.len() == i,
            forall|j: int| 0 <= j < i ==> (#[trigger] cs@[j])@ == T::to_node_spec(xs@[j]@),
        decreases xs.len() - i,
    {
        cs.push(xs[i].to_node());
        i = i + 1;
    }
    proof {
        assert(nodes_view(cs@) =~= list_to_node_spec::<T>(views(xs@))->List_0);
    }
    list_of(cs)
}

pub fn node_to_list<T: Nodal>(n: &Node) -> (r: Option<Vec<T>>)
    ensures
        match r {
            Some(xs) => node_to_list_spec::<T>(n@) == Some(views(xs@)),
            None => node_to_list_spec::<T>(n@).is_none(),
        },
{
    match as_list(n) {
        None => None,
        Some(cs) => {
            let mut xs: Vec<T> = Vec::new();
            let mut i: usize = 0;
            while i < cs.len()
                invariant
                    i <= cs.len(),
                    xs@.len() == i,
                    n@ == NodeV::List(nodes_view(cs@)),
                    forall|j: int|
                        0 <= j < i ==> #[trigger] T::from_node_spec(nodes_view(cs@)[j]) == Some(
                            xs@[j]@,
                        ),
                decreases cs.len() - i,
            {
                match T::from_node(&cs[i]) {
                    Some(x) => {
                        xs.push(x);
                    },
                    None => {
                        proof {
                            assert(T::from_node_spec(nodes_view(cs@)[i as int]).is_none());
                        }
                        return None;
                    },
                }
                i = i + 1;
            }
            proof {
                assert(node_to_list_spec::<T>(n@).unwrap() =~= views(xs@));
            }
            Some(xs)
        },
    }
}

impl Nodal for String {
    open spec fn to_node_spec(v: Seq<char>) -> NodeV {
        NodeV::Text(v)
    }

    open spec fn from_node_spec(n: NodeV) -> Option<Seq<char>> {
        match n {
            NodeV::Text(s) => Some(s),
            _ => None,
        }
    }

    proof fn lemma_round_trip(v: Seq<char>) {
    }

    fn to_node(&self) -> (n: Node) {
        Node::Text(self.clone())
    }

    fn from_node(n: &Node) -> (r: Option<String>) {
        match n {
            Node::Text(s) => Some(s.clone()),
            _ => None,
        }
    }
}

/// The number of a number node.
pub open spec fn num_of(n: NodeV) -> Option<u32> {
    match n {
        NodeV::Num(x) => Some(x),
        _ => None,
    }
}

pub fn as_num(n: &Node) -> (r: Option<u32>)
    ensures
        r == num_of(n@),
{
    match n {
        Node::Num(x) => Some(*x),
        _ => None,
    }
}

/// A list node of two nodes.
pub fn list2(a: Node, b: Node) -> (n: Node)
    ensures
        n@ == NodeV::List(seq![a@, b@]),
{
    let mut cs: Vec<Node> = Vec::new();
    cs.push(a);
    cs.push(b);
    proof {
        assert(nodes_view(cs@) =~= seq![a@, b@]);
    }
    list_of(cs)
}

/// A list node of three nodes.
pub fn list3(a: Node, b: Node, c: Node) -> (n: Node)
    ensures
        n@ == NodeV::List(seq![a@, b@, c@]),
{
    let mut cs: Vec<Node> = Vec::new();
    cs.push(a);
    cs.push(b);
    cs.push(c);
    proof {
        assert(nodes_view(cs@) =~= seq![a@, b@, c@]);
    }
    list_of(cs)
}

impl Nodal for Id {
    open spec fn to_node_spec(v: IdV) -> NodeV {
        NodeV::List(seq![NodeV::Text(v.name), NodeV::Num(v.arity)])
    }

    open spec fn from_node_spec(n: NodeV) -> Option<IdV> {
        match n {
            NodeV::List(cs) => if cs.len() == 2 {
                match (cs[0], cs[1]) {
                    (NodeV::Text(name), NodeV::Num(arity)) => Some(IdV { name, arity }),
                    _ => None,
                }
            } else {
                None
            },
            _ => None,
        }
    }

    proof fn lemma_round_trip(v: IdV) {
    }

    fn to_node(&self) -> (n: Node) {
        list2(Node::Text(self.name.clone()), Node::Num(self.arity))
    }

    fn from_node(n: &Node) -> (r: Option<Id>) {
        match as_list(n) {
            None => None,
            Some(cs) => {
                if cs.len() == 2 {
                    match (&cs[0], &cs[1]) {
                        (Node::Text(name), Node::Num(arity)) => Some(
                            Id { name: name.clone(), arity: *arity },
                        ),
                        _ => None,
                    }
                } else {
                    None
                }
            },
        }
    }
}

} // verus!
