//! The trees that stand for type expressions and declarations.

use crate::codec::lemma_list_view;
use crate::codec::nodes_view;
use crate::codec::Node;
use crate::codec::NodeV;
use crate::form::lemma_type_view_args;
use crate::form::Callback;
use crate::form::ExternalForm;
use crate::form::ExternalFormV;
use crate::form::ExternalFunSpec;
use crate::form::FunSpec;
use crate::form::FunSpecV;
use crate::form::OverloadedFunSpec;
use crate::form::RecDecl;
use crate::form::RecDeclV;
use crate::form::RecField;
use crate::form::SignaturesV;
use crate::form::TypeDecl;
use crate::form::TypeDeclV;
use crate::form::AST;
use crate::ids::Id;
use crate::nodes::lemma_list_round_trip;
use crate::nodes::list_to_node;
use crate::nodes::list_to_node_spec;
use crate::nodes::node_to_list;
use crate::nodes::node_to_list_spec;
use crate::stub::ForeignDecl;
use crate::stub::ModuleStub;
use crate::stub::ModuleStubV;
use crate::form::types_view;
use crate::form::Builtin;
use crate::form::Head;
use crate::form::HeadV;
use crate::form::Type;
use crate::form::TypeV;
use crate::nodes::as_list;
use crate::nodes::as_num;
use crate::nodes::list2;
use crate::nodes::list3;
use crate::nodes::list_of;
use crate::nodes::Nodal;
use vstd::prelude::*;

verus! {

/// The number that stands for a built-in type.
pub open spec fn builtin_code(b: Builtin) -> u32 {
    match b {
        Builtin::AnyType => 0,
        Builtin::NoneType => 1,
        Builtin::AtomType => 2,
        Builtin::IntegerType => 3,
        Builtin::NumberType => 4,
        Builtin::BinaryType => 5,
        Builtin::PidType => 6,
    }
}

/// The built-in type that a number stands for.
pub open spec fn code_builtin(c: u32) -> Option<Builtin> {
    if c == 0 {
        Some(Builtin::AnyType)
    } else if c == 1 {
        Some(Builtin::NoneType)
    } else if c == 2 {
        Some(Builtin::AtomType)
    } else if c == 3 {
        Some(Builtin::IntegerType)
    } else if c == 4 {
        Some(Builtin::NumberType)
    } else if c == 5 {
        Some(Builtin::BinaryType)
    } else if c == 6 {
        Some(Builtin::PidType)
    } else {
        None
    }
}

fn builtin_to_code(b: Builtin) -> (c: u32)
    ensures
        c == builtin_code(b),
{
    match b {
        Builtin::AnyType => 0,
        Builtin::NoneType => 1,
        Builtin::AtomType => 2,
        Builtin::IntegerType => 3,
        Builtin::NumberType => 4,
        Builtin::BinaryType => 5,
        Builtin::PidType => 6,
    }
}

fn builtin_from_code(c: u32) -> (b: Option<Builtin>)
    ensures
        b == code_builtin(c),
{
    if c == 0 {
        Some(Builtin::AnyType)
    } else if c == 1 {
        Some(Builtin::NoneType)
    } else if c == 2 {
        Some(Builtin::AtomType)
    } else if c == 3 {
        Some(Builtin::IntegerType)
    } else if c == 4 {
        Some(Builtin::NumberType)
    } else if c == 5 {
        Some(Builtin::BinaryType)
    } else if c == 6 {
        Some(Builtin::PidType)
    } else {
        None
    }
}

/// The tree of a head: its kind's number, then what it carries.
pub open spec fn head_node(h: HeadV) -> NodeV {
    match h {
        HeadV::Builtin(b) => NodeV::List(seq![NodeV::Num(0), NodeV::Num(builtin_code(b))]),
        HeadV::AtomLit(s) => NodeV::List(seq![NodeV::Num(1), NodeV::Text(s)]),
        HeadV::Var(s) => NodeV::List(seq![NodeV::Num(2), NodeV::Text(s)]),
        HeadV::Tuple => NodeV::List(seq![NodeV::Num(3), NodeV::Num(0)]),
        HeadV::List => NodeV::List(seq![NodeV::Num(4), NodeV::Num(0)]),
        HeadV::Fun => NodeV::List(seq![NodeV::Num(5), NodeV::Num(0)]),
        HeadV::Union => NodeV::List(seq![NodeV::Num(6), NodeV::Num(0)]),
        HeadV::Local(n) => NodeV::List(seq![NodeV::Num(7), NodeV::Text(n)]),
        HeadV::Remote(m, n) => NodeV::List(seq![NodeV::Num(8), NodeV::Text(m), NodeV::Text(n)]),
    }
}

/// The head that a tree stands for.
pub open spec fn node_head(n: NodeV) -> Option<HeadV> {
    match n {
        NodeV::List(cs) => if cs.len() == 2 {
            match (cs[0], cs[1]) {
                (NodeV::Num(k), NodeV::Num(c)) => if k == 0 {
                    match code_builtin(c) {
                        Some(b) => Some(HeadV::Builtin(b)),
                        None => None,
                    }
                } else if c != 0 {
                    None
                } else if k == 3 {
                    Some(HeadV::Tuple)
                } else if k == 4 {
                    Some(HeadV::List)
                } else if k == 5 {
                    Some(HeadV::Fun)
                } else if k == 6 {
                    Some(HeadV::Union)
                } else {
                    None
                },
                (NodeV::Num(k), NodeV::Text(s)) => if k == 1 {
                    Some(HeadV::AtomLit(s))
                } else if k == 2 {
                    Some(HeadV::Var(s))
                } else if k == 7 {
                    Some(HeadV::Local(s))
                } else {
                    None
                },
                _ => None,
            }
        } else if cs.len() == 3 {
            match (cs[0], cs[1], cs[2]) {
                (NodeV::Num(k), NodeV::Text(m), NodeV::Text(n)) => if k == 8 {
                    Some(HeadV::Remote(m, n))
                } else {
                    None
                },
                _ => None,
            }
        } else {
            None
        },
        _ => None,
    }
}

impl Nodal for Head {
    open spec fn to_node_spec(v: HeadV) -> NodeV {
        head_node(v)
    }

    open spec fn from_node_spec(n: NodeV) -> Option<HeadV> {
        node_head(n)
    }

    proof fn lemma_round_trip(v: HeadV) {
    }

    fn to_node(&self) -> (n: Node) {
        proof {
            assert(Head::to_node_spec(self@) == head_node(self@));
        }
        match self {
            Head::Builtin(b) => list2(Node::Num(0), Node::Num(builtin_to_code(*b))),
            Head::AtomLit(s) => list2(Node::Num(1), Node::Text(s.clone())),
            Head::Var(s) => list2(Node::Num(2), Node::Text(s.clone())),
            Head::Tuple => list2(Node::Num(3), Node::Num(0)),
            Head::List => list2(Node::Num(4), Node::Num(0)),
            Head::Fun => list2(Node::Num(5), Node::Num(0)),
            Head::Union => list2(Node::Num(6), Node::Num(0)),
            Head::Local(n) => list2(Node::Num(7), Node::Text(n.clone())),
            Head::Remote(m, n) => list3(Node::Num(8), Node::Text(m.clone()), Node::Text(n.clone())),
        }
    }

    fn from_node(n: &Node) -> (r: Option<Head>) {
        proof {
            assert(Head::from_node_spec(n@) == node_head(n@));
        }
        match as_list(n) {
            None => None,
            Some(cs) => {
                if cs.len() == 2 {
                    match (&cs[0], &cs[1]) {
                        (Node::Num(k), Node::Num(c)) => {
                            if *k == 0 {
                                match builtin_from_code(*c) {
                                    Some(b) => Some(Head::Builtin(b)),
                                    None => None,
                                }
                            } else if *c != 0 {
                                None
                            } else if *k == 3 {
                                Some(Head::Tuple)
                            } else if *k == 4 {
                                Some(Head::List)
                            } else if *k == 5 {
                                Some(Head::Fun)
                            } else if *k == 6 {
                                Some(Head::Union)
                            } else {
                                None
                            }
                        },
                        (Node::Num(k), Node::Text(s)) => {
                            if *k == 1 {
                                Some(Head::AtomLit(s.clone()))
                            } else if *k == 2 {
                                Some(Head::Var(s.clone()))
                            } else if *k == 7 {
                                Some(Head::Local(s.clone()))
                            } else {
                                None
                            }
                        },
                        _ => None,
                    }
                } else if cs.len() == 3 {
                    match (&cs[0], &cs[1], &cs[2]) {
                        (Node::Num(k), Node::Text(m), Node::Text(n)) => {
                            if *k == 8 {
                                Some(Head::Remote(m.clone(), n.clone()))
                            } else {
                                None
                            }
                        },
                        _ => None,
                    }
                } else {
                    None
                }
            },
        }
    }
}

/// The tree of a type expression: its head's tree and the list of its
/// arguments' trees.
pub open spec fn type_node(t: TypeV) -> NodeV
    decreases t,
{
    NodeV::List(
        seq![
            head_node(t.head),
            NodeV::List(
                Seq::new(
                    t.args.len(),
                    |i: int|
                        if 0 <= i < t.args.len() {
                            type_node(t.args[i])
                        } else {
                            NodeV::Num(0)
                        },
                ),
            ),
        ],
    )
}

/// The type expression that a tree stands for.
pub open spec fn node_type(n: NodeV) -> Option<TypeV>
    decreases n, 0nat,
{
    match n {
        NodeV::List(cs) => if cs.len() == 2 {
            match node_head(cs[0]) {
                Some(head) => match cs[1] {
                    NodeV::List(args) => match node_types(args) {
                        Some(args) => Some(TypeV { head, args }),
                        None => None,
                    },
                    _ => None,
                },
                None => None,
            }
        } else {
            None
        },
        _ => None,
    }
}

/// The type expressions that the trees stand for, where each stands for one.
pub open spec fn node_types(args: Seq<NodeV>) -> Option<Seq<TypeV>>
    decreases args, 1nat,
{
    if forall|i: int| 0 <= i < args.len() ==> node_type(#[trigger] args[i]).is_some() {
        Some(
            Seq::new(
                args.len(),
                |i: int|
                    if 0 <= i < args.len() {
                        node_type(args[i]).unwrap()
                    } else {
                        TypeV { head: HeadV::Union, args: Seq::empty() }
                    },
            ),
        )
    } else {
        None
    }
}

pub proof fn lemma_type_round_trip(t: TypeV)
    ensures
        node_type(type_node(t)) == Some(t),
    decreases t,
{
    let n = type_node(t);
    let cs = n->List_0;
    assert(cs.len() == 2);
    assert(node_head(cs[0]) == Some(t.head));
    let args = cs[1]->List_0;
    assert forall|i: int| 0 <= i < args.len() implies node_type(#[trigger] args[i]) == Some(
        t.args[i],
    ) by {
        lemma_type_round_trip(t.args[i]);
    }
    assert(node_types(args).unwrap() =~= t.args);
}

/// Builds the trees of a list of type expressions.
fn types_to_nodes(ts: &Vec<Type>) -> (cs: Vec<Node>)
    ensures
        cs@.len() == ts@.len(),
        forall|i: int| 0 <= i < ts@.len() ==> (#[trigger] cs@[i])@ == type_node(ts@[i]@),
    decreases ts,
{
    let mut cs: Vec<Node> = Vec::new();
    let mut i: usize = 0;
    while i < ts.len()
        invariant
            i <= ts.len(),
            cs@.len() == i,
            forall|j: int| 0 <= j < i ==> (#[trigger] cs@[j])@ == type_node(ts@[j]@),
        decreases ts.len() - i,
    {
        cs.push(type_to_node(&ts[i]));
        i = i + 1;
    }
    cs
}

/// Builds the tree of a type expression.
pub fn type_to_node(t: &Type) -> (n: Node)
    ensures
        n@ == type_node(t@),
    decreases t,
{
    let args = types_to_nodes(&t.args);
    proof {
        lemma_type_view_args(*t);
        assert(nodes_view(args@) =~= type_node(t@)->List_0[1]->List_0);
    }
    list2(t.head.to_node(), list_of(args))
}

/// Reads a list of type expressions from their trees.
fn nodes_to_types(cs: &Vec<Node>) -> (r: Option<Vec<Type>>)
    ensures
        match r {
            Some(ts) => ts@.len() == cs@.len() && forall|i: int|
                0 <= i < cs@.len() ==> node_type(#[trigger] nodes_view(cs@)[i]) == Some(ts@[i]@),
            None => exists|i: int|
                0 <= i < cs@.len() && node_type(#[trigger] nodes_view(cs@)[i]).is_none(),
        },
    decreases cs,
{
    let mut ts: Vec<Type> = Vec::new();
    let mut i: usize = 0;
    while i < cs.len()
        invariant
            i <= cs.len(),
            ts@.len() == i,
            forall|j: int| 0 <= j < i ==> node_type(#[trigger] nodes_view(cs@)[j]) == Some(ts@[j]@),
        decreases cs.len() - i,
    {
        match node_to_type(&cs[i]) {
            Some(t) => {
                ts.push(t);
            },
            None => {
                proof {
                    assert(node_type(nodes_view(cs@)[i as int]).is_none());
                }
                return None;
            },
        }
        i = i + 1;
    }
    Some(ts)
}

/// Reads a type expression from its tree.
pub fn node_to_type(n: &Node) -> (r: Option<Type>)
    ensures
        match r {
            Some(t) => node_type(n@) == Some(t@),
            None => node_type(n@).is_none(),
        },
    decreases n,
{
    match n {
        Node::List(cs) => {
            proof {
                lemma_list_view(*cs);
            }
            if cs.len() != 2 {
                return None;
            }
            let head = match Head::from_node(&cs[0]) {
                Some(h) => h,
                None => {
                    return None;
                },
            };
            match &cs[1] {
                Node::List(args) => {
                    proof {
                        lemma_list_view(*args);
                    }
                    match nodes_to_types(args) {
                        Some(ts) => {
                            let t = Type { head, args: ts };
                            proof {
                                lemma_type_view_args(t);
                                assert(nodes_view(cs@)[1] == NodeV::List(nodes_view(args@)));
                                assert(node_types(nodes_view(args@)).unwrap() =~= t@.args);
                            }
                            Some(t)
                        },
                        None => None,
                    }
                },
                _ => None,
            }
        },
        _ => None,
    }
}

impl Nodal for Type {
    open spec fn to_node_spec(v: TypeV) -> NodeV {
        type_node(v)
    }

    open spec fn from_node_spec(n: NodeV) -> Option<TypeV> {
        node_type(n)
    }

    proof fn lemma_round_trip(v: TypeV) {
        lemma_type_round_trip(v);
    }

    fn to_node(&self) -> (n: Node) {
        type_to_node(self)
    }

    fn from_node(n: &Node) -> (r: Option<Type>) {
        node_to_type(n)
    }
}

impl Nodal for TypeDecl {
    open spec fn to_node_spec(v: TypeDeclV) -> NodeV {
        NodeV::List(
            seq![
                Id::to_node_spec(v.id),
                list_to_node_spec::<String>(v.params),
                type_node(v.body),
            ],
        )
    }

    open spec fn from_node_spec(n: NodeV) -> Option<TypeDeclV> {
        match n {
            NodeV::List(cs) => if cs.len() == 3 {
                match (
                    Id::from_node_spec(cs[0]),
                    node_to_list_spec::<String>(cs[1]),
                    node_type(cs[2]),
                ) {
                    (Some(id), Some(params), Some(body)) => Some(TypeDeclV { id, params, body }),
                    _ => None,
                }
            } else {
                None
            },
            _ => None,
        }
    }

    proof fn lemma_round_trip(v: TypeDeclV) {
        Id::lemma_round_trip(v.id);
        lemma_list_round_trip::<String>(v.params);
        lemma_type_round_trip(v.body);
    }

    fn to_node(&self) -> (n: Node) {
        list3(self.id.to_node(), list_to_node(&self.params), type_to_node(&self.body))
    }

    fn from_node(n: &Node) -> (r: Option<TypeDecl>) {
        match as_list(n) {
            None => None,
            Some(cs) => {
                if cs.len() != 3 {
                    return None;
                }
                match (Id::from_node(&cs[0]), node_to_list::<String>(&cs[1]), node_to_type(&cs[2])) {
                    (Some(id), Some(params), Some(body)) => Some(TypeDecl { id, params, body }),
                    _ => None,
                }
            },
        }
    }
}

impl Nodal for RecField {
    open spec fn to_node_spec(v: (Seq<char>, TypeV)) -> NodeV {
        NodeV::List(seq![NodeV::Text(v.0), type_node(v.1)])
    }

    open spec fn from_node_spec(n: NodeV) -> Option<(Seq<char>, TypeV)> {
        match n {
            NodeV::List(cs) => if cs.len() == 2 {
                match (cs[0], node_type(cs[1])) {
                    (NodeV::Text(name), Some(ty)) => Some((name, ty)),
                    _ => None,
                }
            } else {
                None
            },
            _ => None,
        }
    }

    proof fn lemma_round_trip(v: (Seq<char>, TypeV)) {
        lemma_type_round_trip(v.1);
    }

    fn to_node(&self) -> (n: Node) {
        list2(Node::Text(self.name.clone()), type_to_node(&self.ty))
    }

    fn from_node(n: &Node) -> (r: Option<RecField>) {
        match as_list(n) {
            None => None,
            Some(cs) => {
                if cs.len() != 2 {
                    return None;
                }
                match (&cs[0], node_to_type(&cs[1])) {
                    (Node::Text(name), Some(ty)) => Some(RecField { name: name.clone(), ty }),
                    _ => None,
                }
            },
        }
    }
}

impl Nodal for RecDecl {
    open spec fn to_node_spec(v: RecDeclV) -> NodeV {
        NodeV::List(seq![NodeV::Text(v.name), list_to_node_spec::<RecField>(v.fields)])
    }

    open spec fn from_node_spec(n: NodeV) -> Option<RecDeclV> {
        match n {
            NodeV::List(cs) => if cs.len() == 2 {
                match (cs[0], node_to_list_spec::<RecField>(cs[1])) {
                    (NodeV::Text(name), Some(fields)) => Some(RecDeclV { name, fields }),
                    _ => None,
                }
            } else {
                None
            },
            _ => None,
        }
    }

    proof fn lemma_round_trip(v: RecDeclV) {
        lemma_list_round_trip::<RecField>(v.fields);
    }

    fn to_node(&self) -> (n: Node) {
        list2(Node::Text(self.name.clone()), list_to_node(&self.fields))
    }

    fn from_node(n: &Node) -> (r: Option<RecDecl>) {
        match as_list(n) {
            None => None,
            Some(cs) => {
                if cs.len() != 2 {
                    return None;
                }
                match (&cs[0], node_to_list::<RecField>(&cs[1])) {
                    (Node::Text(name), Some(fields)) => Some(RecDecl { name: name.clone(), fields }),
                    _ => None,
                }
            },
        }
    }
}

impl Nodal for FunSpec {
    open spec fn to_node_spec(v: FunSpecV) -> NodeV {
        NodeV::List(seq![Id::to_node_spec(v.id), type_node(v.ty)])
    }

    open spec fn from_node_spec(n: NodeV) -> Option<FunSpecV> {
        match n {
            NodeV::List(cs) => if cs.len() == 2 {
                match (Id::from_node_spec(cs[0]), node_type(cs[1])) {
                    (Some(id), Some(ty)) => Some(FunSpecV { id, ty }),
                    _ => None,
                }
            } else {
                None
            },
            _ => None,
        }
    }

    proof fn lemma_round_trip(v: FunSpecV) {
        Id::lemma_round_trip(v.id);
        lemma_type_round_trip(v.ty);
    }

    fn to_node(&self) -> (n: Node) {
        list2(self.id.to_node(), type_to_node(&self.ty))
    }

    fn from_node(n: &Node) -> (r: Option<FunSpec>) {
        match as_list(n) {
            None => None,
            Some(cs) => {
                if cs.len() != 2 {
                    return None;
                }
                match (Id::from_node(&cs[0]), node_to_type(&cs[1])) {
                    (Some(id), Some(ty)) => Some(FunSpec { id, ty }),
                    _ => None,
                }
            },
        }
    }
}

/// The tree of an identifier with its signatures.
pub open spec fn signatures_node(v: SignaturesV) -> NodeV {
    NodeV::List(seq![Id::to_node_spec(v.id), list_to_node_spec::<Type>(v.tys)])
}

/// The identifier with its signatures that a tree stands for.
pub open spec fn node_signatures(n: NodeV) -> Option<SignaturesV> {
    match n {
        NodeV::List(cs) => if cs.len() == 2 {
            match (Id::from_node_spec(cs[0]), node_to_list_spec::<Type>(cs[1])) {
                (Some(id), Some(tys)) => Some(SignaturesV { id, tys }),
                _ => None,
            }
        } else {
            None
        },
        _ => None,
    }
}

pub proof fn lemma_signatures_round_trip(v: SignaturesV)
    ensures
        node_signatures(signatures_node(v)) == Some(v),
{
    Id::lemma_round_trip(v.id);
    lemma_list_round_trip::<Type>(v.tys);
}

fn signatures_to_node(id: &Id, tys: &Vec<Type>) -> (n: Node)
    ensures
        n@ == signatures_node(SignaturesV { id: id@, tys: types_view(tys@) }),
{
    list2(id.to_node(), list_to_node(tys))
}

fn node_to_signatures(n: &Node) -> (r: Option<(Id, Vec<Type>)>)
    ensures
        match r {
            Some((id, tys)) => node_signatures(n@) == Some(
                SignaturesV { id: id@, tys: types_view(tys@) },
            ),
            None => node_signatures(n@).is_none(),
        },
{
    match as_list(n) {
        None => None,
        Some(cs) => {
            if cs.len() != 2 {
                return None;
            }
            match (Id::from_node(&cs[0]), node_to_list::<Type>(&cs[1])) {
                (Some(id), Some(tys)) => Some((id, tys)),
                _ => None,
            }
        },
    }
}

impl Nodal for OverloadedFunSpec {
    open spec fn to_node_spec(v: SignaturesV) -> NodeV {
        signatures_node(v)
    }

    open spec fn from_node_spec(n: NodeV) -> Option<SignaturesV> {
        node_signatures(n)
    }

    proof fn lemma_round_trip(v: SignaturesV) {
        lemma_signatures_round_trip(v);
    }

    fn to_node(&self) -> (n: Node) {
        proof {
            assert(OverloadedFunSpec::to_node_spec(self@) == signatures_node(self@));
        }
        signatures_to_node(&self.id, &self.tys)
    }

    fn from_node(n: &Node) -> (r: Option<OverloadedFunSpec>) {
        proof {
            assert(OverloadedFunSpec::from_node_spec(n@) == node_signatures(n@));
        }
        match node_to_signatures(n) {
            Some((id, tys)) => Some(OverloadedFunSpec { id, tys }),
            None => None,
        }
    }
}

impl Nodal for Callback {
    open spec fn to_node_spec(v: SignaturesV) -> NodeV {
        signatures_node(v)
    }

    open spec fn from_node_spec(n: NodeV) -> Option<SignaturesV> {
        node_signatures(n)
    }

    proof fn lemma_round_trip(v: SignaturesV) {
        lemma_signatures_round_trip(v);
    }

    fn to_node(&self) -> (n: Node) {
        proof {
            assert(Callback::to_node_spec(self@) == signatures_node(self@));
        }
        signatures_to_node(&self.id, &self.tys)
    }

    fn from_node(n: &Node) -> (r: Option<Callback>) {
        proof {
            assert(Callback::from_node_spec(n@) == node_signatures(n@));
        }
        match node_to_signatures(n) {
            Some((id, tys)) => Some(Callback { id, tys }),
            None => None,
        }
    }
}

impl Nodal for ExternalFunSpec {
    open spec fn to_node_spec(v: SignaturesV) -> NodeV {
        signatures_node(v)
    }

    open spec fn from_node_spec(n: NodeV) -> Option<SignaturesV> {
        node_signatures(n)
    }

    proof fn lemma_round_trip(v: SignaturesV) {
        lemma_signatures_round_trip(v);
    }

    fn to_node(&self) -> (n: Node) {
        proof {
            assert(ExternalFunSpec::to_node_spec(self@) == signatures_node(self@));
        }
        signatures_to_node(&self.id, &self.types)
    }

    fn from_node(n: &Node) -> (r: Option<ExternalFunSpec>) {
        proof {
            assert(ExternalFunSpec::from_node_spec(n@) == node_signatures(n@));
        }
        match node_to_signatures(n) {
            Some((id, types)) => Some(ExternalFunSpec { id, types }),
            None => None,
        }
    }
}

/// The number that stands for a form's kind.
pub open spec fn form_tag(f: ExternalFormV) -> u32 {
    match f {
        ExternalFormV::Module(_) => 0,
        ExternalFormV::FunDecl(_) => 1,
        ExternalFormV::File(_) => 2,
        ExternalFormV::ElpMetadata(_) => 3,
        ExternalFormV::Behaviour(_) => 4,
        ExternalFormV::EqwalizerNowarnFunction(_) => 5,
        ExternalFormV::EqwalizerUnlimitedRefinement(_) => 6,
        ExternalFormV::ExportType(_) => 7,
        ExternalFormV::TypeDecl(_) => 8,
        ExternalFormV::FunSpec(_) => 9,
        ExternalFormV::Callback(_) => 10,
        ExternalFormV::OptionalCallbacks(_) => 11,
        ExternalFormV::RecDecl(_) => 12,
    }
}

/// The tree of what a form carries.
pub open spec fn form_payload(f: ExternalFormV) -> NodeV {
    match f {
        ExternalFormV::Module(s) => NodeV::Text(s),
        ExternalFormV::FunDecl(id) => Id::to_node_spec(id),
        ExternalFormV::File(s) => NodeV::Text(s),
        ExternalFormV::ElpMetadata(s) => NodeV::Text(s),
        ExternalFormV::Behaviour(s) => NodeV::Text(s),
        ExternalFormV::EqwalizerNowarnFunction(id) => Id::to_node_spec(id),
        ExternalFormV::EqwalizerUnlimitedRefinement(id) => Id::to_node_spec(id),
        ExternalFormV::ExportType(ids) => list_to_node_spec::<Id>(ids),
        ExternalFormV::TypeDecl(d) => TypeDecl::to_node_spec(d),
        ExternalFormV::FunSpec(d) => signatures_node(d),
        ExternalFormV::Callback(d) => signatures_node(d),
        ExternalFormV::OptionalCallbacks(ids) => list_to_node_spec::<Id>(ids),
        ExternalFormV::RecDecl(d) => RecDecl::to_node_spec(d),
    }
}

/// The form of the given kind that a payload's tree stands for.
pub open spec fn payload_form(tag: u32, p: NodeV) -> Option<ExternalFormV> {
    if tag == 0 {
        match String::from_node_spec(p) {
            Some(s) => Some(ExternalFormV::Module(s)),
            None => None,
        }
    } else if tag == 1 {
        match Id::from_node_spec(p) {
            Some(id) => Some(ExternalFormV::FunDecl(id)),
            None => None,
        }
    } else if tag == 2 {
        match String::from_node_spec(p) {
            Some(s) => Some(ExternalFormV::File(s)),
            None => None,
        }
    } else if tag == 3 {
        match String::from_node_spec(p) {
            Some(s) => Some(ExternalFormV::ElpMetadata(s)),
            None => None,
        }
    } else if tag == 4 {
        match String::from_node_spec(p) {
            Some(s) => Some(ExternalFormV::Behaviour(s)),
            None => None,
        }
    } else if tag == 5 {
        match Id::from_node_spec(p) {
            Some(id) => Some(ExternalFormV::EqwalizerNowarnFunction(id)),
            None => None,
        }
    } else if tag == 6 {
        match Id::from_node_spec(p) {
            Some(id) => Some(ExternalFormV::EqwalizerUnlimitedRefinement(id)),
            None => None,
        }
    } else if tag == 7 {
        match node_to_list_spec::<Id>(p) {
            Some(ids) => Some(ExternalFormV::ExportType(ids)),
            None => None,
        }
    } else if tag == 8 {
        match TypeDecl::from_node_spec(p) {
            Some(d) => Some(ExternalFormV::TypeDecl(d)),
            None => None,
        }
    } else if tag == 9 {
        match node_signatures(p) {
            Some(d) => Some(ExternalFormV::FunSpec(d)),
            None => None,
        }
    } else if tag == 10 {
        match node_signatures(p) {
            Some(d) => Some(ExternalFormV::Callback(d)),
            None => None,
        }
    } else if tag == 11 {
        match node_to_list_spec::<Id>(p) {
            Some(ids) => Some(ExternalFormV::OptionalCallbacks(ids)),
            None => None,
        }
    } else if tag == 12 {
        match RecDecl::from_node_spec(p) {
            Some(d) => Some(ExternalFormV::RecDecl(d)),
            None => None,
        }
    } else {
        None
    }
}

impl Nodal for ExternalForm {
    open spec fn to_node_spec(v: ExternalFormV) -> NodeV {
        NodeV::List(seq![NodeV::Num(form_tag(v)), form_payload(v)])
    }

    open spec fn from_node_spec(n: NodeV) -> Option<ExternalFormV> {
        match n {
            NodeV::List(cs) => if cs.len() == 2 {
                match cs[0] {
                    NodeV::Num(tag) => payload_form(tag, cs[1]),
                    _ => None,
                }
            } else {
                None
            },
            _ => None,
        }
    }

    proof fn lemma_round_trip(v: ExternalFormV) {
        match v {
            ExternalFormV::FunDecl(id) => Id::lemma_round_trip(id),
            ExternalFormV::EqwalizerNowarnFunction(id) => Id::lemma_round_trip(id),
            ExternalFormV::EqwalizerUnlimitedRefinement(id) => Id::lemma_round_trip(id),
            ExternalFormV::ExportType(ids) => lemma_list_round_trip::<Id>(ids),
            ExternalFormV::TypeDecl(d) => TypeDecl::lemma_round_trip(d),
            ExternalFormV::FunSpec(d) => lemma_signatures_round_trip(d),
            ExternalFormV::Callback(d) => lemma_signatures_round_trip(d),
            ExternalFormV::OptionalCallbacks(ids) => lemma_list_round_trip::<Id>(ids),
            ExternalFormV::RecDecl(d) => RecDecl::lemma_round_trip(d),
            _ => {},
        }
    }

    fn to_node(&self) -> (n: Node) {
        match self {
            ExternalForm::Module(s) => list2(Node::Num(0), s.to_node()),
            ExternalForm::FunDecl(id) => list2(Node::Num(1), id.to_node()),
            ExternalForm::File(s) => list2(Node::Num(2), s.to_node()),
            ExternalForm::ElpMetadata(s) => list2(Node::Num(3), s.to_node()),
            ExternalForm::Behaviour(s) => list2(Node::Num(4), s.to_node()),
            ExternalForm::EqwalizerNowarnFunction(id) => list2(Node::Num(5), id.to_node()),
            ExternalForm::EqwalizerUnlimitedRefinement(id) => list2(Node::Num(6), id.to_node()),
            ExternalForm::ExportType(ids) => list2(Node::Num(7), list_to_node(ids)),
            ExternalForm::TypeDecl(d) => list2(Node::Num(8), d.to_node()),
            ExternalForm::FunSpec(d) => list2(Node::Num(9), d.to_node()),
            ExternalForm::Callback(d) => list2(Node::Num(10), d.to_node()),
            ExternalForm::OptionalCallbacks(ids) => list2(Node::Num(11), list_to_node(ids)),
            ExternalForm::RecDecl(d) => list2(Node::Num(12), d.to_node()),
        }
    }

    fn from_node(n: &Node) -> (r: Option<ExternalForm>) {
        let cs = match as_list(n) {
            None => {
                return None;
            },
            Some(cs) => cs,
        };
        if cs.len() != 2 {
            return None;
        }
        let tag = match as_num(&cs[0]) {
            None => {
                return None;
            },
            Some(tag) => tag,
        };
        let p = &cs[1];
        if tag == 0 {
            match String::from_node(p) {
                Some(s) => Some(ExternalForm::Module(s)),
                None => None,
            }
        } else if tag == 1 {
            match Id::from_node(p) {
                Some(id) => Some(ExternalForm::FunDecl(id)),
                None => None,
            }
        } else if tag == 2 {
            match String::from_node(p) {
                Some(s) => Some(ExternalForm::File(s)),
                None => None,
            }
        } else if tag == 3 {
            match String::from_node(p) {
                Some(s) => Some(ExternalForm::ElpMetadata(s)),
                None => None,
            }
        } else if tag == 4 {
            match String::from_node(p) {
                Some(s) => Some(ExternalForm::Behaviour(s)),
                None => None,
            }
        } else if tag == 5 {
            match Id::from_node(p) {
                Some(id) => Some(ExternalForm::EqwalizerNowarnFunction(id)),
                None => None,
            }
        } else if tag == 6 {
            match Id::from_node(p) {
                Some(id) => Some(ExternalForm::EqwalizerUnlimitedRefinement(id)),
                None => None,
            }
        } else if tag == 7 {
            match node_to_list::<Id>(p) {
                Some(ids) => Some(ExternalForm::ExportType(ids)),
                None => None,
            }
        } else if tag == 8 {
            match TypeDecl::from_node(p) {
                Some(d) => Some(ExternalForm::TypeDecl(d)),
                None => None,
            }
        } else if tag == 9 {
            match ExternalFunSpec::from_node(p) {
                Some(d) => Some(ExternalForm::FunSpec(d)),
                None => None,
            }
        } else if tag == 10 {
            match Callback::from_node(p) {
                Some(d) => Some(ExternalForm::Callback(d)),
                None => None,
            }
        } else if tag == 11 {
            match node_to_list::<Id>(p) {
                Some(ids) => Some(ExternalForm::OptionalCallbacks(ids)),
                None => None,
            }
        } else if tag == 12 {
            match RecDecl::from_node(p) {
                Some(d) => Some(ExternalForm::RecDecl(d)),
                None => None,
            }
        } else {
            None
        }
    }
}

impl Nodal for AST {
    open spec fn to_node_spec(v: Seq<ExternalFormV>) -> NodeV {
        list_to_node_spec::<ExternalForm>(v)
    }

    open spec fn from_node_spec(n: NodeV) -> Option<Seq<ExternalFormV>> {
        node_to_list_spec::<ExternalForm>(n)
    }

    proof fn lemma_round_trip(v: Seq<ExternalFormV>) {
        lemma_list_round_trip::<ExternalForm>(v);
    }

    fn to_node(&self) -> (n: Node) {
        list_to_node(&self.forms)
    }

    fn from_node(n: &Node) -> (r: Option<AST>) {
        match node_to_list::<ExternalForm>(n) {
            Some(forms) => Some(AST { forms }),
            None => None,
        }
    }
}

impl Nodal for ForeignDecl {
    open spec fn to_node_spec(v: (Seq<char>, TypeDeclV)) -> NodeV {
        NodeV::List(seq![NodeV::Text(v.0), TypeDecl::to_node_spec(v.1)])
    }

    open spec fn from_node_spec(n: NodeV) -> Option<(Seq<char>, TypeDeclV)> {
        match n {
            NodeV::List(cs) => if cs.len() == 2 {
                match (cs[0], TypeDecl::from_node_spec(cs[1])) {
                    (NodeV::Text(module), Some(decl)) => Some((module, decl)),
                    _ => None,
                }
            } else {
                None
            },
            _ => None,
        }
    }

    proof fn lemma_round_trip(v: (Seq<char>, TypeDeclV)) {
        TypeDecl::lemma_round_trip(v.1);
    }

    fn to_node(&self) -> (n: Node) {
        list2(Node::Text(self.module.clone()), self.decl.to_node())
    }

    fn from_node(n: &Node) -> (r: Option<ForeignDecl>) {
        match as_list(n) {
            None => None,
            Some(cs) => {
                if cs.len() != 2 {
                    return None;
                }
                match (&cs[0], TypeDecl::from_node(&cs[1])) {
                    (Node::Text(module), Some(decl)) => Some(
                        ForeignDecl { module: module.clone(), decl },
                    ),
                    _ => None,
                }
            },
        }
    }
}

impl Nodal for ModuleStub {
    open spec fn to_node_spec(v: ModuleStubV) -> NodeV {
        NodeV::List(
            seq![
                NodeV::Text(v.module),
                list_to_node_spec::<TypeDecl>(v.types),
                list_to_node_spec::<RecDecl>(v.records),
                list_to_node_spec::<FunSpec>(v.specs),
                list_to_node_spec::<OverloadedFunSpec>(v.overloaded_specs),
                list_to_node_spec::<Callback>(v.callbacks),
                list_to_node_spec::<Id>(v.optional_callbacks),
                list_to_node_spec::<ForeignDecl>(v.foreign),
            ],
        )
    }

    open spec fn from_node_spec(n: NodeV) -> Option<ModuleStubV> {
        match n {
            NodeV::List(cs) => if cs.len() == 8 {
                match (
                    cs[0],
                    node_to_list_spec::<TypeDecl>(cs[1]),
                    node_to_list_spec::<RecDecl>(cs[2]),
                    node_to_list_spec::<FunSpec>(cs[3]),
                    node_to_list_spec::<OverloadedFunSpec>(cs[4]),
                    node_to_list_spec::<Callback>(cs[5]),
                    node_to_list_spec::<Id>(cs[6]),
                    node_to_list_spec::<ForeignDecl>(cs[7]),
                ) {
                    (
                        NodeV::Text(module),
                        Some(types),
                        Some(records),
                        Some(specs),
                        Some(overloaded_specs),
                        Some(callbacks),
                        Some(optional_callbacks),
                        Some(foreign),
                    ) => Some(
                        ModuleStubV {
                            module,
                            types,
                            records,
                            specs,
                            overloaded_specs,
                            callbacks,
                            optional_callbacks,
                            foreign,
                        },
                    ),
                    _ => None,
                }
            } else {
                None
            },
            _ => None,
        }
    }

    proof fn lemma_round_trip(v: ModuleStubV) {
        lemma_list_round_trip::<TypeDecl>(v.types);
        lemma_list_round_trip::<RecDecl>(v.records);
        lemma_list_round_trip::<FunSpec>(v.specs);
        lemma_list_round_trip::<OverloadedFunSpec>(v.overloaded_specs);
        lemma_list_round_trip::<Callback>(v.callbacks);
        lemma_list_round_trip::<Id>(v.optional_callbacks);
        lemma_list_round_trip::<ForeignDecl>(v.foreign);
    }

    fn to_node(&self) -> (n: Node) {
        let mut cs: Vec<Node> = Vec::new();
        cs.push(Node::Text(self.module.clone()));
        cs.push(list_to_node(&self.types));
        cs.push(list_to_node(&self.records));
        cs.push(list_to_node(&self.specs));
        cs.push(list_to_node(&self.overloaded_specs));
        cs.push(list_to_node(&self.callbacks));
        cs.push(list_to_node(&self.optional_callbacks));
        cs.push(list_to_node(&self.foreign));
        proof {
            assert(nodes_view(cs@) =~= Self::to_node_spec(self@)->List_0);
        }
        list_of(cs)
    }

    fn from_node(n: &Node) -> (r: Option<ModuleStub>) {
        let cs = match as_list(n) {
            None => {
                return None;
            },
            Some(cs) => cs,
        };
        if cs.len() != 8 {
            return None;
        }
        match (
            &cs[0],
            node_to_list::<TypeDecl>(&cs[1]),
            node_to_list::<RecDecl>(&cs[2]),
            node_to_list::<FunSpec>(&cs[3]),
            node_to_list::<OverloadedFunSpec>(&cs[4]),
            node_to_list::<Callback>(&cs[5]),
            node_to_list::<Id>(&cs[6]),
            node_to_list::<ForeignDecl>(&cs[7]),
        ) {
            (
                Node::Text(module),
                Some(types),
                Some(records),
                Some(specs),
                Some(overloaded_specs),
                Some(callbacks),
                Some(optional_callbacks),
                Some(foreign),
            ) => Some(
                ModuleStub {
                    module: module.clone(),
                    types,
                    records,
                    specs,
                    overloaded_specs,
                    callbacks,
                    optional_callbacks,
                    foreign,
                },
            ),
            _ => None,
        }
    }
}

} // verus!
