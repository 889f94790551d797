//! The byte encoding: a tree of numbers, texts and lists, each node written
//! as a tag, the length of its payload, and the payload.

use crate::seqs::views;
use vstd::bytes::lemma_auto_spec_u32_to_from_le_bytes;
use vstd::bytes::lemma_auto_spec_u64_to_from_le_bytes;
use vstd::bytes::spec_u32_from_le_bytes;
use vstd::bytes::spec_u32_to_le_bytes;
use vstd::bytes::spec_u64_from_le_bytes;
use vstd::bytes::spec_u64_to_le_bytes;
use vstd::bytes::u32_from_le_bytes;
use vstd::bytes::u32_to_le_bytes;
use vstd::bytes::u64_from_le_bytes;
use vstd::bytes::u64_to_le_bytes;
use vstd::prelude::*;
use vstd::slice::slice_subrange;
use vstd::slice::slice_to_vec;
use vstd::string::StrSliceExecFns;
use vstd::utf8::decode_utf8;
use vstd::utf8::encode_utf8;
use vstd::utf8::encode_utf8_decode_utf8;
use vstd::utf8::encode_utf8_valid_utf8;
use vstd::utf8::valid_utf8;

verus! {

/// What every encoded value is made of.
#[derive(Debug, PartialEq, Eq)]
pub enum Node {
    Num(u32),
    Text(String),
    List(Vec<Node>),
}

pub enum NodeV {
    Num(u32),
    Text(Seq<char>),
    List(Seq<NodeV>),
}

/// The node as pure data.
pub open spec fn node_view(n: Node) -> NodeV
    decreases n,
{
    match n {
        Node::Num(x) => NodeV::Num(x),
        Node::Text(s) => NodeV::Text(s@),
        Node::List(cs) => NodeV::List(
            Seq::new(
                cs.len() as nat,
                |i: int|
                    if 0 <= i < cs.len() {
                        node_view(cs[i])
                    } else {
                        NodeV::Num(0)
                    },
            ),
        ),
    }
}

impl View for Node {
    type V = NodeV;

    open spec fn view(&self) -> NodeV {
        node_view(*self)
    }
}

pub open spec fn nodes_view(v: Seq<Node>) -> Seq<NodeV> {
    views(v)
}

pub proof fn lemma_list_view(cs: Vec<Node>)
    ensures
        Node::List(cs)@ == NodeV::List(nodes_view(cs@)),
{
    let n = Node::List(cs);
    match n@ {
        NodeV::List(s) => {
            assert(s.len() == cs@.len());
            assert forall|i: int| 0 <= i < s.len() implies s[i] == cs@[i]@ by {}
            assert(s =~= nodes_view(cs@));
        },
        _ => {},
    }
}

pub const TAG_NUM: u8 = 0;

pub const TAG_TEXT: u8 = 1;

pub const TAG_LIST: u8 = 2;

/// Length of the header of a node: one byte of tag, eight of length.
pub const HEADER: usize = 9;

pub open spec fn node_tag(n: NodeV) -> u8 {
    match n {
        NodeV::Num(_) => TAG_NUM,
        NodeV::Text(_) => TAG_TEXT,
        NodeV::List(_) => TAG_LIST,
    }
}

/// A tag, the payload's length in eight bytes, least byte first, and the payload.
pub open spec fn frame(tag: u8, payload: Seq<u8>) -> Seq<u8> {
    seq![tag] + spec_u64_to_le_bytes(payload.len() as u64) + payload
}

/// The payload of a node: four bytes of a number, least byte first; a text
/// in UTF-8; the encodings of a list's nodes, one after the other.
pub open spec fn node_payload(n: NodeV) -> Seq<u8>
    decreases n, 0nat,
{
    match n {
        NodeV::Num(x) => spec_u32_to_le_bytes(x),
        NodeV::Text(s) => encode_utf8(s),
        NodeV::List(cs) => encode_from(cs, 0),
    }
}

/// The encodings of the nodes of `cs` from position `i` on.
pub open spec fn encode_from(cs: Seq<NodeV>, i: nat) -> Seq<u8>
    decreases cs, cs.len() - i,
{
    if i >= cs.len() {
        Seq::empty()
    } else {
        frame(node_tag(cs[i as int]), node_payload(cs[i as int])) + encode_from(cs, i + 1)
    }
}

/// The bytes of a node.
pub open spec fn encode_node(n: NodeV) -> Seq<u8> {
    frame(node_tag(n), node_payload(n))
}

/// No payload in the node is longer than eight bytes can say.
pub open spec fn fits(n: NodeV) -> bool
    decreases n,
{
    &&& node_payload(n).len() <= u64::MAX
    &&& match n {
        NodeV::List(cs) => forall|i: int| 0 <= i < cs.len() ==> fits(#[trigger] cs[i]),
        _ => true,
    }
}

/// The node that the bytes are the encoding of, if they are one.
pub open spec fn decode_node(b: Seq<u8>) -> Option<NodeV>
    decreases b.len(), 0nat,
{
    if b.len() < HEADER {
        None
    } else {
        let len = spec_u64_from_le_bytes(b.subrange(1, HEADER as int));
        let payload = b.skip(HEADER as int);
        if payload.len() != len {
            None
        } else if b[0] == TAG_NUM {
            if len == 4 {
                Some(NodeV::Num(spec_u32_from_le_bytes(payload)))
            } else {
                None
            }
        } else if b[0] == TAG_TEXT {
            if valid_utf8(payload) {
                Some(NodeV::Text(decode_utf8(payload)))
            } else {
                None
            }
        } else if b[0] == TAG_LIST {
            match decode_list(payload) {
                Some(cs) => Some(NodeV::List(cs)),
                None => None,
            }
        } else {
            None
        }
    }
}

/// The nodes that the bytes are the encodings of, one after the other.
pub open spec fn decode_list(b: Seq<u8>) -> Option<Seq<NodeV>>
    decreases b.len(), 1nat,
{
    if b.len() == 0 {
        Some(Seq::empty())
    } else if b.len() < HEADER {
        None
    } else {
        let len = spec_u64_from_le_bytes(b.subrange(1, HEADER as int));
        if HEADER + len > b.len() {
            None
        } else {
            match decode_node(b.take(HEADER + len)) {
                None => None,
                Some(c) => match decode_list(b.skip(HEADER + len)) {
                    None => None,
                    Some(cs) => Some(seq![c] + cs),
                },
            }
        }
    }
}

proof fn lemma_frame(tag: u8, payload: Seq<u8>)
    requires
        payload.len() <= u64::MAX,
    ensures
        frame(tag, payload).len() == HEADER + payload.len(),
        frame(tag, payload)[0] == tag,
        spec_u64_from_le_bytes(frame(tag, payload).subrange(1, HEADER as int)) == payload.len(),
        frame(tag, payload).skip(HEADER as int) == payload,
{
    lemma_auto_spec_u64_to_from_le_bytes();
    let f = frame(tag, payload);
    let l = spec_u64_to_le_bytes(payload.len() as u64);
    assert(l.len() == 8);
    assert(f.subrange(1, HEADER as int) =~= l);
    assert(f.skip(HEADER as int) =~= payload);
}

/// Decoding the encoding of a node gives the node.
pub proof fn lemma_node_round_trip(n: NodeV)
    requires
        fits(n),
    ensures
        decode_node(encode_node(n)) == Some(n),
    decreases n, 0nat,
{
    let payload = node_payload(n);
    lemma_frame(node_tag(n), payload);
    match n {
        NodeV::Num(x) => {
            lemma_auto_spec_u32_to_from_le_bytes();
        },
        NodeV::Text(s) => {
            encode_utf8_valid_utf8(s);
            encode_utf8_decode_utf8(s);
        },
        NodeV::List(cs) => {
            lemma_list_round_trip(cs, 0);
            assert(cs.skip(0) =~= cs);
        },
    }
}

/// Decoding the encodings of a list's nodes gives the nodes.
pub proof fn lemma_list_round_trip(cs: Seq<NodeV>, i: nat)
    requires
        forall|j: int| 0 <= j < cs.len() ==> fits(#[trigger] cs[j]),
        i <= cs.len(),
    ensures
        decode_list(encode_from(cs, i)) == Some(cs.skip(i as int)),
    decreases cs, cs.len() - i,
{
    if i >= cs.len() {
        assert(cs.skip(i as int) =~= Seq::<NodeV>::empty());
    } else {
        let c = cs[i as int];
        let head = encode_node(c);
        let rest = encode_from(cs, i + 1);
        let b = encode_from(cs, i);
        assert(fits(c));
        lemma_frame(node_tag(c), node_payload(c));
        lemma_node_round_trip(c);
        lemma_list_round_trip(cs, i + 1);
        assert(b == head + rest);
        assert(b.subrange(1, HEADER as int) =~= head.subrange(1, HEADER as int));
        assert(b.take(head.len() as int) =~= head);
        assert(b.skip(head.len() as int) =~= rest);
        assert(seq![c] + cs.skip(i + 1 as int) =~= cs.skip(i as int));
    }
}

/// The text that the bytes are the UTF-8 encoding of.
///
/// Wraps `String::from_utf8`: it gives the text where the bytes are valid
/// UTF-8, and fails where they are not.
#[verifier::external_body]
fn text_from_utf8(bytes: Vec<u8>) -> (text: Option<String>)
    ensures
        match text {
            Some(s) => valid_utf8(bytes@) && s@ == decode_utf8(bytes@),
            None => !valid_utf8(bytes@),
        },
{
    String::from_utf8(bytes).ok()
}

/// `encode_from` at the end of what has been written so far.
proof fn lemma_encode_prefix(cs: Seq<NodeV>, i: nat)
    requires
        i < cs.len(),
    ensures
        encode_from(cs.take(i + 1 as int), 0) == encode_from(cs.take(i as int), 0) + encode_node(
            cs[i as int],
        ),
{
    lemma_encode_append(cs.take(i as int), cs[i as int], 0);
    assert(cs.take(i as int).push(cs[i as int]) =~= cs.take(i + 1 as int));
}

proof fn lemma_encode_append(cs: Seq<NodeV>, c: NodeV, k: nat)
    requires
        k <= cs.len(),
    ensures
        encode_from(cs.push(c), k) == encode_from(cs, k) + encode_node(c),
    decreases cs.len() - k,
{
    let e = cs.push(c);
    if k < cs.len() {
        lemma_encode_append(cs, c, k + 1);
        assert(e[k as int] == cs[k as int]);
        assert(encode_from(e, k) =~= encode_from(cs, k) + encode_node(c));
    } else {
        assert(e[k as int] == c);
        assert(encode_from(e, k + 1) =~= Seq::<u8>::empty());
        assert(encode_from(cs, k) =~= Seq::<u8>::empty());
        assert(encode_from(e, k) =~= encode_from(cs, k) + encode_node(c));
    }
}

/// Writes the nodes of a list one after the other.
fn encode_children(cs: &Vec<Node>) -> (payload: Vec<u8>)
    ensures
        payload@ == encode_from(nodes_view(cs@), 0),
        forall|j: int| 0 <= j < cs@.len() ==> fits(#[trigger] nodes_view(cs@)[j]),
    decreases cs,
{
    let mut payload: Vec<u8> = Vec::new();
    let mut i: usize = 0;
    proof {
        assert(encode_from(nodes_view(cs@).take(0), 0) =~= Seq::<u8>::empty());
    }
    while i < cs.len()
        invariant
            i <= cs.len(),
            payload@ == encode_from(nodes_view(cs@).take(i as int), 0),
            forall|j: int| 0 <= j < i ==> fits(#[trigger] nodes_view(cs@)[j]),
        decreases cs.len() - i,
    {
        let mut child = encode(&cs[i]);
        proof {
            lemma_encode_prefix(nodes_view(cs@), i as nat);
        }
        payload.append(&mut child);
        i = i + 1;
    }
    proof {
        assert(nodes_view(cs@).take(cs.len() as int) =~= nodes_view(cs@));
    }
    payload
}

/// Writes a node.
pub fn encode(n: &Node) -> (bytes: Vec<u8>)
    ensures
        bytes@ == encode_node(n@),
        fits(n@),
    decreases n,
{
    let (tag, mut payload): (u8, Vec<u8>) = match n {
        Node::Num(x) => {
            proof {
                lemma_auto_spec_u32_to_from_le_bytes();
            }
            (TAG_NUM, u32_to_le_bytes(*x))
        },
        Node::Text(s) => (TAG_TEXT, s.as_str().as_bytes_vec()),
        Node::List(cs) => {
            proof {
                lemma_list_view(*cs);
            }
            (TAG_LIST, encode_children(cs))
        },
    };
    let mut bytes: Vec<u8> = Vec::new();
    bytes.push(tag);
    let mut len = u64_to_le_bytes(payload.len() as u64);
    bytes.append(&mut len);
    bytes.append(&mut payload);
    proof {
        assert(bytes@ =~= encode_node(n@));
    }
    bytes
}

/// Reads the node written in `b[start..end]`.
pub fn decode_range(b: &[u8], start: usize, end: usize) -> (n: Option<Node>)
    requires
        start <= end <= b@.len(),
    ensures
        match n {
            Some(n) => decode_node(b@.subrange(start as int, end as int)) == Some(n@),
            None => decode_node(b@.subrange(start as int, end as int)).is_none(),
        },
    decreases end - start, 0nat,
{
    let ghost s = b@.subrange(start as int, end as int);
    if end - start < HEADER {
        return None;
    }
    let len = u64_from_le_bytes(slice_subrange(b, start + 1, start + HEADER));
    proof {
        assert(b@.subrange(start + 1, start + HEADER) =~= s.subrange(1, HEADER as int));
    }
    let size: usize = end - start - HEADER;
    let ghost payload = s.skip(HEADER as int);
    proof {
        assert(payload =~= b@.subrange(start + HEADER, end as int));
    }
    if size as u64 != len {
        return None;
    }
    let tag = b[start];
    if tag == TAG_NUM {
        if len == 4 {
            Some(Node::Num(u32_from_le_bytes(slice_subrange(b, start + HEADER, end))))
        } else {
            None
        }
    } else if tag == TAG_TEXT {
        match text_from_utf8(slice_to_vec(slice_subrange(b, start + HEADER, end))) {
            Some(s) => Some(Node::Text(s)),
            None => None,
        }
    } else if tag == TAG_LIST {
        match decode_list_range(b, start + HEADER, end) {
            Some(cs) => {
                proof {
                    lemma_list_view(cs);
                }
                Some(Node::List(cs))
            },
            None => None,
        }
    } else {
        None
    }
}

/// Reads the nodes written one after the other in `b[start..end]`.
pub fn decode_list_range(b: &[u8], start: usize, end: usize) -> (cs: Option<Vec<Node>>)
    requires
        start <= end <= b@.len(),
    ensures
        match cs {
            Some(cs) => decode_list(b@.subrange(start as int, end as int)) == Some(
                nodes_view(cs@),
            ),
            None => decode_list(b@.subrange(start as int, end as int)).is_none(),
        },
    decreases end - start, 1nat,
{
    let ghost s = b@.subrange(start as int, end as int);
    if start == end {
        let cs: Vec<Node> = Vec::new();
        proof {
            assert(nodes_view(cs@) =~= Seq::<NodeV>::empty());
        }
        return Some(cs);
    }
    if end - start < HEADER {
        return None;
    }
    let len = u64_from_le_bytes(slice_subrange(b, start + 1, start + HEADER));
    proof {
        assert(b@.subrange(start + 1, start + HEADER) =~= s.subrange(1, HEADER as int));
    }
    if len > (end - start - HEADER) as u64 {
        return None;
    }
    let mid: usize = start + HEADER + len as usize;
    proof {
        assert(s.take(HEADER + len) =~= b@.subrange(start as int, mid as int));
        assert(s.skip(HEADER + len) =~= b@.subrange(mid as int, end as int));
    }
    match decode_range(b, start, mid) {
        None => None,
        Some(c) => match decode_list_range(b, mid, end) {
            None => None,
            Some(rest) => {
                let mut cs: Vec<Node> = Vec::new();
                let ghost rest_view = nodes_view(rest@);
                cs.push(c);
                let mut rest = rest;
                cs.append(&mut rest);
                proof {
                    assert(nodes_view(cs@) =~= seq![c@] + rest_view);
                }
                Some(cs)
            },
        },
    }
}

/// Reads a node.
pub fn decode(b: &[u8]) -> (n: Option<Node>)
    ensures
        match n {
            Some(n) => decode_node(b@) == Some(n@),
            None => decode_node(b@).is_none(),
        },
{
    proof {
        assert(b@.subrange(0, b@.len() as int) =~= b@);
    }
    decode_range(b, 0, b.len())
}

} // verus!
