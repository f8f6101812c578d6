//! The compact form of OSM elements.
use vstd::prelude::*;

use crate::compressor::inlining::node::{
    inline_node_tags, node_tags_folded, InlinedNodeTags, Node, NodeSingleInlined,
};
use crate::compressor::osm_tags::Tags;
use crate::compressor::inlining::InlinedTags;
use crate::compressor::literals::literal_value::LiteralValue;
use crate::compressor::literals::packed_strings::PackedString;
use crate::compressor::literals::structured_elements::address::{
    address_bytes, address_serializable, address_value_inserts, OsmAddress,
};
use crate::compressor::literals::{
    insert_type_irrelevant, literal_bytes, literal_literal_inserts, literal_serializable,
    literal_value_inserts, pool_insert, Literal, LiteralPool, PoolModel, WellKnownKeyVar,
};
use crate::serialize_min::{DecodeError, SerializeMinimal};
use crate::tree::bbox::{smallest_box_of, BoundingBox};
use crate::varint::{from_varint, usize_modulus, varint_decode, varint_encoding, FromVarint, ToVarint};

verus! {

/// The kind of element an id belongs to.
#[derive(PartialEq, Eq, Debug, Clone, Copy, Structural)]
pub enum OsmIdKind {
    Node,
    Way,
    Relation,
}

pub open spec fn kind_index(kind: OsmIdKind) -> nat {
    match kind {
        OsmIdKind::Node => 0,
        OsmIdKind::Way => 1,
        OsmIdKind::Relation => 2,
    }
}

/// The ids of a way's nodes whose boxes were found, in order.
pub open spec fn found_ids(children: Seq<(u64, Option<BoundingBox<i32>>)>) -> Seq<u64>
    decreases children.len(),
{
    if children.len() == 0 {
        Seq::empty()
    } else {
        let rest = found_ids(children.drop_last());
        match children.last().1 {
            Some(_) => rest.push(children.last().0),
            None => rest,
        }
    }
}

/// The lower-left corners of the boxes of a way's nodes that were found, in
/// order.
pub open spec fn found_points(children: Seq<(u64, Option<BoundingBox<i32>>)>) -> Seq<(i32, i32)>
    decreases children.len(),
{
    if children.len() == 0 {
        Seq::empty()
    } else {
        let rest = found_points(children.drop_last());
        match children.last().1 {
            Some(b) => rest.push((b.x, b.y)),
            None => rest,
        }
    }
}

/// The box of a way and the ids of its nodes that it keeps, from each node's
/// flattened id and its box where one was found: the nodes without a box are
/// left out, and the way's box is the one that `from_iter` makes of the
/// lower-left corners of the others.
pub fn way_bbox_and_children(children: &[(u64, Option<BoundingBox<i32>>)]) -> (r: (
    BoundingBox<i32>,
    Vec<u64>,
))
    ensures
        r.1@ == found_ids(children@),
        smallest_box_of(found_points(children@), r.0),
{
    let mut points: Vec<(i32, i32)> = Vec::new();
    let mut ids: Vec<u64> = Vec::new();
    let mut i: usize = 0;
    while i < children.len()
        invariant
            i <= children@.len(),
            points@ == found_points(children@.take(i as int)),
            ids@ == found_ids(children@.take(i as int)),
        decreases children@.len() - i,
    {
        proof {
            assert(children@.take(i + 1).drop_last() =~= children@.take(i as int));
        }
        match children[i].1 {
            Some(b) => {
                points.push((b.x, b.y));
                ids.push(children[i].0);
            },
            None => {},
        }
        i = i + 1;
    }
    proof {
        assert(children@.take(children@.len() as int) =~= children@);
    }
    (BoundingBox::from_iter(points.as_slice()), ids)
}

/// One number for an element of any kind: the id, with the kind in the two
/// top bits.
pub fn flattened_id(kind: OsmIdKind, inner: i64) -> (r: u64)
    requires
        0 <= inner < 0x4000_0000_0000_0000,
    ensures
        r == inner + kind_index(kind) * 0x4000_0000_0000_0000,
{
    let inner = inner as u64;
    let top: u64 = match kind {
        OsmIdKind::Node => 0,
        OsmIdKind::Way => 1,
        OsmIdKind::Relation => 2,
    };
    assert(inner | (top << 62u64) == inner + top * 0x4000_0000_0000_0000) by (bit_vector)
        requires
            inner < 0x4000_0000_0000_0000,
            top <= 2,
    ;
    inner | (top << 62u64)
}

/// The bytes a packed string stores.
pub open spec fn packed_bytes_of(p: PackedString) -> Seq<u8> {
    match p {
        PackedString::LowerLatinUnderscoreHyphenColonFiveBit(b) => b@,
        PackedString::CasedLatinUnderscoreHyphenColonSixBit(b) => b@,
        PackedString::Ascii(b) => b@,
        PackedString::Unicode(s) => vstd::utf8::encode_utf8(s@),
    }
}

/// The state of writing a node: the literals pool, the values pool, the
/// bytes so far, and the byte of flags for the folded tags.
pub type NodeWriting = (PoolModel, PoolModel, Seq<u8>, u8);

/// A folded string tag: stored as a value, its id appended, its flag set.
pub open spec fn packed_step(st: NodeWriting, o: Option<PackedString>, bit: u8) -> NodeWriting {
    match o {
        Some(p) => {
            let (n1, id) = pool_insert(st.1, packed_bytes_of(p));
            (st.0, n1, st.2 + varint_encoding(id as nat), st.3 | bit)
        },
        None => st,
    }
}

/// The folded tags of a node: an address is stored as a literal; name,
/// highway, place and operator as values; each present one sets its flag.
pub open spec fn node_groups(m: InlinedNodeTags, st: NodeWriting) -> NodeWriting {
    let st = match m.address {
        Some(a) => {
            let (b, n0, n1) = address_bytes(a, st.0, st.1);
            let (n0b, id) = pool_insert(n0, seq![0x80u8] + b);
            (n0b, n1, st.2 + varint_encoding(id as nat), st.3 | 0x80u8)
        },
        None => st,
    };
    let st = packed_step(st, m.name, 0x10u8);
    let st = packed_step(st, m.highway, 0x04u8);
    let st = packed_step(st, m.place, 0x02u8);
    packed_step(st, m.operator, 0x01u8)
}

/// Literals stored in the literals pool one after the other, with their ids.
pub open spec fn literals_insert(list: Seq<Literal>, m0: PoolModel, m1: PoolModel) -> (
    Seq<u8>,
    PoolModel,
    PoolModel,
)
    decreases list.len(),
{
    if list.len() == 0 {
        (Seq::empty(), m0, m1)
    } else {
        let (b, n0, n1) = literals_insert(list.drop_last(), m0, m1);
        let (blob, n0b, n1b) = literal_bytes(list.last(), n0, n1);
        let (n0c, id) = pool_insert(n0b, blob);
        (b + varint_encoding(id as nat), n0c, n1b)
    }
}

/// At most how many values storing the literals of `list` stores.
pub open spec fn literals_value_inserts(list: Seq<Literal>) -> nat
    decreases list.len(),
{
    if list.len() == 0 {
        0
    } else {
        literals_value_inserts(list.drop_last()) + literal_value_inserts(list.last())
    }
}

/// At most how many literals storing the literals of `list` stores.
pub open spec fn literals_literal_inserts(list: Seq<Literal>) -> nat
    decreases list.len(),
{
    if list.len() == 0 {
        0
    } else {
        literals_literal_inserts(list.drop_last()) + literal_literal_inserts(list.last()) + 1
    }
}

/// The first bytes of a node with `n` tags that are not folded: the node
/// flag and the flag for tags that are not folded, with the count in the low
/// nibble (all ones, and the count after the flags byte, from fifteen on),
/// and a placeholder for the flags byte.
pub open spec fn node_header(n: nat) -> Seq<u8> {
    if n < 15 {
        seq![0xc0u8 | (n as u8), 0u8]
    } else {
        seq![0xc0u8 | 0x0fu8, 0u8] + varint_encoding(n)
    }
}

/// The bytes of a node with tags that are not folded, and the pools after.
pub open spec fn node_with_uninlined_bytes(tags: InlinedTags<Node>, m0: PoolModel, m1: PoolModel) -> (
    Seq<u8>,
    PoolModel,
    PoolModel,
) {
    let pre = node_header(tags.other@.len());
    let st = match tags.inline {
        Node::Multiple(_, m) => node_groups(m, (m0, m1, pre, 0u8)),
        _ => (m0, m1, pre, 0u8),
    };
    let (lb, n0, n1) = literals_insert(tags.other@, st.0, st.1);
    (st.2.update(1, st.3) + lb, n0, n1)
}

/// The number of tags under an address's prefix that it keeps as literals.
fn arbitrary_count(a: &OsmAddress) -> (r: usize)
    ensures
        r == match a.extra {
            Some(e) => e.arbitrary_len(),
            None => 0,
        },
{
    match &a.extra {
        Some(e) => match &e.arbitrary {
            Some(list) => list.len(),
            None => 0,
        },
        None => 0,
    }
}

/// How many values and how many literals writing a node's tags may store, as
/// `node_value_inserts` and `node_literal_inserts` count them; `None` where
/// either count passes `usize::MAX`. A caller checks with it that the pools
/// have room before writing a node.
pub fn node_pool_needs(tags: &InlinedTags<Node>) -> (r: Option<(usize, usize)>)
    ensures
        r matches Some((v, l)) ==> v == node_value_inserts(*tags) && l == node_literal_inserts(*tags),
        r is None ==> node_value_inserts(*tags) > usize::MAX || node_literal_inserts(*tags) > usize::MAX,
{
    let list = &tags.other;
    let mut values: u128 = 0;
    let mut literals: u128 = 0;
    let mut i: usize = 0;
    while i < list.len()
        invariant
            list@ == tags.other@,
            i <= list@.len(),
            values == literals_value_inserts(list@.take(i as int)),
            literals == literals_literal_inserts(list@.take(i as int)),
            values <= usize::MAX,
            literals <= usize::MAX,
        decreases list@.len() - i,
    {
        proof {
            assert(list@.take(i + 1).drop_last() =~= list@.take(i as int));
            lemma_inserts_grow(list@, i + 1);
        }
        let (v, l): (u128, u128) = match &list[i] {
            Literal::WellKnownKeyVar(WellKnownKeyVar::Address(a)) => {
                let n = arbitrary_count(a) as u128;
                (20 + 2 * n, n)
            },
            _ => (2, 0),
        };
        values = values + v;
        literals = literals + l + 1;
        assert(list@.take(i + 1).last() == list@[i as int]);
        assert(values == literals_value_inserts(list@.take(i + 1)));
        assert(literals == literals_literal_inserts(list@.take(i + 1)));
        if values > usize::MAX as u128 || literals > usize::MAX as u128 {
            proof {
                lemma_inserts_grow(tags.other@, i + 1);
                assert(literals_value_inserts(tags.other@) >= values);
                assert(literals_literal_inserts(tags.other@) >= literals);
                assert(node_value_inserts(*tags) >= literals_value_inserts(tags.other@));
                assert(node_literal_inserts(*tags) >= literals_literal_inserts(tags.other@));
            }
            return None;
        }
        i = i + 1;
    }
    proof {
        assert(list@.take(list@.len() as int) =~= list@);
    }
    let (v, l): (u128, u128) = match &tags.inline {
        Node::Multiple(_, m) => match &m.address {
            Some(a) => {
                let n = arbitrary_count(a) as u128;
                (20 + 2 * n, 1 + n)
            },
            None => (0, 0),
        },
        _ => (0, 0),
    };
    let values = values + 4 + v;
    let literals = literals + l;
    if values > usize::MAX as u128 || literals > usize::MAX as u128 {
        None
    } else {
        Some((values as usize, literals as usize))
    }
}

/// The counts of the first `k` literals of a list are no more than those of
/// the whole list.
proof fn lemma_inserts_grow(list: Seq<Literal>, k: int)
    requires
        0 <= k <= list.len(),
    ensures
        literals_value_inserts(list.take(k)) <= literals_value_inserts(list),
        literals_literal_inserts(list.take(k)) <= literals_literal_inserts(list),
    decreases list.len() - k,
{
    if k < list.len() {
        lemma_inserts_grow(list, k + 1);
        assert(list.take(k + 1).drop_last() =~= list.take(k));
    } else {
        assert(list.take(k) =~= list);
    }
}

/// Writing the folded groups only appends to the bytes written so far.
proof fn lemma_groups_append(m: InlinedNodeTags, st: NodeWriting)
    ensures
        node_groups(m, st).2.len() >= st.2.len(),
        node_groups(m, st).2.subrange(0, st.2.len() as int) == st.2,
{
    let s1 = match m.address {
        Some(a) => {
            let (b, n0, n1) = address_bytes(a, st.0, st.1);
            let (n0b, id) = pool_insert(n0, seq![0x80u8] + b);
            (n0b, n1, st.2 + varint_encoding(id as nat), st.3 | 0x80u8)
        },
        None => st,
    };
    let s2 = packed_step(s1, m.name, 0x10u8);
    let s3 = packed_step(s2, m.highway, 0x04u8);
    let s4 = packed_step(s3, m.place, 0x02u8);
    let s5 = packed_step(s4, m.operator, 0x01u8);
    assert(s1.2.subrange(0, st.2.len() as int) =~= st.2);
    assert(s2.2.subrange(0, s1.2.len() as int) =~= s1.2);
    assert(s3.2.subrange(0, s2.2.len() as int) =~= s2.2);
    assert(s4.2.subrange(0, s3.2.len() as int) =~= s3.2);
    assert(s5.2.subrange(0, s4.2.len() as int) =~= s4.2);
    assert(s5.2.subrange(0, st.2.len() as int) =~= st.2);
}

/// The header of a node with tags that are not folded, as its layout has it:
/// the first byte has bit 7 (a node) and bit 6 (some tags not folded) set and
/// the number of those tags, up to fifteen, in its low four bits; where there
/// are fifteen or more, their number follows the two header bytes as a
/// varint.
pub proof fn lemma_uninlined_node_header(tags: InlinedTags<Node>, m0: PoolModel, m1: PoolModel)
    ensures
        ({
            let b = node_with_uninlined_bytes(tags, m0, m1).0;
            let n = tags.other@.len();
            &&& b.len() >= 2
            &&& b[0] & 0xc0u8 == 0xc0u8
            &&& b[0] & 0x0fu8 == (if n < 15 { n } else { 15 })
            &&& n >= 15 ==> b.subrange(2, (2 + varint_encoding(n).len()) as int) == varint_encoding(n)
        }),
{
    let n = tags.other@.len();
    let pre = node_header(n);
    let st = match tags.inline {
        Node::Multiple(_, m) => node_groups(m, (m0, m1, pre, 0u8)),
        _ => (m0, m1, pre, 0u8),
    };
    match tags.inline {
        Node::Multiple(_, m) => {
            lemma_groups_append(m, (m0, m1, pre, 0u8));
        },
        _ => {},
    }
    assert(st.2.subrange(0, pre.len() as int) == pre);
    let lb = literals_insert(tags.other@, st.0, st.1).0;
    let b = st.2.update(1, st.3) + lb;
    assert(b[0] == st.2[0]);
    assert(st.2[0] == pre[0]);
    if n < 15 {
        let x = n as u8;
        assert(x < 15);
        assert((0xc0u8 | x) & 0xc0u8 == 0xc0u8 && (0xc0u8 | x) & 0x0fu8 == x) by (bit_vector)
            requires
                x < 15,
        ;
    } else {
        assert((0xc0u8 | 0x0fu8) & 0xc0u8 == 0xc0u8 && (0xc0u8 | 0x0fu8) & 0x0fu8 == 15u8) by (bit_vector);
        assert(b.subrange(2, (2 + varint_encoding(n).len()) as int) =~= pre.subrange(2, pre.len() as int));
    }
}

/// Whether every literal of `list` can be written.
pub open spec fn literals_serializable(list: Seq<Literal>) -> bool {
    forall|i: int| 0 <= i < list.len() ==> literal_serializable(#[trigger] list[i])
}

/// Whether a node's tags can be written: its literals can, its address can,
/// and it has no public-transport or shop group, which have no encoding.
pub open spec fn node_tags_serializable(tags: InlinedTags<Node>) -> bool {
    &&& literals_serializable(tags.other@)
    &&& (tags.inline matches Node::Multiple(_, m) ==> {
        &&& m.public_transit is None
        &&& m.shop is None
        &&& (m.address matches Some(a) ==> address_serializable(a))
    })
}

/// At most how many values writing a node's tags stores.
pub open spec fn node_value_inserts(tags: InlinedTags<Node>) -> nat {
    literals_value_inserts(tags.other@) + 4 + match tags.inline {
        Node::Multiple(_, m) => match m.address {
            Some(a) => address_value_inserts(a),
            None => 0,
        },
        _ => 0,
    }
}

/// At most how many literals writing a node's tags stores.
pub open spec fn node_literal_inserts(tags: InlinedTags<Node>) -> nat {
    literals_literal_inserts(tags.other@) + match tags.inline {
        Node::Multiple(_, m) => match m.address {
            Some(a) => 1 + match a.extra {
                Some(e) => e.arbitrary_len(),
                None => 0,
            },
            None => 0,
        },
        _ => 0,
    }
}

proof fn lemma_literal_sums(list: Seq<Literal>, i: int)
    requires
        0 <= i < list.len(),
    ensures
        literals_value_inserts(list.take(i)) + literal_value_inserts(list[i])
            <= literals_value_inserts(list),
        literals_literal_inserts(list.take(i)) + literal_literal_inserts(list[i]) + 1
            <= literals_literal_inserts(list),
    decreases list.len(),
{
    if i < list.len() - 1 {
        lemma_literal_sums(list.drop_last(), i);
        assert(list.drop_last().take(i) =~= list.take(i));
    } else {
        assert(list.drop_last() =~= list.take(i));
    }
}

/// Stores each literal of `list` in the literals pool and appends its id.
fn insert_literals(
    list: &Vec<Literal>,
    pools: &mut (LiteralPool<Literal>, LiteralPool<LiteralValue>),
    out: &mut Vec<u8>,
)
    requires
        literals_serializable(list@),
        old(pools).0.wf(),
        old(pools).1.wf(),
        old(pools).1.model().value_count + literals_value_inserts(list@) <= usize::MAX,
        old(pools).0.model().value_count + literals_literal_inserts(list@) <= usize::MAX,
    ensures
        final(pools).0.wf(),
        final(pools).1.wf(),
        ({
            let (b, m0, m1) = literals_insert(list@, old(pools).0.model(), old(pools).1.model());
            &&& final(out)@ == old(out)@ + b
            &&& final(pools).0.model() == m0
            &&& final(pools).1.model() == m1
        }),
{
    let ghost m0 = pools.0.model();
    let ghost m1 = pools.1.model();
    let ghost start = out@;
    let mut i: usize = 0;
    while i < list.len()
        invariant
            literals_serializable(list@),
            i <= list@.len(),
            pools.0.wf(),
            pools.1.wf(),
            m1.value_count + literals_value_inserts(list@) <= usize::MAX,
            m0.value_count + literals_literal_inserts(list@) <= usize::MAX,
            pools.0.model().value_count <= m0.value_count + literals_literal_inserts(list@.take(i as int)),
            pools.1.model().value_count <= m1.value_count + literals_value_inserts(list@.take(i as int)),
            ({
                let (b, n0, n1) = literals_insert(list@.take(i as int), m0, m1);
                &&& out@ == start + b
                &&& pools.0.model() == n0
                &&& pools.1.model() == n1
            }),
        decreases list@.len() - i,
    {
        proof {
            assert(list@.take(i + 1).drop_last() =~= list@.take(i as int));
            assert(list@.take(i + 1).last() == list@[i as int]);
            lemma_literal_sums(list@, i as int);
            assert(literal_serializable(list@[i as int]));
        }
        let id = LiteralPool::<Literal>::insert(pools, &list[i]);
        id.write_varint(out);
        i = i + 1;
    }
    assert(list@.take(list@.len() as int) =~= list@);
}

/// Stores a folded string tag and appends its id, setting its flag.
fn insert_packed(
    p: &Option<PackedString>,
    pool: &mut LiteralPool<LiteralValue>,
    blob: &mut Vec<u8>,
    byte: &mut u8,
    bit: u8,
    ghost_literals: Ghost<PoolModel>,
)
    requires
        old(pool).wf(),
        old(pool).model().value_count < usize::MAX,
    ensures
        final(pool).wf(),
        ({
            let st = packed_step((ghost_literals@, old(pool).model(), old(blob)@, *old(byte)), *p, bit);
            &&& final(pool).model() == st.1
            &&& final(blob)@ == st.2
            &&& *final(byte) == st.3
        }),
        final(pool).model().value_count <= old(pool).model().value_count + 1,
        final(blob)@.len() >= old(blob)@.len(),
{
    match p {
        Some(s) => {
            let bytes = s.packed_bytes();
            let id = insert_type_irrelevant(pool, bytes);
            id.write_varint(blob);
            *byte = *byte | bit;
        },
        None => {},
    }
}

/// Writes a node whose tags are not all folded: the header, the flags byte
/// for the folded groups, the ids of the folded groups, then the ids of the
/// other tags stored as literals.
pub fn write_node_with_uninlined_tags(
    write_to: &mut Vec<u8>,
    values: &mut (LiteralPool<Literal>, LiteralPool<LiteralValue>),
    tags: &InlinedTags<Node>,
)
    requires
        node_tags_serializable(*tags),
        old(values).0.wf(),
        old(values).1.wf(),
        old(values).1.model().value_count + node_value_inserts(*tags) <= usize::MAX,
        old(values).0.model().value_count + node_literal_inserts(*tags) <= usize::MAX,
    ensures
        final(values).0.wf(),
        final(values).1.wf(),
        ({
            let (b, m0, m1) = node_with_uninlined_bytes(*tags, old(values).0.model(), old(values).1.model());
            &&& final(write_to)@ == old(write_to)@ + b
            &&& final(values).0.model() == m0
            &&& final(values).1.model() == m1
        }),
{
    let typ = 0b11_00_0_000u8;
    let mut tags_byte = 0u8;
    let mut blob = Vec::<u8>::new();
    blob.push(typ);
    blob.push(0u8);
    let n = tags.other.len();
    if n < 0b1111 {
        blob.set(0, blob[0] | n as u8);
    } else {
        blob.set(0, blob[0] | 0b1111u8);
        n.write_varint(&mut blob);
    }
    assert(blob@ =~= node_header(n as nat));
    match &tags.inline {
        Node::Multiple(_, multiple_inlined) => {
            write_node_groups(multiple_inlined, values, &mut blob, &mut tags_byte);
        },
        _ => {},
    }
    blob.set(1, tags_byte);
    insert_literals(&tags.other, values, &mut blob);
    write_to.append(&mut blob);
}

/// Writes the folded groups of a node's tags.
fn write_node_groups(
    m: &InlinedNodeTags,
    values: &mut (LiteralPool<Literal>, LiteralPool<LiteralValue>),
    blob: &mut Vec<u8>,
    byte: &mut u8,
)
    requires
        old(blob)@.len() >= 2,
        m.public_transit is None,
        m.shop is None,
        m.address matches Some(a) ==> address_serializable(a),
        old(values).0.wf(),
        old(values).1.wf(),
        old(values).1.model().value_count + 4 + match m.address {
            Some(a) => address_value_inserts(a),
            None => 0,
        } <= usize::MAX,
        old(values).0.model().value_count + match m.address {
            Some(a) => 1 + match a.extra {
                Some(e) => e.arbitrary_len(),
                None => 0,
            },
            None => 0,
        } <= usize::MAX,
    ensures
        final(values).0.wf(),
        final(values).1.wf(),
        ({
            let st = node_groups(*m, (old(values).0.model(), old(values).1.model(), old(blob)@, *old(byte)));
            &&& final(values).0.model() == st.0
            &&& final(values).1.model() == st.1
            &&& final(blob)@ == st.2
            &&& *final(byte) == st.3
        }),
        final(values).0.model().value_count <= old(values).0.model().value_count + match m.address {
            Some(a) => 1 + match a.extra {
                Some(e) => e.arbitrary_len(),
                None => 0,
            },
            None => 0,
        },
        final(values).1.model().value_count <= old(values).1.model().value_count + 4 + match m.address {
            Some(a) => address_value_inserts(a),
            None => 0,
        },
        final(blob)@.len() >= old(blob)@.len(),
{
    if let Some(address) = &m.address {
        let mut lit_blob = Vec::new();
        lit_blob.push(0b1000_0000u8);
        address.minimally_serialize(&mut lit_blob, values);
        let id = insert_type_irrelevant(&mut values.0, lit_blob);
        id.write_varint(blob);
        *byte = *byte | 0b1000_0000u8;
    }
    let ghost lits = values.0.model();
    insert_packed(&m.name, &mut values.1, blob, byte, 0b0001_0000u8, Ghost(lits));
    insert_packed(&m.highway, &mut values.1, blob, byte, 0b0000_0100u8, Ghost(lits));
    insert_packed(&m.place, &mut values.1, blob, byte, 0b0000_0010u8, Ghost(lits));
    insert_packed(&m.operator, &mut values.1, blob, byte, 0b0000_0001u8, Ghost(lits));
}

/// The bytes of a node whose only tag is a common one: the node flag with
/// the tag's number in the low bits, then the node's id.
pub open spec fn single_inlined_bytes(tag: Option<NodeSingleInlined>, id: i64) -> Seq<u8> {
    let typ = match tag {
        Some(t) => 0x80u8 | t.spec_discriminant(),
        None => 0x80u8,
    };
    seq![typ] + varint_encoding(id.varint_value())
}

/// Writes a node whose tags are folded into one common tag.
pub fn write_node_only_single_inlined_tags(
    write_to: &mut Vec<u8>,
    tag: Option<NodeSingleInlined>,
    id: i64,
)
    ensures
        final(write_to)@ == old(write_to)@ + single_inlined_bytes(tag, id),
{
    let mut typ = 0b10_00_0_000u8;
    if let Some(tag) = tag {
        typ = typ | tag.discriminant();
    }
    let ghost start = write_to@;
    write_to.push(typ);
    id.write_varint(write_to);
    assert(write_to@ =~= start + single_inlined_bytes(tag, id));
}

/// The varint encodings of `items`, one after the other.
pub open spec fn varints_of(items: Seq<u64>) -> Seq<u8>
    decreases items.len(),
{
    if items.len() == 0 {
        Seq::empty()
    } else {
        varints_of(items.drop_last()) + varint_encoding(items.last() as nat)
    }
}

/// The bytes of a way, and the pools after: the way flag, the id, the count
/// of its tags and the ids of their literals, then the count of its nodes
/// and their ids.
pub open spec fn way_bytes(
    id: i64,
    tags: Seq<Literal>,
    children: Seq<u64>,
    m0: PoolModel,
    m1: PoolModel,
) -> (Seq<u8>, PoolModel, PoolModel) {
    let (lb, n0, n1) = literals_insert(tags, m0, m1);
    (
        seq![0x40u8] + varint_encoding(id.varint_value()) + varint_encoding(tags.len()) + lb
            + varint_encoding(children.len()) + varints_of(children),
        n0,
        n1,
    )
}

/// Writes a way: its id, the ids of its tags, stored as literals, and the
/// ids of its nodes. Only the tags that are not folded are written.
pub fn serialize_way<I>(
    write_to: &mut Vec<u8>,
    pools: &mut (LiteralPool<Literal>, LiteralPool<LiteralValue>),
    id: &i64,
    tags: &InlinedTags<I>,
    children: &Vec<u64>,
)
    requires
        literals_serializable(tags.other@),
        old(pools).0.wf(),
        old(pools).1.wf(),
        old(pools).1.model().value_count + literals_value_inserts(tags.other@) <= usize::MAX,
        old(pools).0.model().value_count + literals_literal_inserts(tags.other@) <= usize::MAX,
    ensures
        final(pools).0.wf(),
        final(pools).1.wf(),
        ({
            let (b, m0, m1) = way_bytes(
                *id,
                tags.other@,
                children@,
                old(pools).0.model(),
                old(pools).1.model(),
            );
            &&& final(write_to)@ == old(write_to)@ + b
            &&& final(pools).0.model() == m0
            &&& final(pools).1.model() == m1
        }),
{
    let ghost start = write_to@;
    write_to.push(0b01_00_0000u8);
    id.write_varint(write_to);
    tags.other.len().write_varint(write_to);
    insert_literals(&tags.other, pools, write_to);
    let ghost mid = write_to@;
    children.len().write_varint(write_to);
    let ghost counted = write_to@;
    let mut i: usize = 0;
    while i < children.len()
        invariant
            i <= children@.len(),
            write_to@ == counted + varints_of(children@.take(i as int)),
        decreases children@.len() - i,
    {
        proof {
            assert(children@.take(i + 1).drop_last() =~= children@.take(i as int));
        }
        children[i].write_varint(write_to);
        i = i + 1;
        assert(write_to@ =~= counted + varints_of(children@.take(i as int)));
    }
    assert(children@.take(children@.len() as int) =~= children@);
    assert(write_to@ =~= start + way_bytes(
        *id,
        tags.other@,
        children@,
        old(pools).0.model(),
        old(pools).1.model(),
    ).0);
}

/// An element in its compact form.
pub enum CompressedOsmData {
    Node { id: i64, tags: InlinedTags<Node>, point: BoundingBox<i32> },
    Way { bbox: BoundingBox<i32>, id: i64 },
    Relation { bbox: BoundingBox<i32>, id: i64 },
}

impl CompressedOsmData {
    pub fn bbox(&self) -> (r: &BoundingBox<i32>)
        ensures
            *r == match self {
                CompressedOsmData::Node { point, .. } => *point,
                CompressedOsmData::Way { bbox, .. } => *bbox,
                CompressedOsmData::Relation { bbox, .. } => *bbox,
            },
    {
        match self {
            CompressedOsmData::Node { point, .. } => point,
            CompressedOsmData::Way { bbox, .. } => bbox,
            CompressedOsmData::Relation { bbox, .. } => bbox,
        }
    }

    /// The kind and id of the element.
    pub fn osm_id(&self) -> (r: (OsmIdKind, i64))
        ensures
            r == match self {
                CompressedOsmData::Node { id, .. } => (OsmIdKind::Node, *id),
                CompressedOsmData::Way { id, .. } => (OsmIdKind::Way, *id),
                CompressedOsmData::Relation { id, .. } => (OsmIdKind::Relation, *id),
            },
    {
        match self {
            CompressedOsmData::Node { id, .. } => (OsmIdKind::Node, *id),
            CompressedOsmData::Way { id, .. } => (OsmIdKind::Way, *id),
            CompressedOsmData::Relation { id, .. } => (OsmIdKind::Relation, *id),
        }
    }
}

/// A node in its compact form: its tags folded, its position as a box of
/// one point, latitude first.
pub fn osm_node_to_compressed_node(id: i64, tags: Tags, decimicro_lat: i32, decimicro_lon: i32) -> (r:
    CompressedOsmData)
    requires
        tags.wf(),
    ensures
        r matches CompressedOsmData::Node { id: i, tags: t, point: p } && i == id
            && node_tags_folded(tags.view_pairs(), t) && p == (BoundingBox {
            x: decimicro_lat,
            y: decimicro_lon,
            x_end: decimicro_lat,
            y_end: decimicro_lon,
        }),
{
    let mut tags = tags;
    let inlined = inline_node_tags(&mut tags);
    let point = BoundingBox::from_point(decimicro_lat, decimicro_lon);
    CompressedOsmData::Node { id, tags: inlined, point }
}

/// Whether a node is written in its shortest form: no tags but one common one.
pub open spec fn node_is_single(tags: InlinedTags<Node>) -> bool {
    tags.other@.len() == 0 && tags.inline is Single
}

/// The bytes of a node, and the pools after.
pub open spec fn node_bytes(id: i64, tags: InlinedTags<Node>, m0: PoolModel, m1: PoolModel) -> (
    Seq<u8>,
    PoolModel,
    PoolModel,
) {
    if node_is_single(tags) {
        (single_inlined_bytes(Some(tags.inline->Single_0), id), m0, m1)
    } else {
        node_with_uninlined_bytes(tags, m0, m1)
    }
}

/// Writes a node: in its shortest form where its tags are one common tag.
pub fn serialize_node(
    write_to: &mut Vec<u8>,
    external_data: &mut (LiteralPool<Literal>, LiteralPool<LiteralValue>),
    id: &i64,
    tags: &InlinedTags<Node>,
    point: &BoundingBox<i32>,
)
    requires
        node_is_single(*tags) || node_tags_serializable(*tags),
        old(external_data).0.wf(),
        old(external_data).1.wf(),
        old(external_data).1.model().value_count + node_value_inserts(*tags) <= usize::MAX,
        old(external_data).0.model().value_count + node_literal_inserts(*tags) <= usize::MAX,
    ensures
        final(external_data).0.wf(),
        final(external_data).1.wf(),
        ({
            let (b, m0, m1) = node_bytes(*id, *tags, old(external_data).0.model(), old(external_data).1.model());
            &&& final(write_to)@ == old(write_to)@ + b
            &&& final(external_data).0.model() == m0
            &&& final(external_data).1.model() == m1
        }),
{
    if tags.other.len() == 0 && tags.inline.is_single() {
        match &tags.inline {
            Node::Single(t) => {
                write_node_only_single_inlined_tags(write_to, Some(*t), *id);
                return;
            },
            _ => {},
        }
    }
    write_node_with_uninlined_tags(write_to, external_data, tags)
}

impl CompressedOsmData {
    /// Writes the element: a node in full; a way or a relation is written as
    /// nothing yet.
    pub fn minimally_serialize(
        &self,
        write_to: &mut Vec<u8>,
        external_data: &mut (LiteralPool<Literal>, LiteralPool<LiteralValue>),
    )
        requires
            *self matches CompressedOsmData::Node { tags, .. } ==> {
                &&& node_is_single(tags) || node_tags_serializable(tags)
                &&& old(external_data).1.model().value_count + node_value_inserts(tags)
                    <= usize::MAX
                &&& old(external_data).0.model().value_count + node_literal_inserts(tags)
                    <= usize::MAX
            },
            old(external_data).0.wf(),
            old(external_data).1.wf(),
        ensures
            final(external_data).0.wf(),
            final(external_data).1.wf(),
            match *self {
                CompressedOsmData::Node { id, tags, .. } => {
                    let (b, m0, m1) = node_bytes(
                        id,
                        tags,
                        old(external_data).0.model(),
                        old(external_data).1.model(),
                    );
                    &&& final(write_to)@ == old(write_to)@ + b
                    &&& final(external_data).0.model() == m0
                    &&& final(external_data).1.model() == m1
                },
                _ => final(write_to)@ == old(write_to)@ && final(external_data).0.model() == old(
                    external_data,
                ).0.model() && final(external_data).1.model() == old(external_data).1.model(),
            },
    {
        match self {
            CompressedOsmData::Node { id, tags, point } => {
                serialize_node(write_to, external_data, id, tags, point)
            },
            _ => {},
        }
    }
}

/// The serialized form of an element, kept as bytes.
pub struct UncompressedOsmData(pub Vec<u8>);

impl UncompressedOsmData {
    /// Writes a node, or nothing for a way or relation, whose writing is not
    /// done yet.
    pub fn new(data: &CompressedOsmData, pool: &mut (LiteralPool<Literal>, LiteralPool<LiteralValue>)) -> (r: Self)
        requires
            *data matches CompressedOsmData::Node { tags, .. } ==> {
                &&& node_is_single(tags) || node_tags_serializable(tags)
                &&& old(pool).1.model().value_count + node_value_inserts(tags) <= usize::MAX
                &&& old(pool).0.model().value_count + node_literal_inserts(tags) <= usize::MAX
            },
            old(pool).0.wf(),
            old(pool).1.wf(),
        ensures
            final(pool).0.wf(),
            final(pool).1.wf(),
            match *data {
                CompressedOsmData::Node { id, tags, .. } => {
                    let (b, m0, m1) = node_bytes(id, tags, old(pool).0.model(), old(pool).1.model());
                    &&& r.0@ == b
                    &&& final(pool).0.model() == m0
                    &&& final(pool).1.model() == m1
                },
                _ => r.0@.len() == 0 && final(pool).0.model() == old(pool).0.model()
                    && final(pool).1.model() == old(pool).1.model(),
            },
    {
        let mut blob = Vec::new();
        data.minimally_serialize(&mut blob, pool);
        assert(*data matches CompressedOsmData::Node { id, tags, .. } ==> blob@ =~= node_bytes(
            id,
            tags,
            old(pool).0.model(),
            old(pool).1.model(),
        ).0);
        UncompressedOsmData(blob)
    }
}

impl SerializeMinimal for UncompressedOsmData {
    type ExternalData = ();

    open spec fn serializable(&self, external_data: ()) -> bool {
        true
    }

    /// The length of the bytes, then the bytes.
    open spec fn serialized(&self, external_data: ()) -> Seq<u8> {
        varint_encoding(self.0@.len()) + self.0@
    }

    fn minimally_serialize(&self, write_to: &mut Vec<u8>, external_data: ()) {
        self.0.len().write_varint(write_to);
        let mut i: usize = 0;
        let ghost start = write_to@;
        while i < self.0.len()
            invariant
                i <= self.0@.len(),
                write_to@ == start + self.0@.take(i as int),
            decreases self.0@.len() - i,
        {
            write_to.push(self.0[i]);
            i = i + 1;
            assert(write_to@ =~= start + self.0@.take(i as int));
        }
        assert(self.0@.take(self.0@.len() as int) =~= self.0@);
    }
}

impl UncompressedOsmData {
    /// Reads the length, then reads into a buffer that holds no bytes yet:
    /// defined only for a length of zero, which gives no bytes.
    pub fn deserialize_minimal(from: &mut &[u8]) -> (r: Result<UncompressedOsmData, DecodeError>)
        requires
            varint_decode(old(from)@, usize_modulus()) matches Some((len, n)) ==> len == 0,
        ensures
            match varint_decode(old(from)@, usize_modulus()) {
                Some((len, n)) => (r matches Ok(d) && d.0@.len() == 0) && final(from)@ == old(
                    from,
                )@.skip(n as int),
                None => r == Err::<UncompressedOsmData, DecodeError>(DecodeError::UnexpectedEof)
                    && final(from)@ == Seq::<u8>::empty(),
            },
    {
        match from_varint::<usize>(from) {
            Ok(_) => Ok(UncompressedOsmData(Vec::new())),
            Err(e) => Err(e),
        }
    }
}

} // verus!
