//! Reading back a node of a tree over points on a line, such as the tree that
//! maps element ids to their boxes.
//!
//! A node's two flags (split, holds items) live in a header byte shared by
//! four nodes. Its record holds, when it has items, their count as a varint,
//! then each item: the step from the previous item's key (the first from
//! zero) as a varint, then the value, read with the item's point.
use vstd::prelude::*;

use crate::serialize_min::{DecodeError, DeserializeFromMinimal, SerializeMinimal};
use crate::tree::node_layout::{bit_set, branch_id_creation, hex_string, read_header_flags};
use crate::primitive_serialization::lemma_integer_roundtrip;
use crate::tree::point_range::{DisregardWhenDeserializing, Point, PointRange};
use crate::varint::{
    from_varint, lemma_decode_bound, lemma_varint_roundtrip, usize_modulus, varint_decode,
    varint_encoding, ToVarint, VarintRoundtrip,
};
use core::marker::PhantomData;

verus! {

/// A half of a split node, not read yet: the name of its file, its id and
/// its range.
pub struct PointTreeHalf {
    pub name: String,
    pub id: u64,
    pub range: PointRange<u64>,
}

/// A node of a tree over points on a line: its range, its own items keyed
/// by their distance from the start of the range, its halves when it is
/// split, and its id.
pub struct PointTreeNode<V> {
    pub range: PointRange<u64>,
    pub children: Vec<(u64, V)>,
    pub halves: Option<(PointTreeHalf, PointTreeHalf)>,
    pub id: u64,
}

/// How many values a key has.
pub open spec fn key_modulus() -> nat {
    0x1_0000_0000_0000_0000
}

/// The flags of node `id` in its header byte: whether it is split, and
/// whether it holds items.
pub open spec fn node_flags(header_byte: u8, id: u64) -> (bool, bool) {
    (bit_set(header_byte, ((id % 4) * 2 + 1) as u8), bit_set(header_byte, ((id % 4) * 2) as u8))
}

/// What reading `n` items from the front of `bytes` gives, the previous key
/// being `last` and the node's range starting at `start`: the items and the
/// number of bytes they take, or the first error.
pub open spec fn items_read<V: DeserializeFromMinimal<ExternalData = Point<u64>>>(
    n: nat,
    last: u64,
    start: u64,
    bytes: Seq<u8>,
) -> Result<(Seq<(u64, V)>, nat), DecodeError>
    decreases n,
{
    if n == 0 {
        Ok((Seq::empty(), 0nat))
    } else {
        match varint_decode(bytes, key_modulus()) {
            None => Err(DecodeError::UnexpectedEof),
            Some((d, k)) => {
                let key = (last + (d as u64)) as u64;
                let rest = bytes.skip(k as int);
                match V::deserialized(rest, Point((start + key) as u64)) {
                    (Err(e), _) => Err(e),
                    (Ok(v), m) => match items_read::<V>((n - 1) as nat, key, start, rest.skip(m as int)) {
                        Ok((s, j)) => Ok((seq![(key, v)] + s, k + m + j)),
                        Err(e) => Err(e),
                    },
                }
            },
        }
    }
}

/// Whether reading `n` items is defined: no key and no point runs past the
/// largest `u64`, and each value can be read where it stands.
pub open spec fn items_readable<V: DeserializeFromMinimal<ExternalData = Point<u64>>>(
    n: nat,
    last: u64,
    start: u64,
    bytes: Seq<u8>,
) -> bool
    decreases n,
{
    n == 0 || match varint_decode(bytes, key_modulus()) {
        None => true,
        Some((d, k)) => {
            let key = last + (d as u64);
            let rest = bytes.skip(k as int);
            let point = Point((start + key) as u64);
            &&& key <= u64::MAX
            &&& start + key <= u64::MAX
            &&& V::deserializable(rest, point)
            &&& (V::deserialized(rest, point).0 is Ok ==> items_readable::<V>(
                (n - 1) as nat,
                key as u64,
                start,
                rest.skip(V::deserialized(rest, point).1 as int),
            ))
        },
    }
}

/// What reading the items of node `id` over `range` from the front of
/// `bytes` gives: none when its header flag says it holds none; else their
/// count, then the items.
pub open spec fn node_items_read<V: DeserializeFromMinimal<ExternalData = Point<u64>>>(
    header_byte: u8,
    id: u64,
    range: PointRange<u64>,
    bytes: Seq<u8>,
) -> Result<(Seq<(u64, V)>, nat), DecodeError> {
    if node_flags(header_byte, id).1 {
        match varint_decode(bytes, usize_modulus()) {
            None => Err(DecodeError::UnexpectedEof),
            Some((n, k)) => match items_read::<V>(((n as usize) as nat), 0, range.0, bytes.skip(k as int)) {
                Ok((s, j)) => Ok((s, k + j)),
                Err(e) => Err(e),
            },
        }
    } else {
        Ok((Seq::empty(), 0nat))
    }
}

/// Whether reading the items of a node is defined.
pub open spec fn node_readable<V: DeserializeFromMinimal<ExternalData = Point<u64>>>(
    header_byte: u8,
    id: u64,
    range: PointRange<u64>,
    bytes: Seq<u8>,
) -> bool {
    node_flags(header_byte, id).1 ==> match varint_decode(bytes, usize_modulus()) {
        None => true,
        Some((n, k)) => items_readable::<V>(((n as usize) as nat), 0, range.0, bytes.skip(k as int)),
    }
}

/// The items read so far, put before the result of reading the rest.
pub open spec fn prepend<V>(done: Seq<(u64, V)>, used: nat, rest: Result<(Seq<(u64, V)>, nat), DecodeError>) -> Result<
    (Seq<(u64, V)>, nat),
    DecodeError,
> {
    match rest {
        Ok((s, j)) => Ok((done + s, used + j)),
        Err(e) => Err(e),
    }
}

/// The half of a node over `range` on side `bit`: its file name and id come
/// from the node's id, its range is the lower or upper half of `range`.
pub open spec fn half_of(h: PointTreeHalf, id: u64, range: PointRange<u64>, bit: u64) -> bool {
    let m = ((range.0 / 2) + (range.1 / 2)) as u64;
    &&& h.id == (id << 1u64) | bit
    &&& h.name@ == hex_string(h.id as nat)
    &&& h.range == if bit == 0 {
        PointRange(range.0, m)
    } else {
        PointRange(m, range.1)
    }
}

/// Reads node `id` over `range`, whose header byte is `header_byte`, from the
/// front of `from`, and moves `from` past its record. Its items keep the
/// order in which they were written, which is that of their keys; its
/// halves, when its split flag is set, are named and placed but not read.
pub fn read_point_tree_node<V: DeserializeFromMinimal<ExternalData = Point<u64>>>(
    header_byte: u8,
    id: u64,
    range: PointRange<u64>,
    from: &mut &[u8],
) -> (r: Result<PointTreeNode<V>, DecodeError>)
    requires
        id != 0,
        node_readable::<V>(header_byte, id, range, old(from)@),
    ensures
        match node_items_read::<V>(header_byte, id, range, old(from)@) {
            Err(e) => r == Err::<PointTreeNode<V>, DecodeError>(e),
            Ok((items, used)) => r matches Ok(node) && {
                &&& node.range == range
                &&& node.id == id
                &&& node.children@ == items
                &&& (node.halves is Some <==> node_flags(header_byte, id).0)
                &&& (node.halves matches Some((lh, rh)) ==> half_of(lh, id, range, 0) && half_of(
                    rh,
                    id,
                    range,
                    1,
                ))
                &&& used <= old(from)@.len()
                &&& final(from)@ == old(from)@.skip(used as int)
            },
        },
{
    let (has_left_right, has_children) = read_header_flags(header_byte, (id % 4) * 2);
    proof {
        assert((id % 4) * 2 + 1 == ((id % 4) * 2 + 1) as u8);
    }
    let ghost bytes_start = from@;
    let child_len: usize = if has_children {
        proof {
            lemma_decode_bound(from@, usize_modulus());
        }
        match from_varint::<usize>(from) {
            Ok(n) => n,
            Err(e) => return Err(e),
        }
    } else {
        0
    };
    let ghost bytes0 = from@;
    let ghost counted: nat = (bytes_start.len() - bytes0.len()) as nat;
    let ghost total = items_read::<V>(child_len as nat, 0, range.0, bytes0);
    proof {
        if has_children {
            assert(bytes0 == bytes_start.skip(counted as int));
        }
    }
    let mut children: Vec<(u64, V)> = Vec::new();
    let mut last: u64 = 0;
    let mut i: usize = 0;
    let ghost mut used: nat = 0;
    while i < child_len
        invariant
            i <= child_len,
            used <= bytes0.len(),
            from@ == bytes0.skip(used as int),
            items_readable::<V>((child_len - i) as nat, last, range.0, from@),
            total == prepend(children@, used, items_read::<V>((child_len - i) as nat, last, range.0, from@)),
            bytes_start == old(from)@,
            node_items_read::<V>(header_byte, id, range, bytes_start) == match total {
                Ok((s, j)) => Ok((s, counted + j)),
                Err(e) => Err::<(Seq<(u64, V)>, nat), DecodeError>(e),
            },
        decreases child_len - i,
    {
        let ghost cur = from@;
        proof {
            lemma_decode_bound(cur, key_modulus());
        }
        let delta: u64 = match from_varint::<u64>(from) {
            Ok(d) => d,
            Err(e) => {
                assert(items_read::<V>((child_len - i) as nat, last, range.0, cur) is Err);
                return Err(e);
            },
        };
        let ghost k: nat = (cur.len() - from@.len()) as nat;
        let ghost after_key = from@;
        let key = last + delta;
        let point = Point(range.0 + key);
        let item = match V::deserialize_minimal(from, point) {
            Ok(v) => v,
            Err(e) => {
                assert(after_key == cur.skip(k as int));
                assert(items_read::<V>((child_len - i) as nat, last, range.0, cur) == Err::<
                    (Seq<(u64, V)>, nat),
                    DecodeError,
                >(e));
                return Err(e);
            },
        };
        let ghost m = V::deserialized(after_key, point).1;
        proof {
            assert(after_key == cur.skip(k as int));
            assert(from@ == bytes0.skip((used + k + m) as int));
            let rest_items = items_read::<V>((child_len - i - 1) as nat, key, range.0, from@);
            assert(items_read::<V>((child_len - i) as nat, last, range.0, cur) == match rest_items {
                Ok((s, j)) => Ok((seq![(key, item)] + s, k + m + j)),
                Err(e) => Err(e),
            });
            match rest_items {
                Ok((s, j)) => {
                    assert(children@.push((key, item)) + s =~= children@ + (seq![(key, item)] + s));
                },
                Err(e) => {},
            }
            used = used + k + m;
        }
        children.push((key, item));
        last = key;
        i = i + 1;
    }
    let halves = if has_left_right {
        let (left_name, left_id) = branch_id_creation(id, 0);
        let (right_name, right_id) = branch_id_creation(id, 1);
        let (left_range, right_range) = range.split_evenly_on_dimension(&());
        Some((
            PointTreeHalf { name: left_name, id: left_id, range: left_range },
            PointTreeHalf { name: right_name, id: right_id, range: right_range },
        ))
    } else {
        None
    };
    proof {
        assert(children@ + Seq::<(u64, V)>::empty() =~= children@);
        if has_children {
            assert(bytes0 == bytes_start.skip(counted as int));
            assert(bytes_start.skip(counted as int).skip(used as int) =~= bytes_start.skip((counted + used) as int));
        } else {
            assert(bytes_start.skip(0) =~= bytes_start);
        }
    }
    Ok(PointTreeNode { range, children, halves, id })
}

/// The bytes of items from the first of `children` on, the previous key
/// being `last`: each item's step from the previous key as a varint, then its
/// value.
pub open spec fn steps_written<V: SerializeMinimal<ExternalData = ()>>(
    children: Seq<(u64, V)>,
    last: u64,
) -> Seq<u8>
    decreases children.len(),
{
    if children.len() == 0 {
        Seq::empty()
    } else {
        varint_encoding((children[0].0 - last) as nat) + children[0].1.serialized(()) + steps_written(
            children.drop_first(),
            children[0].0,
        )
    }
}

/// The bytes of the items of a node: nothing for none; else their count as a
/// varint, then the items, the first key stepping from zero.
pub open spec fn items_written<V: SerializeMinimal<ExternalData = ()>>(children: Seq<(u64, V)>) -> Seq<u8> {
    if children.len() == 0 {
        Seq::empty()
    } else {
        varint_encoding(children.len()) + steps_written(children, 0)
    }
}

/// Whether the keys of `children` never go down.
pub open spec fn keys_ascending<V>(children: Seq<(u64, V)>) -> bool {
    forall|i: int, j: int| 0 <= i <= j < children.len() ==> children[i].0 <= children[j].0
}

/// Appends the items of a node to `write_to`. The node's flags go to its
/// header byte, which `set_header_flags` computes.
pub fn write_point_tree_items<V: SerializeMinimal<ExternalData = ()>>(
    children: &[(u64, V)],
    write_to: &mut Vec<u8>,
)
    requires
        keys_ascending(children@),
        forall|i: int| 0 <= i < children@.len() ==> (#[trigger] children@[i]).1.serializable(()),
    ensures
        final(write_to)@ == old(write_to)@ + items_written(children@),
{
    if children.len() == 0 {
        return;
    }
    children.len().write_varint(write_to);
    let ghost start = old(write_to)@;
    let mut last: u64 = 0;
    let mut i: usize = 0;
    proof {
        assert(children@.skip(0) =~= children@);
    }
    while i < children.len()
        invariant
            0 <= i <= children@.len(),
            children@.len() > 0,
            keys_ascending(children@),
            forall|k: int| 0 <= k < children@.len() ==> (#[trigger] children@[k]).1.serializable(()),
            i > 0 ==> last == children@[i - 1].0,
            i == 0 ==> last == 0,
            write_to@ + steps_written(children@.skip(i as int), last) == start + items_written(
                children@,
            ),
        decreases children@.len() - i,
    {
        let key = children[i].0;
        let delta = key - last;
        let ghost before = write_to@;
        proof {
            assert(children@.skip(i as int).drop_first() =~= children@.skip(i + 1));
            assert(children@.skip(i as int)[0] == children@[i as int]);
        }
        delta.write_varint(write_to);
        children[i].1.minimally_serialize(write_to, ());
        proof {
            let tail = steps_written(children@.skip(i + 1), key);
            assert(write_to@ + tail =~= before + (varint_encoding(delta as nat)
                + children@[i as int].1.serialized(()) + tail));
        }
        last = key;
        i = i + 1;
    }
    proof {
        assert(children@.skip(children@.len() as int) =~= Seq::<(u64, V)>::empty());
        assert(write_to@ + Seq::<u8>::empty() =~= write_to@);
    }
}

/// Whether `v` reads back as itself at point `p`, from its bytes followed
/// by any others, taking just its bytes.
pub open spec fn reads_back<V: SerializeMinimal<ExternalData = ()> + DeserializeFromMinimal<
    ExternalData = Point<u64>,
>>(v: V, p: Point<u64>) -> bool {
    forall|r: Seq<u8>|
        #![trigger V::deserialized(v.serialized(()) + r, p)]
        V::deserializable(v.serialized(()) + r, p) && V::deserialized(v.serialized(()) + r, p) == (
            Ok::<V, DecodeError>(v),
            v.serialized(()).len(),
        )
}

/// Items written from `last` on read back as themselves, followed by any
/// bytes, where each key is above the one before it, no point runs past the
/// largest `u64`, and each value reads back as itself.
proof fn lemma_steps_read_back<V: SerializeMinimal<ExternalData = ()> + DeserializeFromMinimal<
    ExternalData = Point<u64>,
>>(children: Seq<(u64, V)>, last: u64, start: u64, rest: Seq<u8>)
    requires
        forall|i: int, j: int| 0 <= i < j < children.len() ==> children[i].0 < children[j].0,
        children.len() > 0 ==> last < children[0].0,
        forall|i: int| 0 <= i < children.len() ==> start + (#[trigger] children[i]).0 <= u64::MAX,
        forall|i: int|
            0 <= i < children.len() ==> reads_back((#[trigger] children[i]).1, Point((start + children[i].0) as u64)),
    ensures
        items_readable::<V>(children.len(), last, start, steps_written(children, last) + rest),
        items_read::<V>(children.len(), last, start, steps_written(children, last) + rest) == Ok::<
            (Seq<(u64, V)>, nat),
            DecodeError,
        >((children, steps_written(children, last).len())),
    decreases children.len(),
{
    if children.len() == 0 {
        assert(children =~= Seq::<(u64, V)>::empty());
    } else {
        let key = children[0].0;
        let d = (key - last) as nat;
        let v = children[0].1;
        let ser = v.serialized(());
        let tail = children.drop_first();
        let tail_bytes = steps_written(tail, key);
        let all = steps_written(children, last) + rest;
        assert(all =~= varint_encoding(d) + (ser + (tail_bytes + rest)));
        lemma_varint_roundtrip(d, ser + (tail_bytes + rest), key_modulus());
        let k = varint_encoding(d).len();
        assert(all.skip(k as int) =~= ser + (tail_bytes + rest));
        assert((d as u64) == key - last);
        let p = Point((start + key) as u64);
        assert(reads_back(v, p));
        assert(V::deserialized(ser + (tail_bytes + rest), p) == (Ok::<V, DecodeError>(v), ser.len()));
        assert((ser + (tail_bytes + rest)).skip(ser.len() as int) =~= tail_bytes + rest);
        assert forall|i: int| 0 <= i < tail.len() implies reads_back((#[trigger] tail[i]).1, Point((start + tail[i].0) as u64)) by {
            assert(tail[i] == children[i + 1]);
        }
        assert forall|i: int, j: int| 0 <= i < j < tail.len() implies tail[i].0 < tail[j].0 by {
            assert(tail[i] == children[i + 1] && tail[j] == children[j + 1]);
        }
        assert forall|i: int| 0 <= i < tail.len() implies start + (#[trigger] tail[i]).0 <= u64::MAX by {
            assert(tail[i] == children[i + 1]);
        }
        if tail.len() > 0 {
            assert(tail[0] == children[1]);
        }
        lemma_steps_read_back::<V>(tail, key, start, rest);
        assert(seq![(key, v)] + tail =~= children);
        assert(steps_written(children, last).len() == k + ser.len() + tail_bytes.len());
    }
}

/// Reading a node's items gives back the items that were written, whatever
/// follows them: for a node whose header byte has its items flag set, whose
/// keys rise strictly from above zero, whose points do not run past the
/// largest `u64`, and whose values each read back as themselves.
pub proof fn lemma_point_node_read_back<V: SerializeMinimal<ExternalData = ()> + DeserializeFromMinimal<
    ExternalData = Point<u64>,
>>(
    header_byte: u8,
    id: u64,
    range: PointRange<u64>,
    children: Seq<(u64, V)>,
    rest: Seq<u8>,
)
    requires
        node_flags(header_byte, id).1,
        children.len() < usize_modulus(),
        children.len() > 0 ==> children[0].0 > 0,
        forall|i: int, j: int| 0 <= i < j < children.len() ==> children[i].0 < children[j].0,
        forall|i: int| 0 <= i < children.len() ==> range.0 + (#[trigger] children[i]).0 <= u64::MAX,
        forall|i: int|
            0 <= i < children.len() ==> reads_back((#[trigger] children[i]).1, Point((range.0 + children[i].0) as u64)),
    ensures
        children.len() > 0 ==> {
            &&& node_readable::<V>(header_byte, id, range, items_written(children) + rest)
            &&& node_items_read::<V>(header_byte, id, range, items_written(children) + rest) == Ok::<
                (Seq<(u64, V)>, nat),
                DecodeError,
            >((children, items_written(children).len()))
        },
{
    if children.len() > 0 {
        let n = children.len();
        let steps = steps_written(children, 0);
        let all = items_written(children) + rest;
        assert(all =~= varint_encoding(n) + (steps + rest));
        lemma_varint_roundtrip(n, steps + rest, usize_modulus());
        assert(all.skip(varint_encoding(n).len() as int) =~= steps + rest);
        assert(((n as usize) as nat) == n);
        lemma_steps_read_back::<V>(children, 0, range.0, rest);
    }
}

/// A cached integer other than zero reads back as itself at any point: the
/// values of the tree that maps ids to boxes meet the condition of
/// `lemma_point_node_read_back` this way.
pub proof fn lemma_cached_integer_reads_back<T: VarintRoundtrip>(x: T, p: Point<u64>)
    requires
        x.varint_value() > 0,
    ensures
        reads_back(DisregardWhenDeserializing::<Point<u64>, T>(x, PhantomData), p),
{
    let v = DisregardWhenDeserializing::<Point<u64>, T>(x, PhantomData);
    assert forall|r: Seq<u8>|
        #![trigger DisregardWhenDeserializing::<Point<u64>, T>::deserialized(v.serialized(()) + r, p)]
        DisregardWhenDeserializing::<Point<u64>, T>::deserializable(v.serialized(()) + r, p)
            && DisregardWhenDeserializing::<Point<u64>, T>::deserialized(v.serialized(()) + r, p) == (
            Ok::<DisregardWhenDeserializing<Point<u64>, T>, DecodeError>(v),
            v.serialized(()).len(),
        ) by {
        lemma_integer_roundtrip(x, r);
    }
}

} // verus!
