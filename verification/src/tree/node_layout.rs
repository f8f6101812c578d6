//! How the nodes of a tree of boxes are numbered, flagged and split.
//!
//! The root is node 1; the children of node `id` are `2 * id` and
//! `2 * id + 1`, so the depth of a node is the position of its highest bit.
//! Each node has two flag bits in a shared header file, four nodes to a byte:
//! whether it was split in two, and whether it holds items of its own.
use vstd::prelude::*;

use crate::text::push_char;
use crate::tree::bbox::BoundingBox;

verus! {

/// The id of the child of node `id` on side `direction_bit`.
pub open spec fn child_id(id: nat, direction_bit: nat) -> nat {
    2 * id + direction_bit
}

/// The lowercase hexadecimal digit for `d`.
pub open spec fn hex_digit(d: nat) -> char {
    if d < 10 {
        ('0' as nat + d) as char
    } else {
        ('a' as nat + d - 10) as char
    }
}

/// `n` in lowercase hexadecimal, without leading zeros.
pub open spec fn hex_string(n: nat) -> Seq<char>
    decreases n,
{
    if n < 16 {
        seq![hex_digit(n)]
    } else {
        hex_string(n / 16).push(hex_digit(n % 16))
    }
}

fn hex_digit_char(d: u64) -> (r: char)
    requires
        d < 16,
    ensures
        r == hex_digit(d as nat),
{
    if d < 10 {
        ((48u8 + d as u8) as char)
    } else {
        ((97u8 + (d - 10) as u8) as char)
    }
}

/// Appends `n` in lowercase hexadecimal.
fn push_hex(s: &mut String, n: u64)
    ensures
        final(s)@ == old(s)@ + hex_string(n as nat),
    decreases n,
{
    if n >= 16 {
        push_hex(s, n / 16);
    }
    let c = hex_digit_char(n % 16);
    push_char(s, c);
    proof {
        if n >= 16 {
            assert(hex_string(n as nat) == hex_string((n / 16) as nat).push(hex_digit(
                (n % 16) as nat,
            )));
        }
    }
}

/// The file name and id of the child of node `id` on side `direction_bit`:
/// the id is `id` shifted left with the side in the lowest bit, the name is
/// that id in lowercase hexadecimal.
pub fn branch_id_creation(id: u64, direction_bit: u64) -> (r: (String, u64))
    ensures
        r.1 == (id << 1u64) | direction_bit,
        id < 0x8000_0000_0000_0000 && direction_bit <= 1 ==> r.1 == child_id(
            id as nat,
            direction_bit as nat,
        ),
        r.0@ == hex_string(r.1 as nat),
{
    assert(id < 0x8000_0000_0000_0000u64 && direction_bit <= 1 ==> (id << 1u64) | direction_bit
        == 2 * id + direction_bit) by (bit_vector);
    let new_id = (id << 1u64) | direction_bit;
    let mut name = String::new();
    push_hex(&mut name, new_id);
    assert(name@ =~= hex_string(new_id as nat));
    (name, new_id)
}

/// The depth of node `n`: the position of its highest bit.
pub open spec fn depth(n: nat) -> nat
    decreases n,
{
    if n <= 1 {
        0
    } else {
        1 + depth(n / 2)
    }
}

/// The axis that node `id` splits on, out of `dimension_count`: the axes
/// take turns from the root down.
pub fn axis_index(id: u64, dimension_count: usize) -> (r: usize)
    requires
        id > 0,
        dimension_count > 0,
    ensures
        r == depth(id as nat) % (dimension_count as nat),
{
    let mut n = id;
    let mut d: usize = 0;
    assert(pow2(0) == 1);
    while n > 1
        invariant
            n >= 1,
            d + depth(n as nat) == depth(id as nat),
            d < 64,
            n as nat * pow2(d as nat) <= id,
        decreases n,
    {
        proof {
            assert(n as nat * pow2(d as nat) >= 2 * pow2(d as nat)) by (nonlinear_arith)
                requires
                    n >= 2,
            ;
            lemma_pow2_bound(d as nat, id as nat);
            assert((n / 2) as nat * pow2((d + 1) as nat) <= n as nat * pow2(d as nat)) by (
            nonlinear_arith)
                requires
                    pow2((d + 1) as nat) == 2 * pow2(d as nat),
            ;
        }
        n = n / 2;
        d = d + 1;
    }
    d % dimension_count
}

/// Two to the power `e`.
pub open spec fn pow2(e: nat) -> nat
    decreases e,
{
    if e == 0 {
        1
    } else {
        2 * pow2((e - 1) as nat)
    }
}

proof fn lemma_pow2_bound(d: nat, id: nat)
    requires
        2 * pow2(d) <= id,
        id < 0x1_0000_0000_0000_0000,
    ensures
        d < 63,
        pow2(d + 1) == 2 * pow2(d),
{
    if d >= 63 {
        lemma_pow2_mono(63, d);
        assert(pow2(63) == 0x8000_0000_0000_0000) by {
            reveal_with_fuel(pow2, 64);
        }
    }
}

proof fn lemma_pow2_mono(a: nat, b: nat)
    requires
        a <= b,
    ensures
        pow2(a) <= pow2(b),
    decreases b,
{
    if a < b {
        lemma_pow2_mono(a, (b - 1) as nat);
    }
}

/// The children of a node are one level deeper than the node: on a split
/// the next axis takes over.
pub proof fn lemma_children_take_the_next_axis(id: nat, direction_bit: nat, dimension_count: nat)
    requires
        id > 0,
        direction_bit <= 1,
        dimension_count > 0,
    ensures
        depth(child_id(id, direction_bit)) == depth(id) + 1,
        depth(child_id(id, direction_bit)) % dimension_count == (depth(id) % dimension_count + 1)
            % dimension_count,
{
    assert(child_id(id, direction_bit) / 2 == id);
    vstd::arithmetic::div_mod::lemma_add_mod_noop(depth(id) as int, 1, dimension_count as int);
    vstd::arithmetic::div_mod::lemma_mod_twice(depth(id) as int, dimension_count as int);
    if dimension_count > 1 {
        vstd::arithmetic::div_mod::lemma_small_mod(1, dimension_count);
    }
}

/// Where the flags of node `id` are: the byte `id / 4` of the header file,
/// and the bit `(id % 4) * 2` within it.
pub fn header_slot(id: u64) -> (r: (u64, u64))
    ensures
        r.0 == id / 4,
        r.1 == (id % 4) * 2,
        r.1 < 8 && r.1 % 2 == 0,
{
    (id / 4, (id % 4) * 2)
}

/// Whether bit `bit` of `b` is set.
pub open spec fn bit_set(b: u8, bit: u8) -> bool {
    (b >> bit) & 1u8 == 1u8
}

/// Whether `offset` is where a node's pair of flags starts in a byte.
pub open spec fn flag_offset(offset: u64) -> bool {
    offset < 8 && offset % 2 == 0
}

/// Sets the flags of a node in its header byte: the split flag one bit above
/// `offset_in_byte`, the items flag at it. Flags already set stay set.
pub fn set_header_flags(b: u8, offset_in_byte: u64, has_left_right: bool, has_children: bool) -> (r:
    u8)
    requires
        flag_offset(offset_in_byte),
    ensures
        r == b | ((if has_left_right {
            1u8
        } else {
            0u8
        }) << (offset_in_byte + 1) as u8) | ((if has_children {
            1u8
        } else {
            0u8
        }) << offset_in_byte as u8),
{
    let o = offset_in_byte as u8;
    let lr: u8 = if has_left_right {
        1
    } else {
        0
    };
    let ch: u8 = if has_children {
        1
    } else {
        0
    };
    b | (lr << (o + 1)) | (ch << o)
}

/// Reads the flags of a node from its header byte: whether it was split,
/// and whether it holds items.
pub fn read_header_flags(b: u8, offset_in_byte: u64) -> (r: (bool, bool))
    requires
        flag_offset(offset_in_byte),
    ensures
        r.0 == bit_set(b, (offset_in_byte + 1) as u8),
        r.1 == bit_set(b, offset_in_byte as u8),
{
    let o = offset_in_byte as u8;
    ((b >> (o + 1)) & 1 == 1, (b >> o) & 1 == 1)
}

/// Flags read back as they were set, along with those set before; the
/// flags of the other nodes sharing the byte are left as they were.
pub proof fn lemma_header_flags_read_back(
    b: u8,
    offset: u64,
    other: u64,
    has_left_right: bool,
    has_children: bool,
)
    requires
        flag_offset(offset),
        flag_offset(other),
        other != offset,
    ensures
        ({
            let lr: u8 = if has_left_right {
                1u8
            } else {
                0u8
            };
            let ch: u8 = if has_children {
                1u8
            } else {
                0u8
            };
            let w = b | (lr << (offset + 1) as u8) | (ch << offset as u8);
            &&& bit_set(w, (offset + 1) as u8) == (bit_set(b, (offset + 1) as u8)
                || has_left_right)
            &&& bit_set(w, offset as u8) == (bit_set(b, offset as u8) || has_children)
            &&& bit_set(w, (other + 1) as u8) == bit_set(b, (other + 1) as u8)
            &&& bit_set(w, other as u8) == bit_set(b, other as u8)
        }),
{
    let lr: u8 = if has_left_right {
        1u8
    } else {
        0u8
    };
    let ch: u8 = if has_children {
        1u8
    } else {
        0u8
    };
    let o = offset as u8;
    let p = other as u8;
    assert(o < 8 && o % 2 == 0 && p < 8 && p % 2 == 0 && o != p);
    let w = b | (lr << (o + 1)) | (ch << o);
    assert(((w >> (o + 1)) & 1u8 == 1u8) == (((b >> (o + 1)) & 1u8 == 1u8) || lr == 1u8)
        && ((w >> o) & 1u8 == 1u8) == (((b >> o) & 1u8 == 1u8) || ch == 1u8) && ((w >> (p + 1))
        & 1u8 == 1u8) == ((b >> (p + 1)) & 1u8 == 1u8) && ((w >> p) & 1u8 == 1u8) == ((b >> p)
        & 1u8 == 1u8)) by (bit_vector)
        requires
            o < 8,
            o % 2 == 0,
            p < 8,
            p % 2 == 0,
            o != p,
            lr <= 1,
            ch <= 1,
            w == b | (lr << (o + 1)) | (ch << o),
    ;
    assert((offset + 1) as u8 == o + 1);
    assert((other + 1) as u8 == p + 1);
}

/// Whether box `outer` takes in box `inner`, as the boxes' `contains` has it:
/// the left edge of `outer` is compared with the lower edge of `inner`.
pub open spec fn boxed_in(outer: BoundingBox<i32>, inner: BoundingBox<i32>) -> bool {
    outer.y <= inner.y && outer.x <= inner.y && outer.x_end >= inner.x_end && outer.y_end
        >= inner.y_end
}

/// Whether an item goes to the left half.
pub open spec fn goes_left<T>(left: BoundingBox<i32>, c: (BoundingBox<i32>, T)) -> bool {
    boxed_in(left, c.0)
}

/// Whether an item goes to the right half: it does not fit the left one.
pub open spec fn goes_right<T>(left: BoundingBox<i32>, right: BoundingBox<i32>, c: (
    BoundingBox<i32>,
    T,
)) -> bool {
    !boxed_in(left, c.0) && boxed_in(right, c.0)
}

/// Whether an item stays with the node: it fits neither half.
pub open spec fn stays<T>(left: BoundingBox<i32>, right: BoundingBox<i32>, c: (
    BoundingBox<i32>,
    T,
)) -> bool {
    !boxed_in(left, c.0) && !boxed_in(right, c.0)
}

/// Deals the items of a node that is split in two between the halves: those
/// that fit the left half go left, those that fit only the right half go
/// right, and the others stay; each keeps its order.
pub fn split_children<T>(
    children: Vec<(BoundingBox<i32>, T)>,
    left_bb: &BoundingBox<i32>,
    right_bb: &BoundingBox<i32>,
) -> (r: (Vec<(BoundingBox<i32>, T)>, Vec<(BoundingBox<i32>, T)>, Vec<(BoundingBox<i32>, T)>))
    ensures
        r.0@ == children@.filter(|c: (BoundingBox<i32>, T)| goes_left(*left_bb, c)),
        r.1@ == children@.filter(|c: (BoundingBox<i32>, T)| stays(*left_bb, *right_bb, c)),
        r.2@ == children@.filter(|c: (BoundingBox<i32>, T)| goes_right(*left_bb, *right_bb, c)),
{
    let ghost all = children@;
    let ghost lb = *left_bb;
    let ghost rb = *right_bb;
    let ghost pl = |c: (BoundingBox<i32>, T)| goes_left(lb, c);
    let ghost pb = |c: (BoundingBox<i32>, T)| stays(lb, rb, c);
    let ghost pr = |c: (BoundingBox<i32>, T)| goes_right(lb, rb, c);
    let mut left: Vec<(BoundingBox<i32>, T)> = Vec::new();
    let mut both: Vec<(BoundingBox<i32>, T)> = Vec::new();
    let mut right: Vec<(BoundingBox<i32>, T)> = Vec::new();
    proof {
        assert(all.take(0) =~= Seq::<(BoundingBox<i32>, T)>::empty());
        reveal(Seq::filter);
    }
    for c in it: children.into_iter()
        invariant
            it.seq() == all,
            lb == *left_bb,
            rb == *right_bb,
            pl == (|c: (BoundingBox<i32>, T)| goes_left(lb, c)),
            pb == (|c: (BoundingBox<i32>, T)| stays(lb, rb, c)),
            pr == (|c: (BoundingBox<i32>, T)| goes_right(lb, rb, c)),
            left@ == all.take(it.index() as int).filter(pl),
            both@ == all.take(it.index() as int).filter(pb),
            right@ == all.take(it.index() as int).filter(pr),
    {
        let ghost k = it.index() as int;
        proof {
            assert(all.take(k + 1) =~= all.take(k).push(c));
            all.take(k).lemma_filter_push(c, pl);
            all.take(k).lemma_filter_push(c, pb);
            all.take(k).lemma_filter_push(c, pr);
        }
        if left_bb.contains(&c.0) {
            assert(pl(c) && !pb(c) && !pr(c));
            left.push(c);
        } else if right_bb.contains(&c.0) {
            assert(!pl(c) && !pb(c) && pr(c));
            right.push(c);
        } else {
            assert(!pl(c) && pb(c) && !pr(c));
            both.push(c);
        }
    }
    proof {
        assert(all.take(all.len() as int) =~= all);
    }
    (left, both, right)
}

/// How many items a node holds before it is split in two.
pub const NODE_SATURATION_POINT: usize = 8_000;

/// Where an item goes at a node that was split.
#[derive(Clone, Copy, Debug, PartialEq, Eq, Structural)]
pub enum Route {
    Left,
    Right,
    Here,
}

/// Where an item with box `bbox` goes at a node split into `left_bb` and
/// `right_bb`: into the left half where it fits there, else into the right
/// half where it fits there, else it stays with the node.
pub fn route(left_bb: &BoundingBox<i32>, right_bb: &BoundingBox<i32>, bbox: &BoundingBox<i32>) -> (r:
    Route)
    ensures
        r == Route::Left <==> boxed_in(*left_bb, *bbox),
        r == Route::Right <==> !boxed_in(*left_bb, *bbox) && boxed_in(*right_bb, *bbox),
        r == Route::Here <==> !boxed_in(*left_bb, *bbox) && !boxed_in(*right_bb, *bbox),
{
    if left_bb.contains(bbox) {
        Route::Left
    } else if right_bb.contains(bbox) {
        Route::Right
    } else {
        Route::Here
    }
}

/// Whether a node that is not split yet must be split before it takes
/// another item.
pub fn is_saturated(child_count: usize) -> (r: bool)
    ensures
        r == (child_count >= NODE_SATURATION_POINT),
{
    child_count >= NODE_SATURATION_POINT
}

/// The positions of the items of a node whose boxes lie within `query`, in
/// order.
pub fn items_within<T>(children: &[(BoundingBox<i32>, T)], query: &BoundingBox<i32>) -> (r: Vec<
    usize,
>)
    ensures
        forall|k: int| 0 <= k < r@.len() ==> #[trigger] r@[k] < children@.len() && boxed_in(
            *query,
            children@[r@[k] as int].0,
        ),
        forall|k: int, j: int| 0 <= k < j < r@.len() ==> r@[k] < r@[j],
        forall|i: int|
            0 <= i < children@.len() && boxed_in(*query, #[trigger] children@[i].0) ==> r@.contains(
                i as usize,
            ),
{
    let mut r: Vec<usize> = Vec::new();
    let mut i: usize = 0;
    while i < children.len()
        invariant
            i <= children@.len(),
            forall|k: int| 0 <= k < r@.len() ==> #[trigger] r@[k] < i && boxed_in(
                *query,
                children@[r@[k] as int].0,
            ),
            forall|k: int, j: int| 0 <= k < j < r@.len() ==> r@[k] < r@[j],
            forall|m: int|
                0 <= m < i && boxed_in(*query, #[trigger] children@[m].0) ==> r@.contains(
                    m as usize,
                ),
        decreases children@.len() - i,
    {
        if query.contains(&children[i].0) {
            let ghost before = r@;
            r.push(i);
            assert forall|m: int|
                0 <= m < i + 1 && boxed_in(*query, #[trigger] children@[m].0) implies r@.contains(
                m as usize,
            ) by {
                if m < i {
                    let k = choose|k: int| 0 <= k < before.len() && before[k] == m as usize;
                    assert(r@[k] == m as usize);
                } else {
                    assert(r@[r@.len() - 1] == i);
                }
            }
        }
        i = i + 1;
    }
    r
}

/// What inserting an item does at a node.
#[derive(Clone, Copy, Debug, PartialEq, Eq, Structural)]
pub enum InsertStep {
    /// Go on into the left or right half.
    Descend(Route),
    /// Split the node in two first, then look again.
    Split,
    /// Keep the item with this node.
    PushHere,
}

/// The step of an insert at a node: at a split node, the item goes where
/// `route` sends it; a node that is not split is split first once it is
/// saturated, and otherwise takes the item.
pub fn insert_step(
    split: Option<(&BoundingBox<i32>, &BoundingBox<i32>)>,
    child_count: usize,
    bbox: &BoundingBox<i32>,
) -> (r: InsertStep)
    ensures
        split matches Some((l, rb)) ==> r == if boxed_in(*l, *bbox) {
            InsertStep::Descend(Route::Left)
        } else if boxed_in(*rb, *bbox) {
            InsertStep::Descend(Route::Right)
        } else {
            InsertStep::PushHere
        },
        split is None ==> r == if child_count >= NODE_SATURATION_POINT {
            InsertStep::Split
        } else {
            InsertStep::PushHere
        },
{
    match split {
        Some((l, rb)) => match route(l, rb, bbox) {
            Route::Here => InsertStep::PushHere,
            side => InsertStep::Descend(side),
        },
        None => {
            if is_saturated(child_count) {
                InsertStep::Split
            } else {
                InsertStep::PushHere
            }
        },
    }
}

/// Where a query for the items within `query` starts at a node: in a half
/// that takes in the whole query, the left one first; otherwise at the node
/// itself, going through both halves.
pub fn query_start(split: Option<(&BoundingBox<i32>, &BoundingBox<i32>)>, query: &BoundingBox<i32>) -> (r:
    Route)
    ensures
        split is None ==> r == Route::Here,
        split matches Some((l, rb)) ==> r == if boxed_in(*l, *query) {
            Route::Left
        } else if boxed_in(*rb, *query) {
            Route::Right
        } else {
            Route::Here
        },
{
    match split {
        Some((l, rb)) => route(l, rb, query),
        None => Route::Here,
    }
}

/// An item that a split node keeps, or sends to its right half, does not
/// fit the left half; so a query that fits the left half takes in none of
/// them, and can start in the left half.
pub proof fn lemma_left_query_misses_the_rest(
    left: BoundingBox<i32>,
    query: BoundingBox<i32>,
    item: BoundingBox<i32>,
)
    requires
        boxed_in(left, query),
        !boxed_in(left, item),
    ensures
        !boxed_in(query, item),
{
}

} // verus!
