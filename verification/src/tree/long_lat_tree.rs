//! A node of the tree of bounding boxes, held in memory: its box, the axis it
//! splits on, the items that fit neither half, and, once split, its two
//! halves. Item boxes are kept as they are, not relative to the node's box.
use vstd::prelude::*;

use crate::tree::bbox::{flipped, halves, BoundingBox, LongLatSplitDirection};
use crate::tree::node_layout::{
    boxed_in, branch_id_creation, goes_left, goes_right, split_children, stays,
};

verus! {

broadcast use vstd::seq_lib::group_to_multiset_ensures;

/// A node of the tree: its box, the direction it splits in, its own items,
/// its halves once split, and its id.
pub struct TreeNode<T> {
    pub bbox: BoundingBox<i32>,
    pub direction: LongLatSplitDirection,
    pub children: Vec<(BoundingBox<i32>, T)>,
    pub left_right_split: Option<(Box<TreeNode<T>>, Box<TreeNode<T>>)>,
    pub id: u64,
}

/// The items among `items` whose boxes lie within `query`, in order.
pub open spec fn within<T>(items: Seq<(BoundingBox<i32>, T)>, query: BoundingBox<i32>) -> Seq<T>
    decreases items.len(),
{
    if items.len() == 0 {
        Seq::empty()
    } else {
        let rest = within(items.drop_last(), query);
        if boxed_in(query, items.last().0) {
            rest.push(items.last().1)
        } else {
            rest
        }
    }
}

/// The items of a node and the nodes below it whose boxes lie within
/// `query`: the node's own first, then those of its right half, then those of
/// its left half.
pub open spec fn walk_within<T>(node: TreeNode<T>, query: BoundingBox<i32>) -> Seq<T>
    decreases node,
{
    within(node.children@, query) + match node.left_right_split {
        Some((l, r)) => walk_within(*r, query) + walk_within(*l, query),
        None => Seq::empty(),
    }
}

/// What a query for the items within `query` finds from `node` on: it goes
/// into a half that takes in the whole query, the left one first; otherwise
/// it walks the node and every node below it.
pub open spec fn found_within<T>(node: TreeNode<T>, query: BoundingBox<i32>) -> Seq<T>
    decreases node,
{
    match node.left_right_split {
        Some((l, r)) => if boxed_in(l.bbox, query) {
            found_within(*l, query)
        } else if boxed_in(r.bbox, query) {
            found_within(*r, query)
        } else {
            walk_within(node, query)
        },
        None => within(node.children@, query),
    }
}

/// The items of a node and the nodes below it.
pub open spec fn all_items<T>(node: TreeNode<T>) -> Seq<(BoundingBox<i32>, T)>
    decreases node,
{
    node.children@ + match node.left_right_split {
        Some((l, r)) => all_items(*r) + all_items(*l),
        None => Seq::empty(),
    }
}

impl<T> TreeNode<T> {
    /// The root of a tree over `bbox`: node one, splitting first in the
    /// default direction, with nothing in it.
    pub fn new(bbox: BoundingBox<i32>) -> (r: Self)
        ensures
            r.bbox == bbox,
            r.direction == LongLatSplitDirection::Lat,
            r.children@.len() == 0,
            r.left_right_split is None,
            r.id == 1,
    {
        TreeNode {
            bbox,
            direction: LongLatSplitDirection::default(),
            children: Vec::new(),
            left_right_split: None,
            id: 1,
        }
    }
}

/// Appends to `out` the items of `items` whose boxes lie within `query`.
fn push_within<'a, T>(items: &'a Vec<(BoundingBox<i32>, T)>, query: &BoundingBox<i32>, out: &mut Vec<&'a T>)
    ensures
        final(out)@.len() == old(out)@.len() + within(items@, *query).len(),
        forall|i: int| 0 <= i < old(out)@.len() ==> final(out)@[i] == old(out)@[i],
        forall|i: int|
            0 <= i < within(items@, *query).len() ==> *final(out)@[old(out)@.len() + i] == within(
                items@,
                *query,
            )[i],
{
    let ghost start = out@;
    let mut k: usize = 0;
    while k < items.len()
        invariant
            k <= items@.len(),
            out@.len() == start.len() + within(items@.take(k as int), *query).len(),
            forall|i: int| 0 <= i < start.len() ==> out@[i] == start[i],
            forall|i: int|
                0 <= i < within(items@.take(k as int), *query).len() ==> *out@[start.len() + i]
                    == within(items@.take(k as int), *query)[i],
        decreases items@.len() - k,
    {
        let ghost before = within(items@.take(k as int), *query);
        assert(items@.take(k + 1).drop_last() =~= items@.take(k as int));
        if query.contains(&items[k].0) {
            out.push(&items[k].1);
        }
        k = k + 1;
    }
    assert(items@.take(items@.len() as int) =~= items@);
}

/// Appends to `out` the items of `node` and the nodes below it that lie
/// within `query`, in the order of `walk_within`.
fn push_walk<'a, T>(node: &'a TreeNode<T>, query: &BoundingBox<i32>, out: &mut Vec<&'a T>)
    ensures
        final(out)@.len() == old(out)@.len() + walk_within(*node, *query).len(),
        forall|i: int| 0 <= i < old(out)@.len() ==> final(out)@[i] == old(out)@[i],
        forall|i: int|
            0 <= i < walk_within(*node, *query).len() ==> *final(out)@[old(out)@.len() + i]
                == walk_within(*node, *query)[i],
    decreases node,
{
    let ghost start = out@;
    push_within(&node.children, query, out);
    let ghost mid = out@;
    match &node.left_right_split {
        Some((l, r)) => {
            push_walk(&**r, query, out);
            let ghost mid2 = out@;
            push_walk(&**l, query, out);
            let ghost w = walk_within(*node, *query);
            let ghost a = within(node.children@, *query);
            let ghost b = walk_within(**r, *query);
            let ghost c = walk_within(**l, *query);
            assert(w == a + (b + c));
            assert forall|i: int| 0 <= i < w.len() implies *out@[start.len() + i] == w[i] by {
                if i < a.len() {
                    assert(out@[start.len() + i] == mid[start.len() + i]);
                } else if i < a.len() + b.len() {
                    assert(out@[start.len() + i] == mid2[start.len() + i]);
                    assert(*mid2[mid.len() + (i - a.len())] == b[i - a.len()]);
                } else {
                    assert(*out@[mid2.len() + (i - a.len() - b.len())] == c[i - a.len() - b.len()]);
                }
            }
        },
        None => {
            assert(walk_within(*node, *query) =~= within(node.children@, *query));
        },
    }
}

impl<T> TreeNode<T> {
    /// The items within `query`: from a split node whose half takes in the
    /// whole query, those that query of the half finds, the left half first;
    /// otherwise those of the node and of every node below it, each node's own
    /// items first, then its right half's, then its left half's.
    pub fn find_items_in_box<'a>(&'a self, query: &BoundingBox<i32>) -> (r: Vec<&'a T>)
        ensures
            r@.len() == found_within(*self, *query).len(),
            forall|i: int| 0 <= i < r@.len() ==> *r@[i] == found_within(*self, *query)[i],
        decreases self,
    {
        match &self.left_right_split {
            Some((l, r)) => {
                if l.bbox.contains(query) {
                    return l.find_items_in_box(query);
                } else if r.bbox.contains(query) {
                    return r.find_items_in_box(query);
                }
            },
            None => {},
        }
        let mut out: Vec<&'a T> = Vec::new();
        push_walk(self, query, &mut out);
        proof {
            if self.left_right_split is None {
                assert(walk_within(*self, *query) =~= within(self.children@, *query));
            }
        }
        out
    }
}

proof fn lemma_partition_multiset<T>(s: Seq<(BoundingBox<i32>, T)>, l: BoundingBox<i32>, r: BoundingBox<i32>)
    ensures
        s.to_multiset() =~= s.filter(|c: (BoundingBox<i32>, T)| goes_left(l, c)).to_multiset().add(
            s.filter(|c: (BoundingBox<i32>, T)| stays(l, r, c)).to_multiset(),
        ).add(s.filter(|c: (BoundingBox<i32>, T)| goes_right(l, r, c)).to_multiset()),
    decreases s.len(),
{
    let pl = |c: (BoundingBox<i32>, T)| goes_left(l, c);
    let pb = |c: (BoundingBox<i32>, T)| stays(l, r, c);
    let pr = |c: (BoundingBox<i32>, T)| goes_right(l, r, c);
    if s.len() == 0 {
        reveal(Seq::filter);
        assert(s.filter(pl) =~= s);
        assert(s.filter(pb) =~= s);
        assert(s.filter(pr) =~= s);
    } else {
        let p = s.drop_last();
        let c = s.last();
        lemma_partition_multiset(p, l, r);
        assert(s =~= p.push(c));
        p.lemma_filter_push(c, pl);
        p.lemma_filter_push(c, pb);
        p.lemma_filter_push(c, pr);
    }
}

/// Splits a node in two: its box in halves in its direction, the halves
/// splitting in the other direction, with ids `2 * id` and `2 * id + 1`
/// (shifted in 64 bits); the items that fit the left half go to it, those
/// that fit only the right half to that one, and the others stay.
pub fn split_left_right<T>(node: &mut TreeNode<T>)
    requires
        old(node).left_right_split is None,
    ensures
        ({
            let (lb, rb) = halves(old(node).bbox, old(node).direction);
            let c = old(node).children@;
            &&& final(node).bbox == old(node).bbox
            &&& final(node).direction == old(node).direction
            &&& final(node).id == old(node).id
            &&& final(node).children@ == c.filter(|x: (BoundingBox<i32>, T)| stays(lb, rb, x))
            &&& final(node).left_right_split matches Some((l, r)) && {
                &&& l.bbox == lb
                &&& r.bbox == rb
                &&& l.direction == flipped(old(node).direction)
                &&& r.direction == flipped(old(node).direction)
                &&& l.id == (old(node).id << 1u64) | 0u64
                &&& r.id == (old(node).id << 1u64) | 1u64
                &&& l.children@ == c.filter(|x: (BoundingBox<i32>, T)| goes_left(lb, x))
                &&& r.children@ == c.filter(|x: (BoundingBox<i32>, T)| goes_right(lb, rb, x))
                &&& l.left_right_split is None
                &&& r.left_right_split is None
                &&& old(node).id < 0x8000_0000_0000_0000 ==> l.id == 2 * old(node).id && r.id == 2
                    * old(node).id + 1
            }
        }),
        all_items(*final(node)).to_multiset() == old(node).children@.to_multiset(),
        tree_sorted(*final(node)),
{
    let (left_bb, right_bb) = node.bbox.split_on_axis(&node.direction);
    let mut children: Vec<(BoundingBox<i32>, T)> = Vec::new();
    std::mem::swap(&mut children, &mut node.children);
    let (left_children, both_children, right_children) = split_children(children, &left_bb, &right_bb);
    node.children = both_children;
    let (_, left_id) = branch_id_creation(node.id, 0);
    let (_, right_id) = branch_id_creation(node.id, 1);
    let direction = node.direction.not();
    let left = TreeNode {
        bbox: left_bb,
        direction,
        children: left_children,
        left_right_split: None,
        id: left_id,
    };
    let right = TreeNode {
        bbox: right_bb,
        direction,
        children: right_children,
        left_right_split: None,
        id: right_id,
    };
    node.left_right_split = Some((Box::new(left), Box::new(right)));
    proof {
        let ghost fin = *node;
        let ghost c = children@;
        lemma_split_keeps_items(c, fin.bbox, fin.direction);
        assert(all_items(left) =~= left.children@);
        assert(all_items(right) =~= right.children@);
        assert(all_items(fin) == fin.children@ + (right.children@ + left.children@));
        vstd::seq_lib::lemma_multiset_commutative(right.children@, left.children@);
        vstd::seq_lib::lemma_multiset_commutative(fin.children@, right.children@ + left.children@);
        assert(fin.children@.to_multiset().add(right.children@.to_multiset().add(left.children@.to_multiset()))
            =~= fin.children@.to_multiset().add(right.children@.to_multiset()).add(left.children@.to_multiset()));
        let pl = |x: (BoundingBox<i32>, T)| goes_left(left_bb, x);
        let pb = |x: (BoundingBox<i32>, T)| stays(left_bb, right_bb, x);
        let pr = |x: (BoundingBox<i32>, T)| goes_right(left_bb, right_bb, x);
        c.filter_lemma(pl);
        c.filter_lemma(pb);
        c.filter_lemma(pr);
        assert(left.children@ == c.filter(pl));
        assert(right.children@ == c.filter(pr));
        assert(fin.children@ == c.filter(pb));
        assert forall|i: int| 0 <= i < fin.children@.len() implies !boxed_in(left_bb, (#[trigger] fin.children@[i]).0)
            && !boxed_in(right_bb, fin.children@[i].0) by {
            assert(pb(c.filter(pb)[i]));
        }
        assert forall|i: int| 0 <= i < all_items(left).len() implies boxed_in(left_bb, (#[trigger] all_items(left)[i]).0) by {
            assert(pl(c.filter(pl)[i]));
        }
        assert forall|i: int| 0 <= i < all_items(right).len() implies boxed_in(right_bb, (#[trigger] all_items(right)[i]).0)
            && !boxed_in(left_bb, all_items(right)[i].0) by {
            assert(pr(c.filter(pr)[i]));
        }
        assert(tree_sorted(left) && tree_sorted(right));
        assert(tree_sorted(fin));
    }
}

/// Splitting a node loses no item and adds none: the items of the node and
/// its halves after are those of the node before.
pub proof fn lemma_split_keeps_items<T>(before: Seq<(BoundingBox<i32>, T)>, bbox: BoundingBox<i32>, direction: LongLatSplitDirection)
    ensures
        ({
            let (lb, rb) = halves(bbox, direction);
            before.filter(|x: (BoundingBox<i32>, T)| stays(lb, rb, x)).to_multiset().add(
                before.filter(|x: (BoundingBox<i32>, T)| goes_right(lb, rb, x)).to_multiset(),
            ).add(before.filter(|x: (BoundingBox<i32>, T)| goes_left(lb, x)).to_multiset())
                == before.to_multiset()
        }),
{
    let (lb, rb) = halves(bbox, direction);
    lemma_partition_multiset(before, lb, rb);
    let a = before.filter(|x: (BoundingBox<i32>, T)| goes_left(lb, x)).to_multiset();
    let b = before.filter(|x: (BoundingBox<i32>, T)| stays(lb, rb, x)).to_multiset();
    let c = before.filter(|x: (BoundingBox<i32>, T)| goes_right(lb, rb, x)).to_multiset();
    assert(b.add(c).add(a) =~= a.add(b).add(c));
}

/// The items within `query` of two runs of items, one after the other, are
/// those of the first run followed by those of the second.
proof fn lemma_within_concat<T>(
    a: Seq<(BoundingBox<i32>, T)>,
    b: Seq<(BoundingBox<i32>, T)>,
    query: BoundingBox<i32>,
)
    ensures
        within(a + b, query) == within(a, query) + within(b, query),
    decreases b.len(),
{
    if b.len() == 0 {
        assert(a + b =~= a);
        assert(within(a, query) + within(b, query) =~= within(a, query));
    } else {
        lemma_within_concat(a, b.drop_last(), query);
        assert((a + b).drop_last() =~= a + b.drop_last());
        assert((a + b).last() == b.last());
        if boxed_in(query, b.last().0) {
            assert(within(a, query) + within(b.drop_last(), query).push(b.last().1) =~= (within(
                a,
                query,
            ) + within(b.drop_last(), query)).push(b.last().1));
        }
    }
}

/// Walking a node finds exactly the items of the node and of the nodes below
/// it whose boxes lie within the query, in the order in which `all_items`
/// lists them.
pub proof fn lemma_walk_finds_all_within<T>(node: TreeNode<T>, query: BoundingBox<i32>)
    ensures
        walk_within(node, query) == within(all_items(node), query),
    decreases node,
{
    match node.left_right_split {
        Some((l, r)) => {
            lemma_walk_finds_all_within(*r, query);
            lemma_walk_finds_all_within(*l, query);
            lemma_within_concat(all_items(*r), all_items(*l), query);
            lemma_within_concat(node.children@, all_items(*r) + all_items(*l), query);
        },
        None => {
            assert(all_items(node) =~= node.children@);
            assert(walk_within(node, query) =~= within(node.children@, query));
        },
    }
}

/// A query finds nothing that is not stored: each item that
/// `find_items_in_box` gives back is an item of the node or of a node below
/// it whose box lies within the query, and it comes back no more often than
/// it is stored so.
pub proof fn lemma_found_items_are_stored_within<T>(node: TreeNode<T>, query: BoundingBox<i32>)
    ensures
        found_within(node, query).to_multiset().subset_of(
            within(all_items(node), query).to_multiset(),
        ),
    decreases node,
{
    broadcast use vstd::multiset::group_multiset_axioms;

    lemma_walk_finds_all_within(node, query);
    match node.left_right_split {
        Some((l, r)) => {
            let a = within(node.children@, query);
            let b = within(all_items(*r), query);
            let c = within(all_items(*l), query);
            lemma_within_concat(all_items(*r), all_items(*l), query);
            lemma_within_concat(node.children@, all_items(*r) + all_items(*l), query);
            vstd::seq_lib::lemma_multiset_commutative(b, c);
            vstd::seq_lib::lemma_multiset_commutative(a, b + c);
            if boxed_in(l.bbox, query) {
                lemma_found_items_are_stored_within(*l, query);
            } else if boxed_in(r.bbox, query) {
                lemma_found_items_are_stored_within(*r, query);
            }
        },
        None => {
            assert(all_items(node) =~= node.children@);
        },
    }
}

/// Whether the items of a tree sit where splitting and inserting put them:
/// at each split node, its own items lie in neither half, every item below
/// its left half lies in the left half's box, and every item below its
/// right half lies in the right half's box and not in the left half's.
pub open spec fn tree_sorted<T>(node: TreeNode<T>) -> bool
    decreases node,
{
    match node.left_right_split {
        None => true,
        Some((l, r)) => {
            &&& forall|i: int|
                0 <= i < node.children@.len() ==> !boxed_in(l.bbox, (#[trigger] node.children@[i]).0)
                    && !boxed_in(r.bbox, node.children@[i].0)
            &&& forall|i: int|
                0 <= i < all_items(*l).len() ==> boxed_in(l.bbox, (#[trigger] all_items(*l)[i]).0)
            &&& forall|i: int|
                0 <= i < all_items(*r).len() ==> boxed_in(r.bbox, (#[trigger] all_items(*r)[i]).0)
                    && !boxed_in(l.bbox, all_items(*r)[i].0)
            &&& tree_sorted(*l)
            &&& tree_sorted(*r)
        },
    }
}

/// Whether, at each split node, no item below the left half also lies in
/// the right half's box (which the two halves' shared edge allows).
pub open spec fn halves_apart<T>(node: TreeNode<T>) -> bool
    decreases node,
{
    match node.left_right_split {
        None => true,
        Some((l, r)) => {
            &&& forall|i: int|
                0 <= i < all_items(*l).len() ==> !boxed_in(r.bbox, (#[trigger] all_items(*l)[i]).0)
            &&& halves_apart(*l)
            &&& halves_apart(*r)
        },
    }
}

/// A box inside a box inside a third box is inside the third.
proof fn lemma_boxed_in_transitive(a: BoundingBox<i32>, b: BoundingBox<i32>, c: BoundingBox<i32>)
    requires
        boxed_in(a, b),
        boxed_in(b, c),
    ensures
        boxed_in(a, c),
{
}

/// Items none of which lies within `query` give nothing within it.
proof fn lemma_within_none<T>(items: Seq<(BoundingBox<i32>, T)>, query: BoundingBox<i32>)
    requires
        forall|i: int| 0 <= i < items.len() ==> !boxed_in(query, (#[trigger] items[i]).0),
    ensures
        within(items, query) == Seq::<T>::empty(),
    decreases items.len(),
{
    if items.len() > 0 {
        let p = items.drop_last();
        assert forall|i: int| 0 <= i < p.len() implies !boxed_in(query, (#[trigger] p[i]).0) by {
            assert(p[i] == items[i]);
        }
        lemma_within_none(p, query);
        assert(!boxed_in(query, items[items.len() - 1].0));
    }
}

/// A box query is complete: on a tree whose items sit where splitting puts
/// them and whose halves share no item, it gives every item stored in the
/// node or any node below it whose box lies within the query, as often as it
/// is stored, and nothing else.
pub proof fn lemma_query_finds_every_item_within<T>(node: TreeNode<T>, query: BoundingBox<i32>)
    requires
        tree_sorted(node),
        halves_apart(node),
    ensures
        found_within(node, query).to_multiset() == within(all_items(node), query).to_multiset(),
    decreases node,
{
    match node.left_right_split {
        None => {
            assert(all_items(node) =~= node.children@);
        },
        Some((l, r)) => {
            lemma_within_concat(all_items(*r), all_items(*l), query);
            lemma_within_concat(node.children@, all_items(*r) + all_items(*l), query);
            let a = within(node.children@, query);
            let b = within(all_items(*r), query);
            let c = within(all_items(*l), query);
            assert(within(all_items(node), query) == a + (b + c));
            if boxed_in(l.bbox, query) {
                lemma_query_finds_every_item_within(*l, query);
                assert forall|i: int| 0 <= i < node.children@.len() implies !boxed_in(
                    query,
                    (#[trigger] node.children@[i]).0,
                ) by {
                    if boxed_in(query, node.children@[i].0) {
                        lemma_boxed_in_transitive(l.bbox, query, node.children@[i].0);
                    }
                }
                assert forall|i: int| 0 <= i < all_items(*r).len() implies !boxed_in(
                    query,
                    (#[trigger] all_items(*r)[i]).0,
                ) by {
                    if boxed_in(query, all_items(*r)[i].0) {
                        lemma_boxed_in_transitive(l.bbox, query, all_items(*r)[i].0);
                    }
                }
                lemma_within_none(node.children@, query);
                lemma_within_none(all_items(*r), query);
                assert(a + (b + c) =~= c);
            } else if boxed_in(r.bbox, query) {
                lemma_query_finds_every_item_within(*r, query);
                assert forall|i: int| 0 <= i < node.children@.len() implies !boxed_in(
                    query,
                    (#[trigger] node.children@[i]).0,
                ) by {
                    if boxed_in(query, node.children@[i].0) {
                        lemma_boxed_in_transitive(r.bbox, query, node.children@[i].0);
                    }
                }
                assert forall|i: int| 0 <= i < all_items(*l).len() implies !boxed_in(
                    query,
                    (#[trigger] all_items(*l)[i]).0,
                ) by {
                    if boxed_in(query, all_items(*l)[i].0) {
                        lemma_boxed_in_transitive(r.bbox, query, all_items(*l)[i].0);
                    }
                }
                lemma_within_none(node.children@, query);
                lemma_within_none(all_items(*l), query);
                assert(a + (b + c) =~= b);
            } else {
                lemma_walk_finds_all_within(node, query);
            }
        },
    }
}

} // verus!
