use vstd::prelude::*;

use crate::compressor::literals::literal_value::str_eq;
use crate::compressor::literals::packed_strings::PackedString;
use crate::compressor::literals::structured_elements::address::OsmAddress;
use crate::compressor::literals::structured_elements::public_transit::OsmPublicTransit;
use crate::compressor::literals::structured_elements::shop_amenity::OsmShopAmenity;
use crate::compressor::osm_tags::{has_key, key_index, Tags};

use super::{literals_of_tags, InlinedTags, TagCollection};

verus! {

/// How the tags of a node are folded: not at all, into one common tag, or
/// into structured groups.
#[derive(Debug)]
pub enum Node {
    NotInlined,
    Single(NodeSingleInlined),
    Multiple(Option<NodeSingleInlined>, InlinedNodeTags),
}

impl Node {
    pub fn is_single(&self) -> (r: bool)
        ensures
            r == self is Single,
    {
        match self {
            Node::Single(_) => true,
            _ => false,
        }
    }

    pub fn is_multiple(&self) -> (r: bool)
        ensures
            r == self is Multiple,
    {
        match self {
            Node::Multiple(_, _) => true,
            _ => false,
        }
    }
}

/// The structured groups of tags of a node.
#[derive(Debug)]
pub struct InlinedNodeTags {
    pub address: Option<OsmAddress>,
    pub public_transit: Option<OsmPublicTransit>,
    pub shop: Option<OsmShopAmenity>,
    pub name: Option<PackedString>,
    pub highway: Option<PackedString>,
    pub place: Option<PackedString>,
    pub operator: Option<PackedString>,
}

/// A node whose only tag is one of a few common ones.
#[derive(PartialEq, Eq, Debug, Clone, Copy, Structural)]
pub enum NodeSingleInlined {
    Tree,
    PowerTower,
    PowerPole,
    BroadleavedTree,
    Bench,
    Hydrant,
    NeedleleavedTree,
}

impl NodeSingleInlined {
    pub open spec fn spec_discriminant(self) -> u8 {
        match self {
            NodeSingleInlined::Tree => 1,
            NodeSingleInlined::PowerTower => 2,
            NodeSingleInlined::PowerPole => 3,
            NodeSingleInlined::BroadleavedTree => 4,
            NodeSingleInlined::Bench => 5,
            NodeSingleInlined::Hydrant => 6,
            NodeSingleInlined::NeedleleavedTree => 7,
        }
    }

    /// The number a common tag is stored as.
    pub fn discriminant(&self) -> (r: u8)
        ensures
            r == self.spec_discriminant(),
    {
        match self {
            NodeSingleInlined::Tree => 1,
            NodeSingleInlined::PowerTower => 2,
            NodeSingleInlined::PowerPole => 3,
            NodeSingleInlined::BroadleavedTree => 4,
            NodeSingleInlined::Bench => 5,
            NodeSingleInlined::Hydrant => 6,
            NodeSingleInlined::NeedleleavedTree => 7,
        }
    }
}

/// The common tag that a key and value are, if any.
pub open spec fn single_of(k: Seq<char>, v: Seq<char>) -> Option<NodeSingleInlined> {
    if k == "natural"@ && v == "tree"@ {
        Some(NodeSingleInlined::Tree)
    } else if k == "power"@ && v == "tower"@ {
        Some(NodeSingleInlined::PowerTower)
    } else if k == "power"@ && v == "pole"@ {
        Some(NodeSingleInlined::PowerPole)
    } else if k == "amenity"@ && v == "bench"@ {
        Some(NodeSingleInlined::Bench)
    } else if k == "emergency"@ && v == "fire_hydrant"@ {
        Some(NodeSingleInlined::Hydrant)
    } else {
        None
    }
}

fn match_single(k: &str, v: &str) -> (r: Option<NodeSingleInlined>)
    ensures
        r == single_of(k@, v@),
{
    if str_eq(k, "natural") && str_eq(v, "tree") {
        Some(NodeSingleInlined::Tree)
    } else if str_eq(k, "power") && str_eq(v, "tower") {
        Some(NodeSingleInlined::PowerTower)
    } else if str_eq(k, "power") && str_eq(v, "pole") {
        Some(NodeSingleInlined::PowerPole)
    } else if str_eq(k, "amenity") && str_eq(v, "bench") {
        Some(NodeSingleInlined::Bench)
    } else if str_eq(k, "emergency") && str_eq(v, "fire_hydrant") {
        Some(NodeSingleInlined::Hydrant)
    } else {
        None
    }
}

/// The tags without key `k`.
pub open spec fn without_key(s: Seq<(Seq<char>, Seq<char>)>, k: Seq<char>) -> Seq<(Seq<char>, Seq<char>)> {
    if has_key(s, k) {
        s.remove(key_index(s, k))
    } else {
        s
    }
}

/// The folded tags of a node with tags `before`: without `source`, a single
/// common tag becomes that tag; any other tags are listed as literals.
pub open spec fn node_tags_folded(before: Seq<(Seq<char>, Seq<char>)>, r: InlinedTags<Node>) -> bool {
    let s = without_key(before, "source"@);
    if s.len() == 1 && single_of(s[0].0, s[0].1) is Some {
        &&& r.inline == Node::Single(single_of(s[0].0, s[0].1).unwrap())
        &&& r.other@.len() == 0
    } else {
        &&& r.inline is NotInlined
        &&& literals_of_tags(r.other@, s)
    }
}

/// Folds the tags of a node. The `source` tag is dropped; a node left with a
/// single common tag becomes that tag, and its tags are cleared; any other
/// keeps its tags, listed as literals.
pub fn inline_node_tags(tags: &mut Tags) -> (r: InlinedTags<Node>)
    requires
        old(tags).wf(),
    ensures
        final(tags).wf(),
        node_tags_folded(old(tags).view_pairs(), r),
        ({
            let s = without_key(old(tags).view_pairs(), "source"@);
            if s.len() == 1 && single_of(s[0].0, s[0].1) is Some {
                &&& r.inline == Node::Single(single_of(s[0].0, s[0].1).unwrap())
                &&& r.other@.len() == 0
                &&& final(tags).view_pairs() == Seq::<(Seq<char>, Seq<char>)>::empty()
            } else {
                &&& r.inline is NotInlined
                &&& literals_of_tags(r.other@, s)
                &&& final(tags).view_pairs() == s
            }
        }),
{
    let _ = tags.remove("source");
    if tags.len() == 1 {
        let (k, v) = tags.get(0);
        let mut try_single = match_single(k, v);
        let needle: [(&str, &str); 2] = [("natural", "tree"), ("leaf_type", "needleleaved")];
        let broad: [(&str, &str); 2] = [("natural", "tree"), ("leaf_type", "broadleaved")];
        if tags.has_exactly(&needle) {
            try_single = Some(NodeSingleInlined::NeedleleavedTree);
        } else if tags.has_exactly(&broad) {
            try_single = Some(NodeSingleInlined::NeedleleavedTree);
        }
        if let Some(t) = try_single {
            tags.clear();
            return InlinedTags { inline: Node::Single(t), other: Vec::new() };
        }
    }
    InlinedTags { inline: Node::NotInlined, other: tags.drain_to_literal_list() }
}

/// The tag that a single common tag stands for, as its name says; the two
/// trees with a leaf type stand for two tags each and have none here.
pub open spec fn single_tag(t: NodeSingleInlined) -> Option<(Seq<char>, Seq<char>)> {
    match t {
        NodeSingleInlined::Tree => Some(("natural"@, "tree"@)),
        NodeSingleInlined::PowerTower => Some(("power"@, "tower"@)),
        NodeSingleInlined::PowerPole => Some(("power"@, "pole"@)),
        NodeSingleInlined::Bench => Some(("amenity"@, "bench"@)),
        NodeSingleInlined::Hydrant => Some(("emergency"@, "fire_hydrant"@)),
        _ => None,
    }
}

/// A tag is folded into the single common tag that stands for it, and
/// every single common tag that stands for one tag is what that tag is
/// folded into: so no two tags are folded alike.
pub proof fn lemma_single_tags_stand_for_themselves(k: Seq<char>, v: Seq<char>, t: NodeSingleInlined)
    ensures
        single_of(k, v) == Some(t) ==> single_tag(t) == Some((k, v)),
        single_tag(t) == Some((k, v)) ==> single_of(k, v) == Some(t),
{
    reveal_strlit("natural");
    reveal_strlit("tree");
    reveal_strlit("power");
    reveal_strlit("tower");
    reveal_strlit("pole");
    reveal_strlit("amenity");
    reveal_strlit("bench");
    reveal_strlit("emergency");
    reveal_strlit("fire_hydrant");
    assert("amenity"@[0] != "natural"@[0]);
    assert("amenity"@ != "natural"@);
    assert("natural"@ != "power"@);
    assert("tower"@[0] != "pole"@[0]);
    assert("tower"@ != "pole"@);
    assert("amenity"@ != "power"@);
    assert("emergency"@[0] != "natural"@[0] && "emergency"@[0] != "power"@[0] && "emergency"@[0] != "amenity"@[0]);
    assert("emergency"@ != "natural"@ && "emergency"@ != "power"@ && "emergency"@ != "amenity"@);
}

/// A node folded into a single common tag had, besides `source`, exactly
/// the tag that the single tag stands for.
pub proof fn lemma_single_node_keeps_its_tag(before: Seq<(Seq<char>, Seq<char>)>, r: InlinedTags<Node>, t: NodeSingleInlined)
    requires
        node_tags_folded(before, r),
        r.inline == Node::Single(t),
    ensures
        single_tag(t) matches Some(tag) && without_key(before, "source"@) == seq![tag],
{
    let s = without_key(before, "source"@);
    lemma_single_tags_stand_for_themselves(s[0].0, s[0].1, t);
    assert(s =~= seq![(s[0].0, s[0].1)]);
}

} // verus!
