use vstd::prelude::*;

use crate::compressor::osm_tags::Tags;

use super::{literals_of_tags, InlinedTags, TagCollection};

verus! {

/// The folded tags of a relation: none are folded yet.
#[derive(Debug)]
pub struct Relation {}

/// Folds the tags of a relation: all of them are listed as literals.
pub fn inline_relation_tags(tags: Tags) -> (r: InlinedTags<Relation>)
    ensures
        literals_of_tags(r.other@, tags.view_pairs()),
{
    let mut tags = tags;
    InlinedTags { inline: Relation {}, other: tags.drain_to_literal_list() }
}

} // verus!
