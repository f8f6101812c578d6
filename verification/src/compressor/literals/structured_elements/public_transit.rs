use vstd::prelude::*;

verus! {

/// The public-transport tags of a node, which are not structured yet.
#[derive(Debug)]
pub struct OsmPublicTransit;

} // verus!
