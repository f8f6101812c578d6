use vstd::prelude::*;

verus! {

/// The shop and amenity tags of a node, which are not structured yet.
#[derive(Debug)]
pub struct OsmShopAmenity;

} // verus!
