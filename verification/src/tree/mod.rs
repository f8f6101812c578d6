pub mod bbox;
pub mod long_lat_tree;
pub mod node_layout;
pub mod point_range;
pub mod point_tree;

use vstd::prelude::*;

verus! {

/// Values stored relative to a basis, which follow when the basis moves.
pub trait UpdateOnBasisLongLatMove: Sized {
    fn update(&mut self, old_basis: Self, new_basis: Self);
}

} // verus!
