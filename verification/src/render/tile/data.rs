use vstd::prelude::*;

use crate::world::world::BoardSlice;

verus! {

/// Data that updates the tiles of one board view: it knows which slice of
/// the board it covers.
pub trait TileUpdateData {
    fn slice(&self) -> &BoardSlice;
}

} // verus!
