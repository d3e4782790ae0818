//! Static occupants of the world.

use super::drawable::Drawable;
use cgmath::Point3;
use vstd::prelude::*;

verus! {

/// A static occupant of exactly one integer coordinate.
pub trait Tile: Drawable {
    /// The coordinate that the tile occupies.
    fn position(&self) -> Point3<i16>;

    fn set_position(&mut self, position: Point3<i16>);
}

} // verus!
