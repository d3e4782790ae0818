//! Dynamic occupants of the world and the handles that name them.

use super::drawable::Drawable;
use vstd::prelude::*;

verus! {

/// A dynamic occupant: it has a continuous centre, a velocity, and a weight
/// that scales gravity and damps free motion.
pub trait Entity: Drawable {
    /// A displacement or velocity in space.
    type Vector;

    /// A scalar quantity.
    type Scalar;

    /// The displacement that the entity attempts on every tick.
    fn velocity(&self) -> Self::Vector;

    fn set_velocity(&mut self, velocity: Self::Vector);

    /// The pull of gravity on the entity per tick, and the share of its
    /// velocity that a free move takes off.
    fn weight(&self) -> Self::Scalar;

    fn set_weight(&mut self, weight: Self::Scalar);
}

/// Names one entity of a world: its place in the order of insertion. Every
/// copy of a handle names the same entity.
#[derive(Clone, Copy, Debug, PartialEq, Eq, Structural)]
pub struct EntityHandler {
    index: usize,
}

impl EntityHandler {
    /// The place of the named entity in the order of insertion.
    pub closed spec fn slot(&self) -> int {
        self.index as int
    }

    pub(crate) fn new(index: usize) -> (handler: Self)
        ensures
            handler.slot() == index,
    {
        EntityHandler { index }
    }

    /// The place of the named entity in the order of insertion.
    pub fn index(&self) -> (index: usize)
        ensures
            index == self.slot(),
    {
        self.index
    }
}

} // verus!
