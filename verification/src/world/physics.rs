//! The decisions of the motion integrator.
//!
//! Once per tick every entity, in the order of insertion, is moved twice:
//! first by its velocity, then by gravity. Each move probes the tile under
//! its target and is shortened step by step, ten times at most, while that
//! tile is occupied.
//! The arithmetic on positions belongs to whoever drives the tick; what to
//! do next is decided here.

use super::entity::EntityHandler;
use vstd::prelude::*;

verus! {

/// What moves an entity in one pass of a tick.
#[derive(Clone, Copy, Debug, PartialEq, Eq, Structural)]
pub enum Pass {
    /// The entity's own velocity.
    Velocity,
    /// Gravity, scaled by the entity's weight.
    Gravity,
}

/// What to do with an attempted move once its target was probed.
#[derive(Clone, Copy, Debug, PartialEq, Eq, Structural)]
pub enum Step {
    /// Take one increment off the displacement and probe again.
    Shrink,
    /// Move the entity by the displacement as it stands.
    Commit,
}

/// How the velocity answers a committed move.
#[derive(Clone, Copy, Debug, PartialEq, Eq, Structural)]
pub enum Response {
    /// The move was shortened: the attempted displacement is taken off the
    /// velocity.
    Rebound,
    /// The move was free: the velocity is damped by the weight.
    Damp,
}

/// The most times that one move is shortened.
pub const MAX_SUBSTEPS: u8 = 10;

/// The progress of one move: how many times it was shortened so far.
#[derive(Clone, Copy, Debug)]
pub struct Substep {
    shrinks: u8,
}

impl Substep {
    /// Number of times the move was shortened.
    pub closed spec fn taken(&self) -> int {
        self.shrinks as int
    }

    /// Whether the move was shortened at least once.
    pub open spec fn has_collided(&self) -> bool {
        self.taken() > 0
    }

    /// Whether a move in this state is shortened once more, when its target
    /// tile is `occupied` and its displacement is zero exactly if `at_rest`:
    /// the target is occupied, something is left to take off, and the move
    /// was not yet shortened `MAX_SUBSTEPS` times.
    pub open spec fn shortens(&self, occupied: bool, at_rest: bool) -> bool {
        occupied && !at_rest && self.taken() < MAX_SUBSTEPS
    }

    /// The start of a move: nothing was shortened yet.
    pub fn new() -> (substep: Self)
        ensures
            substep.taken() == 0,
            !substep.has_collided(),
    {
        Substep { shrinks: 0 }
    }

    /// Number of times the move was shortened.
    pub fn shrinks(&self) -> (shrinks: u8)
        ensures
            shrinks == self.taken(),
    {
        self.shrinks
    }

    /// Whether the move was shortened at least once.
    pub fn collided(&self) -> (collided: bool)
        ensures
            collided == self.has_collided(),
    {
        self.shrinks > 0
    }

    /// Decides on a move whose target tile is `occupied` and whose
    /// displacement is zero exactly if `at_rest`. The move is shortened
    /// while the target is occupied and something is left to take off, but
    /// never more than `MAX_SUBSTEPS` times; otherwise it is committed as it
    /// stands. A shortened move counts as collided from then on.
    pub fn probe(&mut self, occupied: bool, at_rest: bool) -> (step: Step)
        ensures
            step == Step::Shrink <==> old(self).shortens(occupied, at_rest),
            step == Step::Commit <==> !old(self).shortens(occupied, at_rest),
            final(self).taken() == old(self).taken() + if old(self).shortens(occupied, at_rest) {
                1int
            } else {
                0int
            },
            old(self).taken() <= MAX_SUBSTEPS ==> final(self).taken() <= MAX_SUBSTEPS,
    {
        if occupied && !at_rest && self.shrinks < MAX_SUBSTEPS {
            self.shrinks += 1;
            Step::Shrink
        } else {
            Step::Commit
        }
    }

    /// The answer of the velocity to the committed move: a rebound exactly
    /// if the move was shortened.
    pub fn response(&self) -> (response: Response)
        ensures
            response == Response::Rebound <==> self.has_collided(),
            response == Response::Damp <==> !self.has_collided(),
    {
        if self.shrinks > 0 {
            Response::Rebound
        } else {
            Response::Damp
        }
    }
}

/// The place of a tick in its round over the entities.
#[derive(Clone, Copy, Debug)]
pub struct Schedule {
    entity: usize,
    pass: Pass,
}

impl Schedule {
    /// Number of passes already handed out.
    pub closed spec fn position(&self) -> int {
        2 * self.entity + if self.pass == Pass::Gravity {
            1int
        } else {
            0int
        }
    }

    /// The pass that stands at place `n` of a tick: entity `n / 2`, moved by
    /// its velocity where `n` is even and by gravity where it is odd.
    pub open spec fn pass_at(n: int) -> (int, Pass) {
        (
            n / 2,
            if n % 2 == 0 {
                Pass::Velocity
            } else {
                Pass::Gravity
            },
        )
    }

    /// The start of a tick.
    pub fn new() -> (schedule: Self)
        ensures
            schedule.position() == 0,
    {
        Schedule { entity: 0, pass: Pass::Velocity }
    }

    /// Hands out the next pass of a tick over `entity_count` entities, or
    /// `None` once every entity had both of its passes.
    pub fn next(&mut self, entity_count: usize) -> (next: Option<(EntityHandler, Pass)>)
        ensures
            old(self).position() < 2 * entity_count ==> final(self).position() == old(self).position() + 1,
            old(self).position() >= 2 * entity_count ==> next.is_none() && final(self).position()
                == old(self).position(),
            old(self).position() < 2 * entity_count ==> next.is_some(),
            next matches Some(pair) ==> pair.0.slot() == Self::pass_at(old(self).position()).0
                && pair.1 == Self::pass_at(old(self).position()).1 && pair.0.slot() < entity_count,
    {
        if self.entity >= entity_count {
            return None;
        }
        let handler = EntityHandler::new(self.entity);
        match self.pass {
            Pass::Velocity => {
                self.pass = Pass::Gravity;
                Some((handler, Pass::Velocity))
            },
            Pass::Gravity => {
                self.pass = Pass::Velocity;
                self.entity += 1;
                Some((handler, Pass::Gravity))
            },
        }
    }
}

} // verus!
