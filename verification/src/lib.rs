//! A spatial simulation substrate for a world of blocks: a toroidal grid of
//! cell states, a registry of static tiles and dynamic entities, and the
//! assembly of one mesh and one light list from both on every tick.

pub mod automata;
pub mod light;
pub mod world;
