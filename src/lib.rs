//! A cellular automaton on a toroidal grid whose cells look at two rings of
//! neighbours, weighted three to one.

pub mod cell;
pub mod rules;
pub mod universe;
pub mod laws;

pub use cell::Cell;
pub use universe::Universe;
