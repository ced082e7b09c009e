//! Conway's Game of Life on a toroidal grid of packed cells.
use vstd::prelude::*;

pub mod bits;
pub mod laws;
pub mod model;
pub mod universe;

pub use universe::{Cell, Universe};

verus! {

} // verus!
