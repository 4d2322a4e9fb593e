//! Conway's Game of Life on a fixed-size toroidal grid.
//!
//! The grid packs one cell per bit of a byte buffer; `universe` holds the
//! stateful engine, `life` the mathematical model of the transition rule,
//! and `laws` the proved properties that relate them.

pub mod laws;
pub mod life;
pub mod storage;
pub mod universe;

pub use life::Cell;
pub use universe::Universe;
