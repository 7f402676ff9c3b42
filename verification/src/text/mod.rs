//! Text primitives, motions and selection algorithms.

pub mod unicode;
pub mod chars;
pub mod selection;
pub mod buffer;
pub mod movement;
pub mod match_brackets;
pub mod textobject;
pub mod surround;
pub mod fuzzy;
