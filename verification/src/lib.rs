//! A hexagonal "crossword" solver: straight lines of cells cross a hexagonal
//! grid in axis directions, each line carries a constraint over the letters
//! it spells, and a ring-by-ring propagation engine prunes, for every line,
//! the set of candidate letter sequences that agree with every crossing line.

pub mod alphabet;
pub mod candidates;
pub mod crossword;
pub mod geometry;
pub mod propagate;
pub mod puzzles;
pub mod search;
