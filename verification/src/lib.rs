//! A Sudoku engine that solves by deduction alone.
//!
//! Positions on the grid are small numbered values, sets of them are held as bits, and a
//! board gives each of its 81 cells a digit or the digits still possible. Strategies search
//! a board for candidates to place or to strike; the solver applies what they find, one
//! deduction at a time, and remembers the earlier boards.

pub mod bits;
pub mod bitset;
pub mod bitset_ops;
pub mod set;
pub mod sudoku;
pub mod util;
