//! A minimal regular-expression engine: a pattern compiler that turns a
//! pattern string into a flat sequence of elements, and a backtracking
//! matcher that tests the compiled sequence against an input line.

pub mod compiler;
pub mod elements;
pub mod laws;
pub mod matcher;
