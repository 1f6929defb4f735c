//! A small symbolic-computation engine: expressions are parsed from text,
//! evaluated by exact best-effort simplification over arbitrary-precision
//! numbers, and rendered back to minimal text.

pub mod evaluate;
pub mod expression;
pub mod functions;
pub mod helpers;
pub mod laws;
pub mod number;
pub mod parse;
pub mod print;

use vstd::prelude::*;

verus! {

} // verus!
