//! Reinforced-concrete section descriptions.
//!
//! A terse text describes beams, columns and walls: shape, cover, rebar
//! lines and stirrup spacing. This library turns such text into section
//! values (`preprocess`, then `parser`), and makes the decisions that the
//! drawing generator follows: which drawings a section gets and which layer
//! each bar entry takes (`layout`), and how a bar-size designator reads and
//! which colour it is drawn in (`sizes`). Coordinates, being floating-point,
//! are computed outside it.
use vstd::prelude::*;

pub mod ast;
pub mod preprocess;
pub mod sizes;
pub mod layout;
pub mod parser;

verus! {

} // verus!
