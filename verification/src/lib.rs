//! PartiQL building blocks: values, logical plans, the table of built-in functions and the
//! evaluation operators, with their contracts proved by Verus.
use vstd::prelude::*;

pub mod call_defs;
pub mod escape;
pub mod evaluable;
pub mod logical;
pub mod plan;
pub mod value;

verus! {

} // verus!
