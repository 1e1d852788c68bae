use vstd::prelude::*;

pub mod text;
pub mod types;
pub mod solvers;
pub mod grid;
pub mod sequence_parser;
pub mod registry;

verus! {

} // verus!
