use vstd::prelude::*;

pub mod api;
pub mod cli;
pub mod client;
pub mod display;
pub mod errors;
pub mod index;
pub mod laws;
pub mod parser;
pub mod scan;
pub mod order;
pub mod paths;
pub mod text;

verus! {


} // verus!
