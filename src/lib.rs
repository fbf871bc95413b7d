use vstd::prelude::*;

pub mod board;
pub mod color;
pub mod config;
pub mod email;
pub mod laws;
pub mod session;
pub mod solver;
pub mod text;

verus! {

} // verus!
