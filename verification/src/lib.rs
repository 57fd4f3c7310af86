use vstd::prelude::*;

pub mod json;
pub mod laws;
pub mod search;
pub mod startup;
pub mod text;
pub mod viewer;

verus! {

} // verus!
