use vstd::prelude::*;

pub mod types;
pub mod valuation;
pub mod engine;
pub mod rebalancer;
pub mod lemmas;

verus! {

} // verus!
