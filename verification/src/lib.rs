//! Weekly upgrade planner for the combat skills (神通) of 问剑长生.
use vstd::prelude::*;

pub mod models;
pub mod income;
pub mod feasibility;
pub mod bonus;
pub mod plan;
pub mod simulate;
pub mod schedule;
pub mod text;
pub mod planner;

verus! {
} // verus!
