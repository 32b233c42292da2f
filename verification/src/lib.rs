use vstd::prelude::*;

pub mod audit;
pub mod config;
pub mod contract;
pub mod entries;
pub mod error;
pub mod fixture;
pub mod json;
pub mod normalize;
pub mod protocol;
pub mod report;
pub mod seq_facts;
pub mod text;
pub mod ui;
pub mod watch;

verus! {
} // verus!
