use vstd::prelude::*;

pub mod case;
pub mod comments;
pub mod cst;
pub mod executable;
pub mod fixture;
pub mod harness;
pub mod json;
pub mod model;
pub mod oneof;
pub mod paths;
pub mod property;
pub mod pattern;
pub mod reach;
pub mod relay;
pub mod rules;
pub mod schema;
pub mod shared;
pub mod snapshot;
pub mod text;
pub mod usage;

verus! {
} // verus!
