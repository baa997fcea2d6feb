use vstd::prelude::*;

pub mod text;
pub mod format;
pub mod report;
pub mod ai;
pub mod entries;
pub mod structure;
pub mod wide;
pub mod rank;
pub mod scan;
pub mod health;
pub mod json;
pub mod request;
pub mod view;
pub mod prompts;
pub mod session;
pub mod markdown;

verus! {

} // verus!
