//! A podcast-syncing engine: which episodes of a feed are due, how their
//! files are named and fetched, and the ledger that keeps re-runs from
//! fetching an episode twice.
use vstd::prelude::*;

pub mod config;
pub mod download_tracker;
pub mod episode;
pub mod patterns;
pub mod podcast;
pub mod sync;
pub mod text;
pub mod transfer;
pub mod utils;

verus! {

} // verus!
