//! Core library of a feed reader: title sanitization, HTML head scanning,
//! relative-URL resolution, OPML tree editing and export, smart-feed
//! query building, sync reconciliation and refresh scheduling decisions.
use vstd::prelude::*;

pub mod bytes;
pub mod chars;
pub mod hashing;
pub mod numbers;
pub mod smart_feeds;
pub mod sorting;
pub mod text;
pub mod error;
pub mod memory;
pub mod models;
pub mod database;
pub mod network;
pub mod parser;

pub use memory::{breakdown_from_rollup, memory_mb_from_status, MemoryBreakdown};

verus! {
} // verus!
