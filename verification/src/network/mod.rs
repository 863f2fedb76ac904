//! Decisions and encodings around the network side: the Reader API, feed
//! and favicon discovery, and refresh bookkeeping.
pub mod activity;
pub mod cache;
pub mod discovery;
pub mod fetcher;
pub mod inoreader;
pub mod reader_api;
