//! Subscription-tree logic and the decisions around the article store.
pub mod accounts;
pub mod article_diff;
pub mod articles;
pub mod delegate;
pub mod opml;
pub mod opml_export;
pub mod opml_merge;
pub mod opml_sync;
