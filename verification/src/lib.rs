//! Warnings from the Storm Prediction Center's RSS feed.
//!
//! The caller fetches the feed and decodes its XML into a [`feed::Rss`]; this
//! crate turns each item of the feed into a [`Warning`] and renders warnings
//! as text. Everything here is a function of its arguments.

pub mod encoding;
pub mod extract;
pub mod feed;
pub mod search;
pub mod warning;

pub use feed::{Channel, FeedError, Item, Rss, RSS_ALL, RSS_SEVERE};
pub use warning::{get_warning, get_warnings, Warning};
