//! Watchlist aggregation for status-bar menus over one or more wikis.
//!
//! The library collapses raw unread-change records to the oldest unread
//! revision per page, merges the per-wiki results in configuration order,
//! and derives the menu description and the batch "open all" URL list.

pub mod aggregate;
pub mod config;
pub mod error;
pub mod item;
pub mod json;
pub mod menu;
pub mod open_all;
pub mod reduce;
pub mod text;
pub mod watchlist;

pub use config::WikiConfig;
pub use error::Error;
pub use item::WatchlistItem;
