//! Star-history tracking for a GitHub account.
//!
//! The crate keeps an analytical store of starred repositories: their latest
//! stargazer totals, primary languages, originality flags and an append-only
//! log of stargazer events.  On top of the store it provides the decision
//! logic of an incremental synchronisation pipeline: paging through the
//! account's repositories, classifying repositories as original, backfilling
//! exactly the missing slice of each repository's stargazer history, and
//! preparing time-series data for charts.  Network transport and chart
//! drawing are left to the embedding application; this crate holds the rules.

pub mod api;
pub mod backfill;
pub mod chart;
pub mod classify;
pub mod date;
pub mod history;
pub mod listing;
pub mod pipeline;
pub mod store;
