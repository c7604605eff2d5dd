//! Consolidates live order-book snapshots from several exchanges into one
//! ranked, depth-limited view and hands it to a latest-value fan-out cell.
//!
//! The crate is organised leaves-first:
//! - [`decimal`] holds the exact base-10 price/size arithmetic;
//! - [`order_book`] holds the side-aware ranking rules and the book model;
//! - [`aggregator`] keeps the latest snapshot per exchange and merges them;
//! - [`pipeline`] holds the aggregation step and the versioned fan-out cell
//!   that subscribers read coalesced updates from.

pub mod decimal;
pub mod order_book;
pub mod aggregator;
pub mod pipeline;
