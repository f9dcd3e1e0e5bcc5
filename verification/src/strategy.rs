//! Fill volume by strategy.
//!
//! Orders of a strategy carry a client order id of sixteen bytes: two bytes of magic, a version, the
//! eight bytes of the strategy's key, and five bytes that make the id unique. A fill counts for the
//! strategy where it is counted at all and its order carries such an id.
pub mod aggregator;
pub mod handlers;
pub mod stats_db;
