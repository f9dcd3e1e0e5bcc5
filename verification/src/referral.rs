//! Fill volume and fees of users under a referral code, and of fills that carry our builder address.
//!
//! A fill is counted if its user is in the tracked referral set, or if it carries our builder address;
//! the exact builder fee comes with the fill.
pub mod address;
pub mod aggregator;
pub mod counting_laws;
pub mod handlers;
pub mod referrer_tracker;
pub mod stats_db;
