//! Clearing-house replay, order-book streaming and usage statistics for a Hyperliquid node.
//!
//! The crate holds the state machines, parsers and rules; reading files, sockets and databases is
//! left to the programs around it. Balances are 64-bit integers whose sums wrap around, as they do
//! in an optimised build.
pub mod arrivals;
pub mod assetmap;
pub mod bytes;
pub mod clearing_house;
pub mod config;
pub mod daykeys;
pub mod hex;
pub mod history;
pub mod json;
pub mod levels;
pub mod listeners;
pub mod msgpack;
pub mod msgpack_laws;
pub mod nameset;
pub mod order;
pub mod proxy;
pub mod proxy_laws;
pub mod referral;
pub mod relay;
pub mod rows;
pub mod servers;
pub mod strategy;
pub mod strmap;
pub mod text;
pub mod text_laws;
pub mod tools;
pub mod types;
