//! Following the node's event files.
pub mod order_book;
