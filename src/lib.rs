//! Storage layer of a blockchain index: ordered byte keys, prefix scans,
//! the bulk-load/durable mode lifecycle of the store handle, and a
//! diagnostic that measures how far truncated keys overlap.
pub mod keys;
pub mod collision;
pub mod scan;
pub mod store;
pub mod server;
