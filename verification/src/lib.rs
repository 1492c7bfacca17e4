//! A shield in front of an Ethereum JSON-RPC node: raw transactions whose
//! recipient is on an alert list, or whose recipient imitates an address the
//! user dealt with before, are refused instead of being forwarded.

pub mod encoding;
pub mod address;
pub mod types;
pub mod transaction;
pub mod alert_list;
pub mod shield;
