//! Verified core of the messaging service that relays messages between a
//! local chain and its settlement chain.

pub mod config_file;
pub mod gather;
pub mod hash;
pub mod send;
pub mod sent_log;
pub mod service;
