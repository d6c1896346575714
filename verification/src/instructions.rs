//! The instructions of the protocol.

pub mod mint_master_agent;
