//! The rules behind the administrator's interface.

pub mod collection_peers;
pub mod collections;
pub mod config;
pub mod crawl_targets;
pub mod discovered;
pub mod export_import;
pub mod gossip;
pub mod journey;
pub mod nodes;
pub mod outlinks;
pub mod ranking;
pub mod status;
