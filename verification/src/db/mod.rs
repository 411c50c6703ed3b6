//! The rows of the engine's database and the rules by which they change.

pub mod collections;
pub mod crawl_targets;
pub mod crawled_pages;
pub mod migrations;
pub mod outlink_hosts;
pub mod settings;
