//! Community Search: a self-hosted, federated search engine.
//!
//! This crate holds the rules of the engine: URL classification, the crawl
//! state machines, rate limiting and admin authentication, gossip between
//! engines, the index batcher, and import and export of collections.
#![allow(unused_imports)]

pub mod api;
pub mod auth;
pub mod collections;
pub mod config;
pub mod crawler;
pub mod db;
pub mod federation;
pub mod hash;
pub mod ids;
pub mod index;
pub mod protocol;
pub mod text;
pub mod time;
