//! Federation: engines that know each other, forward searches and keep track
//! of each other's health.

pub mod discovered;
pub mod fanout;
pub mod gossip;
pub mod health;
pub mod peer;
pub mod storage;
