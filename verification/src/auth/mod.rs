//! The administrator's token.

pub mod token;
