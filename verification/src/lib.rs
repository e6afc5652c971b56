//! Hides a named payload in the channels of an RGBA pixel buffer and
//! recovers it again.

pub mod coder;
pub mod config;
