//! Passive traffic observation core: DNS answer correlation, bidirectional
//! TCP flow tracking with inactivity eviction, and application classification.

pub mod config;
pub mod handlers;
pub mod interface;
pub mod packet_handler;
pub mod stats;
pub mod utils;
