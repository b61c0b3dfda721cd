//! Rate limiting service core: limiter algorithms, rule matching, key
//! extraction, rule configuration and the decisions taken on each check.
pub mod time;
pub mod text;
pub mod assoc;
pub mod algorithm;
pub mod key_extractor;
pub mod config;
pub mod api;
pub mod alert;
pub mod store;
