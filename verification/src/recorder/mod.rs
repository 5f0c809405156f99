//! The recording of account state: what to watch, what to keep and when to
//! write it.
pub mod buffers;
pub mod config;
pub mod duration;
pub mod json;
pub mod metadata;
pub mod prices;
pub mod stream;
pub mod watch;
