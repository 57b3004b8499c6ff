//! File integrity monitoring: a baseline of file hashes, the alerts raised
//! when a file changes, and the rules that decide both.

pub mod text;
pub mod digest;
pub mod json;
pub mod baseline;
pub mod clock;
pub mod alerts;
pub mod dirs;
pub mod monitor;
pub mod menu;
pub mod hash_storage;
