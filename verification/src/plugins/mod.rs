//! The lint plugins built on the plugin development kit.
pub mod config;
pub mod no_doubled_joshi;
pub mod max_ten;
pub mod no_todo;
pub mod sentence_length;
