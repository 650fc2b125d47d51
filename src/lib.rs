//! A chat bot's core: trigger matching on message tokens, random reply
//! selection, custom emoji shortcode substitution and a lazily refreshed
//! per-server emoji cache.

pub mod config;
pub mod emoji;
pub mod handler;
pub mod matcher;
pub mod render;
pub mod text;
