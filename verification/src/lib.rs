//! Verified core of an audio streaming and mixing player.
pub mod decimal;
pub mod range_source;
pub mod pcm;
pub mod mixer;
pub mod text;
pub mod cache;
pub mod search;
pub mod extract;
pub mod analyze;
pub mod player;
pub mod commands;
