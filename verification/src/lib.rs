//! Per-guild audio playback coordination for a chat bot.
//!
//! Each guild (chat server) owns a [`connection::CallConnection`]: a queue of
//! pending links, the tracks already resolved into playable sources, and a
//! flag saying whether the playback engine is currently rendering a track.
//! The [`player::MusicPlayer`] registry maps guild ids to their connections
//! and carries out the `play`, `skip` and `clear` commands as state-machine
//! transitions; the asynchronous shell around the library performs the
//! engine calls and resolver invocations that the transitions ask for.

pub mod connection;
pub mod player;
pub mod utils;
