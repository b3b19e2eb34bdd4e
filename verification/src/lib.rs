//! Chordia: the music-library logic of the Chordia player, verified with Verus.
//!
//! The library keeps the song database, playlists, smart-playlist rules, settings and
//! playback history as plain values; the program around it reads and writes files,
//! talks to the network and runs the window.
use vstd::prelude::*;

pub mod text;
pub mod types;
pub mod json;
pub mod rules;
pub mod library;
pub mod playlists;
pub mod ids;
pub mod settings;
pub mod history;
pub mod media;
pub mod add_music;
pub mod online;
pub mod storage;
pub mod window;
pub mod bridge;

verus! {

} // verus!
