//! The records that the library hands to the user interface.
use vstd::prelude::*;

verus! {

/// The player's settings, as the settings file holds them.
#[derive(Debug)]
pub struct AppSettings {
    pub items_per_page: i32,
    pub open_player_new_window: bool,
    pub open_manage_new_window: bool,
    pub developer_mode: bool,
    pub lazy_load_playlists: bool,
    pub primary_color: String,
    pub background_color: String,
    pub sub_background_color: String,
    pub text_color: String,
    pub theme_mode: String,
    pub active_tags: Vec<String>,
    pub player_visible_tags: Vec<String>,
}

/// A tag that songs can carry: its key in the song record and the label shown for it.
#[derive(Debug)]
pub struct TagInfo {
    pub key: String,
    pub label: String,
}

/// The values offered when typing a title, an artist or an album.
#[derive(Debug)]
pub struct AutocompleteLists {
    pub title: Vec<String>,
    pub artist: Vec<String>,
    pub album: Vec<String>,
}

/// A song of the library that looks like the one being added.
#[derive(Debug)]
pub struct DuplicateSong {
    pub title: String,
    pub artist: String,
    pub album: String,
    pub filename: String,
    pub image_data: String,
}

} // verus!
