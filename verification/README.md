# chordia

The music-library logic of the Chordia player, written in Verus. The functions of `src/` carry
contracts that Verus proves, except the small wrappers marked `#[verifier::external_body]`
around calls into `std`, `base64`, `urlencoding`, `image`, `id3`, `rand`, `rust-ini` and
`chrono`: their contracts state what those crates do and are believed, not proved.

- `src/json.rs` – JSON values as the library holds them; objects keep their keys sorted and unique.
- `src/text.rs` – text operations (trimming, searching, splitting, numbers as text) with their laws.
- `src/library.rs` – search, stable sorting and paging of the song database; editing songs one at a time or in batches.
- `src/rules.rs` – smart-playlist rules.
- `src/playlists.rs` – normal, smart and virtual playlists.
- `src/add_music.rs`, `src/media.rs`, `src/online.rs` – the records stored for new songs, artwork, data URLs and answers built from online services.
- `src/settings.rs`, `src/history.rs`, `src/storage.rs`, `src/window.rs` – settings files, playback history, the stored database and the mini player.
- `app/` – a command-line program around the library: files, processes, network and the floating-point comparisons of smart-playlist filters.
- `tests/` – tests on concrete values.
