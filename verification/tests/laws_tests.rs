use chordia::json::{JsonObject, JsonValue};
use chordia::library::{
    get_common_values_for_selected, get_library_chunk, sort_songs, update_multiple_songs,
};
use chordia::playlists::{
    add_songs_to_playlist, create_playlist_with_id, delete_playlist_by_id, find_playlist,
    remove_songs_from_playlist,
};

fn song(title: &str, n: usize) -> JsonObject {
    let mut o = JsonObject::new();
    o.insert("title".to_string(), JsonValue::Str(title.to_string()));
    o.insert("musicFilename".to_string(), JsonValue::Str(format!("m/{}.mp3", n)));
    o
}

fn files(v: &[JsonObject]) -> Vec<String> {
    v.iter().map(|s| s.text_or_empty("musicFilename")).collect()
}

#[test]
fn removing_added_songs_gives_the_list_back() {
    let mut master: Vec<JsonValue> = Vec::new();
    create_playlist_with_id(&mut master, "Mix", "normal", "p");
    let before = vec!["a.mp3".to_string(), "b.mp3".to_string()];
    let added = vec!["c.mp3".to_string(), "d.mp3".to_string(), "c.mp3".to_string()];
    let (_, list) = add_songs_to_playlist("p", &added, &master, before.clone()).unwrap();
    assert_eq!(list, vec!["a.mp3", "b.mp3", "c.mp3", "d.mp3"]);
    let (_, back) = remove_songs_from_playlist("p", &added, &master, Some(list)).unwrap();
    assert_eq!(back, Some(before));
}

#[test]
fn a_created_playlist_is_found_and_deleted() {
    let mut master: Vec<JsonValue> = Vec::new();
    create_playlist_with_id(&mut master, "A", "normal", "a");
    let before: Vec<String> = master.iter().map(|p| p.to_text()).collect();
    create_playlist_with_id(&mut master, "B", "smart", "b");
    assert_eq!(find_playlist(&master, "b"), Some(1));
    assert!(delete_playlist_by_id("b", &mut master));
    let after: Vec<String> = master.iter().map(|p| p.to_text()).collect();
    assert_eq!(after, before);
    assert_eq!(find_playlist(&master, "b"), None);
}

#[test]
fn sorting_keeps_every_song() {
    let db: Vec<JsonObject> = ["d", "b", "a", "b", "c"].iter().enumerate().map(|(i, t)| song(t, i)).collect();
    let mut before = files(&db);
    let sorted = sort_songs(db, "title", true);
    let mut after = files(&sorted);
    before.sort();
    after.sort();
    assert_eq!(before, after);
}

#[test]
fn pages_one_after_another_give_the_list() {
    let db: Vec<JsonObject> = (0..7).map(|i| song(&format!("t{}", i), i)).collect();
    let whole = files(&get_library_chunk(1, 0, None, false, "", &db));
    let mut joined: Vec<String> = Vec::new();
    for page in 1..=4 {
        joined.extend(files(&get_library_chunk(page, 3, None, false, "", &db)));
    }
    assert_eq!(joined, whole);
}

#[test]
fn saving_the_shown_batch_values_changes_nothing() {
    let keys = ["title", "artist", "album", "genre", "year", "track", "disc", "bpm", "composer", "comment", "lyric"];
    let mut db: Vec<JsonObject> = Vec::new();
    for (n, artist) in ["X", "X", "Y"].iter().enumerate() {
        let mut o = JsonObject::new();
        for k in keys {
            let v = if k == "artist" { artist.to_string() } else if k == "title" { format!("t{}", n) } else { "same".to_string() };
            o.insert(k.to_string(), JsonValue::Str(v));
        }
        o.insert("musicFilename".to_string(), JsonValue::Str(format!("m/{}.mp3", n)));
        db.push(o);
    }
    let names = vec!["0.mp3".to_string(), "1.mp3".to_string()];
    let shown = get_common_values_for_selected(&names, &db);
    assert_eq!(shown.text_or_empty("artist"), "X");
    assert_eq!(shown.text_or_empty("title"), "< 維持 >");
    let before: Vec<String> = db.iter().map(|o| JsonValue::Object(o.copy()).to_text()).collect();
    assert_eq!(update_multiple_songs(&names, &shown, &mut db), 2);
    let after: Vec<String> = db.iter().map(|o| JsonValue::Object(o.copy()).to_text()).collect();
    assert_eq!(before, after);
}

#[test]
fn adding_the_same_songs_twice_changes_nothing() {
    let mut master: Vec<JsonValue> = Vec::new();
    create_playlist_with_id(&mut master, "Mix", "normal", "p");
    let added = vec!["c.mp3".to_string(), "a.mp3".to_string()];
    let (_, once) = add_songs_to_playlist("p", &added, &master, vec!["a.mp3".to_string()]).unwrap();
    let (_, twice) = add_songs_to_playlist("p", &added, &master, once.clone()).unwrap();
    assert_eq!(once, vec!["a.mp3", "c.mp3"]);
    assert_eq!(twice, once);
}

#[test]
fn saving_what_was_loaded_writes_what_was_read() {
    let stored = vec![song("A", 1), song("B", 2)];
    let loaded = chordia::storage::load_db(stored.iter().map(|s| s.copy()).collect(), &vec![Some(61), None], |p: &str| format!("asset://{}", p));
    assert_eq!(loaded[0].text_or_empty("duration"), "1:01");
    assert_eq!(loaded[1].text_or_empty("duration"), "--:--");
    let saved = chordia::storage::save_db(&loaded);
    let texts = |v: &[JsonObject]| -> Vec<String> { v.iter().map(|o| JsonValue::Object(o.copy()).to_text()).collect() };
    assert_eq!(texts(&saved), texts(&stored));
}
