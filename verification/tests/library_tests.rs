use chordia::json::{JsonObject, JsonValue};
use chordia::library::{
    batch_result, delete_multiple_songs, delete_song_by_id, find_song, get_album_list,
    get_artist_list, get_autocomplete_lists, get_common_values_for_selected, get_library_chunk,
    get_library_count, match_search, sort_songs, update_multiple_songs, update_song_by_id,
};

fn song(pairs: &[(&str, &str)]) -> JsonObject {
    let mut o = JsonObject::new();
    for (k, v) in pairs {
        o.insert(k.to_string(), JsonValue::Str(v.to_string()));
    }
    o
}

fn sample_db() -> Vec<JsonObject> {
    vec![
        song(&[("title", "Blue Sky"), ("artist", "Aoi"), ("album", "Skies"), ("track", "10"), ("musicFilename", "library/music/a.mp3")]),
        song(&[("title", "alpha"), ("artist", "Beta Band"), ("album", "Greek"), ("track", "2"), ("musicFilename", "library/music/b.mp3")]),
        song(&[("title", "Charlie"), ("artist", "aoi"), ("album", " Skies "), ("track", "x"), ("musicFilename", "library/music/c.mp3")]),
    ]
}

fn titles(v: &Vec<JsonObject>) -> Vec<String> {
    v.iter().map(|s| s.text_or_empty("title")).collect()
}

#[test]
fn search_matches_case_insensitively() {
    let db = sample_db();
    assert!(match_search(&db[0], "blue"));
    assert!(match_search(&db[0], "SKIES"));
    assert!(!match_search(&db[0], "greek"));
    assert!(!match_search(&db[1], "music"));
    assert_eq!(get_library_count("aoi", &db), 2);
    assert_eq!(get_library_count("", &db), 3);
    assert_eq!(get_library_count("nothing", &db), 0);
}

#[test]
fn chunk_sorts_and_pages() {
    let db = sample_db();
    let all = get_library_chunk(1, 0, Some("title"), false, "", &db);
    assert_eq!(titles(&all), vec!["alpha", "Blue Sky", "Charlie"]);
    let desc = get_library_chunk(1, 0, Some("title"), true, "", &db);
    assert_eq!(titles(&desc), vec!["Charlie", "Blue Sky", "alpha"]);
    let by_track = get_library_chunk(1, 0, Some("track"), false, "", &db);
    assert_eq!(titles(&by_track), vec!["Charlie", "alpha", "Blue Sky"]);
    let page2 = get_library_chunk(2, 2, Some("title"), false, "", &db);
    assert_eq!(titles(&page2), vec!["Charlie"]);
    let page0 = get_library_chunk(0, 2, None, false, "", &db);
    assert_eq!(titles(&page0), vec!["Blue Sky", "alpha"]);
    let beyond = get_library_chunk(5, 2, None, false, "", &db);
    assert!(beyond.is_empty());
    let found = get_library_chunk(1, 10, None, false, "aoi", &db);
    assert_eq!(titles(&found), vec!["Blue Sky", "Charlie"]);
}

#[test]
fn sorting_is_stable() {
    let db = vec![
        song(&[("title", "b"), ("artist", "1")]),
        song(&[("title", "a"), ("artist", "2")]),
        song(&[("title", "B"), ("artist", "3")]),
    ];
    let sorted = sort_songs(db, "title", false);
    let artists: Vec<String> = sorted.iter().map(|s| s.text_or_empty("artist")).collect();
    assert_eq!(artists, vec!["2", "1", "3"]);
}

#[test]
fn tag_lists_are_sorted_and_unique() {
    let db = sample_db();
    assert_eq!(get_album_list(&db), vec!["Greek", "Skies"]);
    assert_eq!(get_artist_list(&db), vec!["Aoi", "Beta Band", "aoi"]);
    let lists = get_autocomplete_lists(&db);
    assert_eq!(lists.title, vec!["Blue Sky", "Charlie", "alpha"]);
    assert_eq!(lists.album, vec!["Greek", "Skies"]);
}

#[test]
fn editing_one_song() {
    let mut db = sample_db();
    assert_eq!(find_song(&db, "library/music/b.mp3"), Some(1));
    assert_eq!(find_song(&db, "b.mp3"), None);
    assert!(update_song_by_id("library/music/b.mp3", "lyric", "l1\r\nl2\rl3", &mut db));
    assert_eq!(db[1].text_or_empty("lyric"), "l1\nl2\nl3");
    assert!(update_song_by_id("library/music/b.mp3", "genre", "rock\r\n", &mut db));
    assert_eq!(db[1].text_or_empty("genre"), "rock\r\n");
    assert!(!update_song_by_id("nope.mp3", "genre", "x", &mut db));
    let removed = delete_song_by_id("library/music/a.mp3", &mut db);
    assert_eq!(removed.map(|s| s.text_or_empty("title")), Some("Blue Sky".to_string()));
    assert_eq!(db.len(), 2);
    assert!(delete_song_by_id("library/music/a.mp3", &mut db).is_none());
}

#[test]
fn common_values_of_a_selection() {
    let db = sample_db();
    let names = vec!["a.mp3".to_string(), "c.mp3".to_string()];
    let common = get_common_values_for_selected(&names, &db);
    assert_eq!(common.text_or_empty("artist"), "< 維持 >");
    assert_eq!(common.text_or_empty("title"), "< 維持 >");
    assert_eq!(common.text_or_empty("genre"), "");
    assert_eq!(common.len(), 11);
    let one = get_common_values_for_selected(&vec!["b.mp3".to_string()], &db);
    assert_eq!(one.text_or_empty("album"), "Greek");
    let none = get_common_values_for_selected(&vec!["zzz.mp3".to_string()], &db);
    assert_eq!(none.len(), 0);
}

#[test]
fn batch_edit_skips_keep_marker() {
    let mut db = sample_db();
    let mut updates = JsonObject::new();
    updates.insert("genre".to_string(), JsonValue::Str("Pop".to_string()));
    updates.insert("artist".to_string(), JsonValue::Str("< 維持 >".to_string()));
    let names = vec!["a.mp3".to_string(), "c.mp3".to_string()];
    let count = update_multiple_songs(&names, &updates, &mut db);
    assert_eq!(count, 2);
    assert_eq!(db[0].text_or_empty("genre"), "Pop");
    assert_eq!(db[0].text_or_empty("artist"), "Aoi");
    assert_eq!(db[1].text_or_empty("genre"), "");
    assert_eq!(db[2].text_or_empty("genre"), "Pop");
    assert_eq!(batch_result(count).to_text(), "{\"count\":2,\"success\":true}");
}

#[test]
fn batch_removal_parts_the_library() {
    let mut db = sample_db();
    let names = vec!["b.mp3".to_string(), "zzz.mp3".to_string()];
    let removed = delete_multiple_songs(&names, &mut db);
    assert_eq!(titles(&removed), vec!["alpha"]);
    assert_eq!(titles(&db), vec!["Blue Sky", "Charlie"]);
    assert_eq!(batch_result(removed.len()).to_text(), "{\"count\":1,\"success\":true}");
}
