use chordia::bridge::{
    control_from_mini, get_playback_state_bridge, set_mini_player_open,
    update_playback_state_bridge, PlayerBridge,
};
use chordia::json::{JsonObject, JsonValue};
use chordia::online::{
    error_result, fetch_and_crop_image_url, fetch_video_info, fetch_youtube_playlist,
    search_lyrics_url, stderr_result,
};
use chordia::storage::{get_library_data_with_meta, load_db, save_db};
use chordia::window::{is_frameless_window, mini_player_size};

fn s(t: &str) -> JsonValue {
    JsonValue::Str(t.to_string())
}

fn obj(pairs: Vec<(&str, JsonValue)>) -> JsonObject {
    let mut o = JsonObject::new();
    for (k, v) in pairs {
        o.insert(k.to_string(), v);
    }
    o
}

#[test]
fn video_info_answers() {
    let info = JsonValue::Object(obj(vec![
        ("title", s("Clip")),
        ("duration", JsonValue::Number("61".to_string())),
        ("extra", s("ignored")),
    ]));
    assert_eq!(
        fetch_video_info(Some(info)).to_text(),
        "{\"duration\":61,\"status\":\"success\",\"thumbnail\":null,\"title\":\"Clip\",\"uploader\":null}"
    );
    assert_eq!(fetch_video_info(None).to_text(), "{\"message\":\"JSON error\",\"status\":\"error\"}");
    assert_eq!(stderr_result("  boom \n").to_text(), "{\"message\":\"boom\",\"status\":\"error\"}");
    assert_eq!(error_result("x").to_text(), "{\"message\":\"x\",\"status\":\"error\"}");
}

#[test]
fn playlist_entries() {
    let entries = vec![
        JsonValue::Object(obj(vec![("title", s("A")), ("url", s("https://a")), ("id", s("ia"))])),
        JsonValue::Object(obj(vec![("title", s("[Private video]")), ("id", s("p"))])),
        JsonValue::Object(obj(vec![("title", s("B")), ("id", s("ib"))])),
        JsonValue::Object(obj(vec![("title", s("[Deleted video]"))])),
        JsonValue::Null,
    ];
    assert_eq!(
        fetch_youtube_playlist(&entries).to_text(),
        "{\"status\":\"success\",\"videos\":[\
{\"duration\":null,\"thumbnail\":null,\"title\":\"A\",\"uploader\":null,\"url\":\"https://a\"},\
{\"duration\":null,\"thumbnail\":null,\"title\":\"B\",\"uploader\":null,\"url\":\"https://www.youtube.com/watch?v=ib\"},\
{\"duration\":null,\"thumbnail\":null,\"title\":null,\"uploader\":null,\"url\":\"https://www.youtube.com/watch?v=\"}]}"
    );
}

#[test]
fn artwork_answers_and_lyrics_address() {
    assert_eq!(
        fetch_and_crop_image_url(Some("data:x".to_string())).to_text(),
        "{\"data\":\"data:x\",\"status\":\"success\"}"
    );
    assert_eq!(fetch_and_crop_image_url(None).to_text(), "{\"message\":\"Failed\",\"status\":\"error\"}");
    assert_eq!(
        search_lyrics_url("Blue Sky", "A&B"),
        "https://lrclib.net/api/search?track_name=Blue%20Sky&artist_name=A%26B"
    );
}

#[test]
fn stored_and_loaded_records() {
    let song = obj(vec![
        ("title", s("T")),
        ("musicFilename", s("library/music/a.mp3")),
        ("imageFilename", s("library/images/a.png")),
        ("duration", s("1:00")),
        ("streamUrl", s("old")),
    ]);
    let saved = save_db(&vec![song.copy()]);
    assert_eq!(
        JsonValue::Object(saved[0].copy()).to_text(),
        "{\"imageFilename\":\"library/images/a.png\",\"musicFilename\":\"library/music/a.mp3\",\"title\":\"T\"}"
    );
    let loaded = load_db(saved, &vec![Some(75)], |p: &str| format!("url:{}", p));
    assert_eq!(
        JsonValue::Object(loaded[0].copy()).to_text(),
        "{\"duration\":\"1:15\",\"imageData\":\"url:library/images/a.png\",\"imageFilename\":\"library/images/a.png\",\"musicFilename\":\"library/music/a.mp3\",\"streamUrl\":\"url:library/music/a.mp3\",\"title\":\"T\"}"
    );
    let meta = get_library_data_with_meta(false, &vec![song.copy()], &vec![None], |p: &str| format!("img:{}", p));
    assert!(meta[0].to_text().contains("\"duration\":\"--:--\""));
    assert!(meta[0].to_text().contains("\"imageData\":\"\""));
    let with_images = get_library_data_with_meta(true, &vec![song], &vec![None], |p: &str| format!("img:{}", p));
    assert!(with_images[0].to_text().contains("\"imageData\":\"img:library/images/a.png\""));
}

#[test]
fn mini_player_windows() {
    assert!(is_frameless_window("mini_player_window"));
    assert!(!is_frameless_window("main"));
    assert_eq!(mini_player_size("large"), Some((450, 750)));
    assert_eq!(mini_player_size("medium"), Some((320, 550)));
    assert_eq!(mini_player_size("small"), Some((250, 250)));
    assert_eq!(mini_player_size("huge"), None);
}

#[test]
fn the_mini_player_bridge() {
    let mut b = PlayerBridge::new();
    assert!(update_playback_state_bridge(&mut b, s("playing")).is_none());
    assert_eq!(get_playback_state_bridge(&b).to_text(), "\"playing\"");
    set_mini_player_open(&mut b, true);
    let passed = update_playback_state_bridge(&mut b, s("paused")).unwrap();
    assert_eq!(passed.to_text(), "\"paused\"");
    assert_eq!(get_playback_state_bridge(&b).to_text(), "\"paused\"");
    assert_eq!(
        control_from_mini("next".to_string(), JsonValue::Null).to_text(),
        "{\"action\":\"next\",\"data\":null}"
    );
}
