use chordia::history::{get_playback_history, record_playback, record_playback_at};
use chordia::json::{JsonObject, JsonValue};

fn s(t: &str) -> JsonValue {
    JsonValue::Str(t.to_string())
}

fn played(title: &str, path: &str) -> JsonObject {
    let mut o = JsonObject::new();
    o.insert("title".to_string(), s(title));
    o.insert("musicFilename".to_string(), s(path));
    o
}

#[test]
fn a_play_is_counted_and_listed() {
    let mut counts = JsonObject::new();
    let mut history: Vec<JsonValue> = Vec::new();
    let song = played("Song", "library/music/abc.mp3");
    assert!(record_playback_at(&song, &mut counts, &mut history, "2024-01-02 03:04:05".to_string()));
    assert!(record_playback_at(&song, &mut counts, &mut history, "2024-01-02 03:09:05".to_string()));
    assert_eq!(JsonValue::Object(counts.copy()).to_text(), "{\"abc.mp3\":2}");
    assert_eq!(history.len(), 2);
    assert_eq!(
        history[0].to_text(),
        "{\"artist\":null,\"filename\":\"abc.mp3\",\"timestamp\":\"2024-01-02 03:04:05\",\"title\":\"Song\"}"
    );
}

#[test]
fn counts_continue_from_stored_integers() {
    let mut counts = JsonObject::new();
    counts.insert("x.mp3".to_string(), JsonValue::Number("41".to_string()));
    counts.insert("y.mp3".to_string(), JsonValue::Number("2.5".to_string()));
    let mut history: Vec<JsonValue> = Vec::new();
    record_playback_at(&played("X", "dir\\x.mp3"), &mut counts, &mut history, "t".to_string());
    record_playback_at(&played("Y", "y.mp3"), &mut counts, &mut history, "t".to_string());
    assert_eq!(JsonValue::Object(counts.copy()).to_text(), "{\"x.mp3\":42,\"y.mp3\":1}");
}

#[test]
fn songs_without_file_are_not_recorded() {
    let mut counts = JsonObject::new();
    let mut history: Vec<JsonValue> = Vec::new();
    let mut song = JsonObject::new();
    song.insert("title".to_string(), s("No file"));
    assert!(!record_playback_at(&song, &mut counts, &mut history, "t".to_string()));
    assert!(!record_playback_at(&played("Dir", "library/music/"), &mut counts, &mut history, "t".to_string()));
    assert_eq!(counts.len(), 0);
    assert!(history.is_empty());
}

#[test]
fn history_keeps_the_newest_thousand() {
    let mut counts = JsonObject::new();
    let mut history: Vec<JsonValue> = Vec::new();
    for i in 0..1001 {
        let song = played(&format!("S{}", i), &format!("f{}.mp3", i % 3));
        record_playback_at(&song, &mut counts, &mut history, format!("{}", i));
    }
    assert_eq!(history.len(), 1000);
    assert!(history[0].to_text().contains("\"title\":\"S1\""));
    assert!(history[999].to_text().contains("\"title\":\"S1000\""));
    let newest_first = get_playback_history(history);
    assert!(newest_first[0].to_text().contains("\"title\":\"S1000\""));
    assert!(newest_first[999].to_text().contains("\"title\":\"S1\""));
}

#[test]
fn recording_now_writes_a_timestamp() {
    let mut counts = JsonObject::new();
    let mut history: Vec<JsonValue> = Vec::new();
    assert!(record_playback(&played("Now", "now.mp3"), &mut counts, &mut history));
    assert_eq!(history.len(), 1);
    let text = history[0].to_text();
    let key = "\"timestamp\":\"";
    let start = text.find(key).unwrap() + key.len();
    let stamp: Vec<char> = text[start..].chars().take_while(|c| *c != '"').collect();
    assert_eq!(stamp.len(), 19);
    for (i, c) in stamp.iter().enumerate() {
        match i {
            4 | 7 => assert_eq!(*c, '-'),
            10 => assert_eq!(*c, ' '),
            13 | 16 => assert_eq!(*c, ':'),
            _ => assert!(c.is_ascii_digit()),
        }
    }
}
