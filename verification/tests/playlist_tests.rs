use chordia::json::{JsonObject, JsonValue};
use chordia::playlists::{
    add_songs_to_playlist, convert_smart_to_normal_and_remove_songs, create_playlist,
    create_playlist_with_id, create_smart_playlist_with_id, delete_playlist_by_id,
    duplicate_playlist_with_id, find_playlist, get_playlist_details, get_playlist_summaries,
    get_virtual_playlist_details, remove_songs_from_playlist, update_playlist_by_id,
    update_smart_playlist,
};
use chordia::rules::{evaluate_rules_ordered, evaluate_smart_rules, numeric_test, NumOrder};

fn s(t: &str) -> JsonValue {
    JsonValue::Str(t.to_string())
}

fn obj(pairs: Vec<(&str, JsonValue)>) -> JsonObject {
    let mut o = JsonObject::new();
    for (k, v) in pairs {
        o.insert(k.to_string(), v);
    }
    o
}

fn song(title: &str, artist: &str, year: &str, file: &str) -> JsonObject {
    obj(vec![("title", s(title)), ("artist", s(artist)), ("year", s(year)), ("musicFilename", s(file))])
}

fn library() -> Vec<JsonObject> {
    vec![
        song("One", "Ann", "1999", "library/music/one.mp3"),
        song("Two", "Bob", "2005", "library/music/two.mp3"),
        song("Three", "ann", "2010", "library/music/three.mp3"),
    ]
}

fn number(t: &str) -> f64 {
    t.parse().unwrap_or(0.0)
}

fn numeric(op: &str, value: &str, target: &JsonValue) -> bool {
    let v = number(value);
    match op {
        "range" => match target {
            JsonValue::Array(items) if items.len() == 2 => {
                let lo = match &items[0] {
                    JsonValue::Number(t) => number(t),
                    _ => 0.0,
                };
                let hi = match &items[1] {
                    JsonValue::Number(t) => number(t),
                    _ => 0.0,
                };
                v >= lo && v <= hi
            }
            _ => false,
        },
        _ => {
            let t = match target {
                JsonValue::Number(t) => number(t),
                JsonValue::Str(t) => number(t),
                _ => 0.0,
            };
            match op {
                "equals" => v == t,
                "not_equals" => v != t,
                "greater" => v > t,
                "less" => v < t,
                _ => false,
            }
        }
    }
}

fn filter(tag: &str, op: &str, val: JsonValue) -> JsonValue {
    JsonValue::Object(obj(vec![("type", s("filter")), ("tag", s(tag)), ("op", s(op)), ("val", val)]))
}

fn group(mode: &str, items: Vec<JsonValue>) -> JsonValue {
    JsonValue::Object(obj(vec![("type", s("group")), ("match", s(mode)), ("items", JsonValue::Array(items))]))
}

fn get<'a>(v: &'a JsonValue, k: &str) -> Option<&'a JsonValue> {
    match v {
        JsonValue::Object(o) => o.get(k),
        _ => None,
    }
}

fn text(v: &JsonValue, k: &str) -> String {
    match get(v, k) {
        Some(JsonValue::Str(t)) => t.clone(),
        _ => String::new(),
    }
}

fn strings(v: &JsonValue, k: &str) -> Vec<String> {
    match get(v, k) {
        Some(JsonValue::Array(items)) => items
            .iter()
            .map(|x| match x {
                JsonValue::Str(t) => t.clone(),
                _ => String::new(),
            })
            .collect(),
        _ => vec![],
    }
}

#[test]
fn smart_rules_pick_songs() {
    let db = library();
    let by_artist = filter("artist", "equals", s("ANN"));
    assert!(evaluate_smart_rules(&db[0], &by_artist, &numeric));
    assert!(evaluate_smart_rules(&db[2], &by_artist, &numeric));
    assert!(!evaluate_smart_rules(&db[1], &by_artist, &numeric));
    let newer = filter("year", "greater", JsonValue::Number("2000".to_string()));
    assert!(!evaluate_smart_rules(&db[0], &newer, &numeric));
    assert!(evaluate_smart_rules(&db[1], &newer, &numeric));
    let both = group("all", vec![by_artist.copy(), newer.copy()]);
    assert!(evaluate_smart_rules(&db[2], &both, &numeric));
    assert!(!evaluate_smart_rules(&db[0], &both, &numeric));
    let either = group("any", vec![by_artist.copy(), newer.copy()]);
    assert!(evaluate_smart_rules(&db[0], &either, &numeric));
    assert!(evaluate_smart_rules(&db[1], &either, &numeric));
    assert!(evaluate_smart_rules(&db[0], &group("all", vec![]), &numeric));
    assert!(!evaluate_smart_rules(&db[0], &filter("title", "unknown", s("x")), &numeric));
    assert!(!evaluate_smart_rules(&db[0], &s("not a rule"), &numeric));
    let starts = filter("title", "startswith", s("t"));
    assert!(evaluate_smart_rules(&db[1], &starts, &numeric));
    assert!(!evaluate_smart_rules(&db[0], &starts, &numeric));
    let range = filter("year", "range", JsonValue::Array(vec![JsonValue::Number("2000".to_string()), JsonValue::Number("2008".to_string())]));
    assert!(evaluate_smart_rules(&db[1], &range, &numeric));
    assert!(!evaluate_smart_rules(&db[2], &range, &numeric));
}

#[test]
fn create_find_update_delete() {
    let mut master: Vec<JsonValue> = Vec::new();
    let p = create_playlist_with_id(&mut master, "Mix", "normal", "id1");
    assert_eq!(p.to_text(), "{\"id\":\"id1\",\"playlistName\":\"Mix\",\"sortBy\":\"title\",\"sortDesc\":false,\"type\":\"normal\"}");
    let smart = create_playlist_with_id(&mut master, "Auto", "smart", "id2");
    assert_eq!(strings(&smart, "conditions"), Vec::<String>::new());
    assert_eq!(find_playlist(&master, "id2"), Some(1));
    assert_eq!(find_playlist(&master, "id3"), None);
    let (changed, written) = update_playlist_by_id("id1", "sortDesc", JsonValue::Bool(true), &mut master).unwrap();
    assert!(!written);
    assert!(changed.to_text().contains("\"sortDesc\":true"));
    let (same, written) = update_playlist_by_id("id1", "music", JsonValue::Array(vec![]), &mut master).unwrap();
    assert!(written);
    assert_eq!(text(&same, "playlistName"), "Mix");
    assert!(update_playlist_by_id("nope", "x", JsonValue::Null, &mut master).is_none());
    let copy = duplicate_playlist_with_id("id1", "id9", &mut master).unwrap();
    assert_eq!(text(&copy, "playlistName"), "Mix - コピー");
    assert_eq!(text(&copy, "id"), "id9");
    assert_eq!(master.len(), 3);
    assert!(delete_playlist_by_id("id1", &mut master));
    assert!(!delete_playlist_by_id("id1", &mut master));
    assert_eq!(get_playlist_summaries(&master).len(), 2);
    let fresh = create_playlist(&mut master, "Random", "normal");
    let id = text(&fresh, "id");
    assert_eq!(id.len(), 32);
    assert!(id.chars().all(|c| c.is_ascii_alphanumeric()));
}

#[test]
fn normal_playlist_lists() {
    let mut master: Vec<JsonValue> = Vec::new();
    create_playlist_with_id(&mut master, "Mix", "normal", "p");
    create_smart_playlist_with_id(&mut master, "Auto", filter("artist", "equals", s("ann")), "q");
    let current = vec!["two.mp3".to_string()];
    let names = vec!["one.mp3".to_string(), "two.mp3".to_string(), "one.mp3".to_string()];
    let (_, list) = add_songs_to_playlist("p", &names, &master, current.clone()).unwrap();
    assert_eq!(list, vec!["two.mp3", "one.mp3"]);
    assert!(add_songs_to_playlist("q", &names, &master, current.clone()).is_none());
    assert!(add_songs_to_playlist("zz", &names, &master, current.clone()).is_none());
    let (_, after) = remove_songs_from_playlist("p", &vec!["two.mp3".to_string()], &master, Some(list)).unwrap();
    assert_eq!(after, Some(vec!["one.mp3".to_string()]));
    let (_, none) = remove_songs_from_playlist("p", &names, &master, None).unwrap();
    assert!(none.is_none());
    let db = library();
    let stored = vec!["three.mp3".to_string(), "missing.mp3".to_string(), "one.mp3".to_string()];
    let details = get_playlist_details("p", &master, &db, Some(&stored), &numeric).unwrap();
    assert_eq!(strings(&details, "music"), vec!["three.mp3", "one.mp3"]);
    match get(&details, "songs") {
        Some(JsonValue::Array(items)) => {
            assert_eq!(items.len(), 2);
            assert_eq!(text(&items[0], "title"), "Three");
        }
        _ => panic!("songs missing"),
    }
    assert!(get_playlist_details("zz", &master, &db, None, &numeric).is_none());
}

#[test]
fn smart_playlist_details_and_conversion() {
    let mut master: Vec<JsonValue> = Vec::new();
    create_smart_playlist_with_id(&mut master, "Ann", filter("artist", "equals", s("ann")), "q");
    let db = library();
    let details = get_playlist_details("q", &master, &db, None, &numeric).unwrap();
    assert_eq!(strings(&details, "music"), vec!["one.mp3", "three.mp3"]);
    let renamed = update_smart_playlist("q", "Ann only", filter("title", "contains", s("o")), &mut master).unwrap();
    assert_eq!(text(&renamed, "playlistName"), "Ann only");
    let (p, list) = convert_smart_to_normal_and_remove_songs(
        "q",
        &vec!["two.mp3".to_string()],
        &mut master,
        &db,
        &numeric,
    )
    .unwrap();
    assert_eq!(text(&p, "type"), "normal");
    assert!(get(&p, "conditions").is_none());
    assert_eq!(list, vec!["one.mp3"]);
}

#[test]
fn virtual_playlists_gather_by_tag() {
    let db = library();
    let v = get_virtual_playlist_details("artist", "Ann", &db);
    assert_eq!(text(&v, "id"), "virtual_artist_Ann");
    assert_eq!(text(&v, "type"), "virtual");
    assert_eq!(strings(&v, "music"), vec!["one.mp3"]);
}

fn order(value: &str, target: &JsonValue, text: bool) -> NumOrder {
    let v: f64 = value.parse().unwrap_or(0.0);
    let t: f64 = match target {
        JsonValue::Number(n) => n.parse().unwrap_or(0.0),
        JsonValue::Str(n) if text => n.parse().unwrap_or(0.0),
        _ => 0.0,
    };
    match v.partial_cmp(&t) {
        Some(std::cmp::Ordering::Less) => NumOrder::Less,
        Some(std::cmp::Ordering::Equal) => NumOrder::Equal,
        Some(std::cmp::Ordering::Greater) => NumOrder::Greater,
        None => NumOrder::Unordered,
    }
}

#[test]
fn numeric_filters_pick_their_comparison() {
    let n = |t: &str| JsonValue::Number(t.to_string());
    let range = JsonValue::Array(vec![n("1990"), n("2000")]);
    assert!(numeric_test("range", "1999", &range, &order));
    assert!(numeric_test("range", "2000", &range, &order));
    assert!(!numeric_test("range", "2005", &range, &order));
    assert!(!numeric_test("range", "1999", &JsonValue::Array(vec![n("1990")]), &order));
    assert!(!numeric_test("range", "1999", &n("1999"), &order));
    let text_ends = JsonValue::Array(vec![s("1990"), s("2000")]);
    assert!(!numeric_test("range", "1999", &text_ends, &order));
    assert!(numeric_test("range", "0", &text_ends, &order));
    assert!(numeric_test("equals", "7", &s("7"), &order));
    assert!(numeric_test("not_equals", "7", &n("8"), &order));
    assert!(numeric_test("greater", "9", &n("8"), &order));
    assert!(numeric_test("less", "x", &n("1"), &order));
    assert!(!numeric_test("between", "1", &n("1"), &order));
    assert!(numeric_test("not_equals", "NaN", &n("1"), &order));
    assert!(!numeric_test("equals", "NaN", &n("1"), &order));
}

#[test]
fn text_rules_do_not_ask_the_numbers() {
    let db = library();
    let yes = |_: &str, _: &str, _: &JsonValue| true;
    let no = |_: &str, _: &str, _: &JsonValue| false;
    let rule = group("any", vec![filter("artist", "equals", s("bob")), filter("title", "contains", s("on"))]);
    for song in &db {
        assert_eq!(evaluate_smart_rules(song, &rule, &yes), evaluate_smart_rules(song, &rule, &no));
    }
    assert!(evaluate_smart_rules(&db[0], &rule, &no));
    let numeric_rule = filter("year", "equals", s("1999"));
    assert!(evaluate_smart_rules(&db[0], &numeric_rule, &yes));
    assert!(!evaluate_smart_rules(&db[0], &numeric_rule, &no));
}

#[test]
fn rules_with_ordered_numbers() {
    let db = library();
    let n = |t: &str| JsonValue::Number(t.to_string());
    let nineties = filter("year", "range", JsonValue::Array(vec![n("1990"), n("1999")]));
    assert!(evaluate_rules_ordered(&db[0], &nineties, &order));
    assert!(!evaluate_rules_ordered(&db[1], &nineties, &order));
    let broken = vec![
        s("not a rule"),
        filter("year", "contains", s("19")),
        filter("title", "greater", s("a")),
        filter("year", "range", n("1999")),
        JsonValue::Object(obj(vec![("type", s("other"))])),
    ];
    for song in &db {
        for rule in &broken {
            assert!(!evaluate_rules_ordered(song, rule, &order));
        }
        for (tag, val) in [("year", s("1999")), ("artist", s("ann"))] {
            let eq = evaluate_rules_ordered(song, &filter(tag, "equals", val.copy()), &order);
            let ne = evaluate_rules_ordered(song, &filter(tag, "not_equals", val.copy()), &order);
            assert_ne!(eq, ne);
        }
        let has = evaluate_rules_ordered(song, &filter("title", "contains", s("o")), &order);
        let lacks = evaluate_rules_ordered(song, &filter("title", "not_contains", s("o")), &order);
        assert_ne!(has, lacks);
    }
}
