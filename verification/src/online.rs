//! Answers built from what online services and the video downloader give back.
use vstd::prelude::*;
use crate::json::{jviews, Json, JsonObject, JsonValue};
use crate::media::{url_encode, url_encoded};
use crate::text::{concat_text, trim, trimmed};

verus! {

/// `value[key]`: the member `key` of an object, or null for a missing member or a value that
/// is no object.
pub open spec fn index_of(v: Json, key: Seq<char>) -> Json {
    match v {
        Json::Object(m) => if m.contains_key(key) {
            m[key]
        } else {
            Json::Null
        },
        _ => Json::Null,
    }
}

fn index_copy(v: &JsonValue, key: &str) -> (r: JsonValue)
    ensures
        r@ == index_of(v@, key@),
{
    match v {
        JsonValue::Object(o) => match o.get(key) {
            Some(x) => x.copy(),
            None => JsonValue::Null,
        },
        _ => JsonValue::Null,
    }
}

fn put(o: &mut JsonObject, k: &str, v: JsonValue)
    ensures
        final(o)@ == old(o)@.insert(k@, v@),
{
    o.insert(k.to_string(), v);
}

/// `{"message": message, "status": "error"}`.
pub open spec fn error_model(message: Seq<char>) -> Json {
    Json::Object(
        Map::<Seq<char>, Json>::empty().insert("status"@, Json::Str("error"@)).insert(
            "message"@,
            Json::Str(message),
        ),
    )
}

/// The answer for a failure, with its message.
pub fn error_result(message: &str) -> (r: JsonValue)
    ensures
        r@ == error_model(message@),
{
    let mut o = JsonObject::new();
    put(&mut o, "status", JsonValue::Str("error".to_string()));
    put(&mut o, "message", JsonValue::Str(message.to_string()));
    JsonValue::Object(o)
}

/// The answer when the downloader ran and failed: its error output, trimmed.
pub fn stderr_result(stderr: &str) -> (r: JsonValue)
    ensures
        r@ == error_model(trimmed(stderr@)),
{
    let t = trim(stderr);
    error_result(t.as_str())
}

/// The answer to a video lookup (`fetch_video_info`) from what the downloader printed, read
/// as JSON (`None` when it is not JSON): its title, duration, thumbnail and uploader.
pub open spec fn video_info_model(info: Option<Json>) -> Json {
    match info {
        Some(i) => Json::Object(
            Map::<Seq<char>, Json>::empty().insert("status"@, Json::Str("success"@)).insert(
                "title"@,
                index_of(i, "title"@),
            ).insert("duration"@, index_of(i, "duration"@)).insert(
                "thumbnail"@,
                index_of(i, "thumbnail"@),
            ).insert("uploader"@, index_of(i, "uploader"@)),
        ),
        None => error_model("JSON error"@),
    }
}

/// The answer to a video lookup when the downloader succeeded (see `video_info_model`).
pub fn fetch_video_info(info: Option<JsonValue>) -> (r: JsonValue)
    ensures
        r@ == video_info_model(
            match info {
                Some(i) => Some(i@),
                None => None,
            },
        ),
{
    match info {
        Some(i) => {
            let mut o = JsonObject::new();
            put(&mut o, "status", JsonValue::Str("success".to_string()));
            put(&mut o, "title", index_copy(&i, "title"));
            put(&mut o, "duration", index_copy(&i, "duration"));
            put(&mut o, "thumbnail", index_copy(&i, "thumbnail"));
            put(&mut o, "uploader", index_copy(&i, "uploader"));
            JsonValue::Object(o)
        },
        None => error_result("JSON error"),
    }
}

/// A playlist entry that the downloader lists but that cannot be played.
pub open spec fn is_unavailable(entry: Json) -> bool {
    index_of(entry, "title"@) == Json::Str("[Private video]"@) || index_of(entry, "title"@)
        == Json::Str("[Deleted video]"@)
}

/// The address of a playlist entry: its `url` text, else the watch page of its `id` text.
pub open spec fn entry_url(entry: Json) -> Seq<char> {
    match index_of(entry, "url"@) {
        Json::Str(u) => u,
        _ => "https://www.youtube.com/watch?v="@ + match index_of(entry, "id"@) {
            Json::Str(id) => id,
            _ => Seq::empty(),
        },
    }
}

/// What the answer shows of a playlist entry.
pub open spec fn entry_model(entry: Json) -> Json {
    Json::Object(
        Map::<Seq<char>, Json>::empty().insert("title"@, index_of(entry, "title"@)).insert(
            "uploader"@,
            index_of(entry, "uploader"@),
        ).insert("duration"@, index_of(entry, "duration"@)).insert(
            "thumbnail"@,
            index_of(entry, "thumbnail"@),
        ).insert("url"@, Json::Str(entry_url(entry))),
    )
}

/// The entries of a playlist that can be played, as the answer shows them.
pub open spec fn playable_entries(entries: Seq<Json>) -> Seq<Json> {
    entries.filter(|e: Json| !is_unavailable(e)).map_values(|e: Json| entry_model(e))
}

fn is_unavailable_of(entry: &JsonValue) -> (r: bool)
    ensures
        r == is_unavailable(entry@),
{
    match entry {
        JsonValue::Object(o) => match o.get("title") {
            Some(JsonValue::Str(t)) => crate::text::same_text(t.as_str(), "[Private video]")
                || crate::text::same_text(t.as_str(), "[Deleted video]"),
            _ => false,
        },
        _ => false,
    }
}

fn entry_url_of(entry: &JsonValue) -> (r: String)
    ensures
        r@ == entry_url(entry@),
{
    match index_copy(entry, "url") {
        JsonValue::Str(u) => u,
        _ => {
            let id = match index_copy(entry, "id") {
                JsonValue::Str(i) => i,
                _ => String::new(),
            };
            concat_text("https://www.youtube.com/watch?v=", id.as_str())
        },
    }
}

fn entry_of(entry: &JsonValue) -> (r: JsonValue)
    ensures
        r@ == entry_model(entry@),
{
    let mut o = JsonObject::new();
    put(&mut o, "title", index_copy(entry, "title"));
    put(&mut o, "uploader", index_copy(entry, "uploader"));
    put(&mut o, "duration", index_copy(entry, "duration"));
    put(&mut o, "thumbnail", index_copy(entry, "thumbnail"));
    put(&mut o, "url", JsonValue::Str(entry_url_of(entry)));
    JsonValue::Object(o)
}

/// The answer to a playlist lookup (`fetch_youtube_playlist`) from the entries the
/// downloader printed, one JSON value per line: `{"status": "success", "videos": [...]}`
/// with the playable entries, in order.
pub fn fetch_youtube_playlist(entries: &Vec<JsonValue>) -> (r: JsonValue)
    ensures
        r@ == Json::Object(
            Map::<Seq<char>, Json>::empty().insert("status"@, Json::Str("success"@)).insert(
                "videos"@,
                Json::Array(playable_entries(jviews(entries@))),
            ),
        ),
{
    let ghost keep = |e: Json| !is_unavailable(e);
    let ghost f = |e: Json| entry_model(e);
    let mut videos: Vec<JsonValue> = Vec::new();
    let mut i: usize = 0;
    while i < entries.len()
        invariant
            i <= entries@.len(),
            keep == (|e: Json| !is_unavailable(e)),
            f == (|e: Json| entry_model(e)),
            jviews(videos@) == jviews(entries@).take(i as int).filter(keep).map_values(f),
        decreases entries@.len() - i,
    {
        proof {
            jviews(entries@).take(i as int).lemma_filter_push(jviews(entries@)[i as int], keep);
            assert(jviews(entries@).take(i + 1) =~= jviews(entries@).take(i as int).push(
                jviews(entries@)[i as int],
            ));
        }
        if !is_unavailable_of(&entries[i]) {
            let v = entry_of(&entries[i]);
            let ghost b = videos@;
            videos.push(v);
            proof {
                let g = jviews(entries@).take(i as int).filter(keep);
                assert(g.push(entries@[i as int]@).map_values(f) =~= g.map_values(f).push(v@));
                assert(jviews(videos@) =~= jviews(b).push(v@));
            }
        } else {
        }
        i = i + 1;
    }
    proof {
        assert(jviews(entries@).take(entries@.len() as int) =~= jviews(entries@));
    }
    let mut o = JsonObject::new();
    put(&mut o, "status", JsonValue::Str("success".to_string()));
    put(&mut o, "videos", JsonValue::array(videos));
    JsonValue::Object(o)
}

/// The answer to an artwork request (`fetch_and_crop_image_url`): the artwork's data URL, or
/// `{"message": "Failed", "status": "error"}` when there is none.
pub fn fetch_and_crop_image_url(artwork: Option<String>) -> (r: JsonValue)
    ensures
        artwork is None ==> r@ == error_model("Failed"@),
        artwork matches Some(b) ==> r@ == Json::Object(
            Map::<Seq<char>, Json>::empty().insert("status"@, Json::Str("success"@)).insert(
                "data"@,
                Json::Str(b@),
            ),
        ),
{
    match artwork {
        Some(b) => {
            let mut o = JsonObject::new();
            put(&mut o, "status", JsonValue::Str("success".to_string()));
            put(&mut o, "data", JsonValue::Str(b));
            JsonValue::Object(o)
        },
        None => error_result("Failed"),
    }
}

/// The address of a lyrics search for a title and artist (`search_lyrics_online`).
pub open spec fn lyrics_search_url(title: Seq<char>, artist: Seq<char>) -> Seq<char> {
    "https://lrclib.net/api/search?track_name="@ + url_encoded(title) + "&artist_name="@
        + url_encoded(artist)
}

/// The address of a lyrics search (see `lyrics_search_url`).
pub fn search_lyrics_url(title: &str, artist: &str) -> (r: String)
    ensures
        r@ == lyrics_search_url(title@, artist@),
{
    let t = url_encode(title);
    let a = url_encode(artist);
    let s1 = concat_text("https://lrclib.net/api/search?track_name=", t.as_str());
    let s2 = concat_text(s1.as_str(), "&artist_name=");
    concat_text(s2.as_str(), a.as_str())
}

} // verus!
