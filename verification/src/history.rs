//! Playback history: how often each file was played (an object from file name to count) and
//! the list of recent plays, oldest first.
use vstd::prelude::*;
use crate::json::{json_i64, jviews, text_field, Json, JsonObject, JsonValue};
use crate::text::{i64_text, is_digit, last_path_segment, last_segment, signed_decimal};

verus! {

/// The most plays that the history keeps.
pub const HISTORY_LIMIT: usize = 1000;

/// The file that a song record plays: the last piece of its `musicFilename` path.
pub open spec fn played_file(song: Map<Seq<char>, Json>) -> Seq<char> {
    last_segment(text_field(song, "musicFilename"@))
}

/// How many plays the counts hold for `name`: its integer, or 0 when there is none.
pub open spec fn play_count(counts: Map<Seq<char>, Json>, name: Seq<char>) -> i64 {
    if counts.contains_key(name) {
        match json_i64(counts[name]) {
            Some(n) => n,
            None => 0,
        }
    } else {
        0
    }
}

/// The value under key `k`, or null when there is none.
pub open spec fn field_or_null(m: Map<Seq<char>, Json>, k: Seq<char>) -> Json {
    if m.contains_key(k) {
        m[k]
    } else {
        Json::Null
    }
}

/// The history entry of one play of `song`, as file `name`, at `timestamp`.
pub open spec fn history_entry(song: Map<Seq<char>, Json>, name: Seq<char>, timestamp: Seq<char>) -> Json {
    Json::Object(
        Map::<Seq<char>, Json>::empty().insert("title"@, field_or_null(song, "title"@)).insert(
            "artist"@,
            field_or_null(song, "artist"@),
        ).insert("filename"@, Json::Str(name)).insert("timestamp"@, Json::Str(timestamp)),
    )
}

/// The history after one more play: the entry at the end, and the oldest entry dropped when
/// the list is then longer than the limit.
pub open spec fn pushed_history(h: Seq<Json>, e: Json) -> Seq<Json> {
    if h.len() + 1 > HISTORY_LIMIT {
        h.push(e).drop_first()
    } else {
        h.push(e)
    }
}

/// The history never grows past its limit, and its newest entry is the last play: pushing
/// onto a history within the limit gives one within the limit that ends with the new entry,
/// with the entries before it in the order they had.
pub proof fn lemma_history_bounded(h: Seq<Json>, e: Json)
    requires
        h.len() <= HISTORY_LIMIT,
    ensures
        pushed_history(h, e).len() <= HISTORY_LIMIT,
        pushed_history(h, e).last() == e,
        pushed_history(h, e).drop_last() == (if h.len() == HISTORY_LIMIT {
            h.drop_first()
        } else {
            h
        }),
{
    if h.len() + 1 > HISTORY_LIMIT {
        assert(h.push(e).drop_first().drop_last() =~= h.drop_first());
    } else {
        assert(h.push(e).drop_last() =~= h);
    }
}

fn copy_or_null(m: &JsonObject, k: &str) -> (r: JsonValue)
    ensures
        r@ == field_or_null(m@, k@),
{
    match m.get(k) {
        Some(v) => v.copy(),
        None => JsonValue::Null,
    }
}

/// Records one play of `song` at `timestamp` (`record_playback`): nothing happens when the
/// song names no file; else the file's count goes up by one (from 0 when it had none) and an
/// entry with the song's title, artist, the file name and the time ends the history, which
/// then drops its oldest entry when it is longer than the limit. Gives whether it recorded.
pub fn record_playback_at(
    song: &JsonObject,
    counts: &mut JsonObject,
    history: &mut Vec<JsonValue>,
    timestamp: String,
) -> (r: bool)
    requires
        played_file(song@).len() > 0 ==> play_count(old(counts)@, played_file(song@)) < i64::MAX,
    ensures
        r == (played_file(song@).len() > 0),
        !r ==> final(counts)@ == old(counts)@ && final(history)@ == old(history)@,
        r ==> final(counts)@ == old(counts)@.insert(
            played_file(song@),
            Json::Number(signed_decimal(play_count(old(counts)@, played_file(song@)) + 1)),
        ),
        r ==> jviews(final(history)@) == pushed_history(
            jviews(old(history)@),
            history_entry(song@, played_file(song@), timestamp@),
        ),
{
    let path = song.text_or_empty("musicFilename");
    let name = last_path_segment(path.as_str());
    if name.as_str().is_empty() {
        return false;
    }
    let count: i64 = match counts.get(name.as_str()) {
        Some(v) => match v.as_i64() {
            Some(n) => n,
            None => 0,
        },
        None => 0,
    };
    counts.insert(name.clone(), JsonValue::Number(i64_text(count + 1)));
    let mut entry = JsonObject::new();
    entry.insert("title".to_string(), copy_or_null(song, "title"));
    entry.insert("artist".to_string(), copy_or_null(song, "artist"));
    entry.insert("filename".to_string(), JsonValue::Str(name));
    entry.insert("timestamp".to_string(), JsonValue::Str(timestamp));
    let ghost before = history@;
    history.push(JsonValue::Object(entry));
    proof {
        assert(jviews(history@) =~= jviews(before).push(history@.last()@));
    }
    if history.len() > HISTORY_LIMIT {
        let ghost pushed = history@;
        history.remove(0);
        proof {
            assert(jviews(history@) =~= jviews(pushed).drop_first());
        }
    }
    true
}

/// The format of the time stamps written into the history.
pub open spec fn timestamp_format() -> Seq<char> {
    "%Y-%m-%d %H:%M:%S"@
}

/// What may stand at place `k` of the `-MM-DD HH:MM:SS` end of a time stamp.
pub open spec fn clock_char(k: int, c: char) -> bool {
    if k == 0 || k == 3 {
        c == '-'
    } else if k == 6 {
        c == ' '
    } else if k == 9 || k == 12 {
        c == ':'
    } else {
        is_digit(c)
    }
}

/// A time stamp as the history format writes it: the year in at least four digits, with a
/// sign before it when it lies outside 0 to 9999, then `-MM-DD HH:MM:SS` of two digits each.
pub open spec fn is_timestamp_text(t: Seq<char>) -> bool {
    let y = t.len() - 15;
    &&& y >= 4
    &&& forall|i: int|
        0 <= i < y ==> is_digit(#[trigger] t[i]) || (i == 0 && y >= 5 && (t[i] == '+' || t[i] == '-'))
    &&& forall|k: int| 0 <= k < 15 ==> clock_char(k, #[trigger] t[y + k])
}

/// `Local::now().format(format).to_string()`: the local time as text. Which time comes out
/// depends on the clock and the time zone; for the history format its shape is stated (chrono
/// writes a year outside 0 to 9999 with a sign, and a leap second as `60`). Other format
/// texts may hold items that chrono cannot write, on which `to_string` panics, so only the
/// history format is admitted.
#[verifier::external_body]
fn local_time_text(format: &str) -> (r: String)
    requires
        format@ == timestamp_format(),
    ensures
        is_timestamp_text(r@),
{
    chrono::Local::now().format(format).to_string()
}

/// Records one play of `song` now (`record_playback`), as `record_playback_at` does with
/// the local time in the history format; which time is written is whatever the clock gave.
pub fn record_playback(song: &JsonObject, counts: &mut JsonObject, history: &mut Vec<JsonValue>) -> (r: bool)
    requires
        played_file(song@).len() > 0 ==> play_count(old(counts)@, played_file(song@)) < i64::MAX,
    ensures
        r == (played_file(song@).len() > 0),
        !r ==> final(counts)@ == old(counts)@ && final(history)@ == old(history)@,
        r ==> final(counts)@ == old(counts)@.insert(
            played_file(song@),
            Json::Number(signed_decimal(play_count(old(counts)@, played_file(song@)) + 1)),
        ),
        r ==> exists|t: Seq<char>|
            is_timestamp_text(t) && jviews(final(history)@) == pushed_history(
                jviews(old(history)@),
                #[trigger] history_entry(song@, played_file(song@), t),
            ),
{
    let format = "%Y-%m-%d %H:%M:%S";
    proof {
        reveal_strlit("%Y-%m-%d %H:%M:%S");
    }
    let t = local_time_text(format);
    let ghost tv = t@;
    let r = record_playback_at(song, counts, history, t);
    proof {
        if r {
            assert(jviews(history@) == pushed_history(
                jviews(old(history)@),
                history_entry(song@, played_file(song@), tv),
            ));
        }
    }
    r
}

/// The history newest first (`get_playback_history`).
pub fn get_playback_history(history: Vec<JsonValue>) -> (r: Vec<JsonValue>)
    ensures
        r@ == history@.reverse(),
{
    let mut r: Vec<JsonValue> = Vec::new();
    let mut h = history;
    while h.len() > 0
        invariant
            r@ + h@.reverse() == history@.reverse(),
        decreases h@.len(),
    {
        let ghost before_h = h@;
        let ghost before_r = r@;
        let v = h.pop().unwrap();
        r.push(v);
        proof {
            assert(before_h.reverse() =~= seq![v] + h@.reverse());
            assert(r@ + h@.reverse() =~= before_r + before_h.reverse());
        }
    }
    proof {
        assert(r@ + h@.reverse() =~= r@);
    }
    r
}

} // verus!
