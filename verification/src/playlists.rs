//! Playlists: JSON objects with an `id`, a `playlistName` and a `type`. A normal playlist
//! lists file names (kept in a file of its own); a smart playlist holds `conditions`, a rule
//! that picks its songs from the library.
use vstd::prelude::*;
use crate::json::{jviews, str_field, text_field, Json, JsonObject, JsonValue};
use crate::library::{views, SongView};
use crate::rules::{callable, decides_as, evaluate_smart_rules, rule_holds};
use crate::text::{concat_text, file_name_of, has_infix, is_plain_path, last_segment, same_text, texts};

verus! {

/// The string under key `k` of a value, when it is an object holding a string there.
pub open spec fn obj_str(p: Json, k: Seq<char>) -> Option<Seq<char>> {
    match p {
        Json::Object(m) => str_field(m, k),
        _ => None,
    }
}

/// The playlist has id `id`.
pub open spec fn has_id(p: Json, id: Seq<char>) -> bool {
    obj_str(p, "id"@) == Some(id)
}

/// Playlist `i` is the first with id `id`.
pub open spec fn first_playlist(master: Seq<Json>, id: Seq<char>, i: int) -> bool {
    &&& 0 <= i < master.len()
    &&& has_id(master[i], id)
    &&& forall|j: int| 0 <= j < i ==> !has_id(#[trigger] master[j], id)
}

/// Some playlist has id `id`.
pub open spec fn has_playlist(master: Seq<Json>, id: Seq<char>) -> bool {
    exists|i: int| 0 <= i < master.len() && has_id(#[trigger] master[i], id)
}

/// The playlist is a smart one.
pub open spec fn is_smart(p: Json) -> bool {
    obj_str(p, "type"@) == Some("smart"@)
}

/// The value with member `k` set to `v`, when it is an object; the value itself otherwise.
pub open spec fn with_member(p: Json, k: Seq<char>, v: Json) -> Json {
    match p {
        Json::Object(m) => Json::Object(m.insert(k, v)),
        _ => p,
    }
}

/// The value without member `k`, when it is an object; the value itself otherwise.
pub open spec fn without_member(p: Json, k: Seq<char>) -> Json {
    match p {
        Json::Object(m) => Json::Object(m.remove(k)),
        _ => p,
    }
}

/// The rule of a smart playlist: its `conditions` member.
pub open spec fn conditions_of(p: JsonValue) -> Option<JsonValue> {
    match p {
        JsonValue::Object(o) => o.member("conditions"@),
        _ => None,
    }
}


fn set_member(p: &mut JsonValue, k: &str, v: JsonValue)
    ensures
        final(p)@ == with_member(old(p)@, k@, v@),
{
    match p {
        JsonValue::Object(o) => {
            o.insert(k.to_string(), v);
        },
        _ => {},
    }
}

fn drop_member(p: &mut JsonValue, k: &str)
    ensures
        final(p)@ == without_member(old(p)@, k@),
{
    match p {
        JsonValue::Object(o) => {
            o.remove(k);
        },
        _ => {},
    }
}

fn obj_str_of<'a>(p: &'a JsonValue, k: &str) -> (r: Option<&'a String>)
    ensures
        r matches Some(s) ==> obj_str(p@, k@) == Some(s@),
        r is None ==> obj_str(p@, k@) is None,
{
    match p {
        JsonValue::Object(o) => o.get_str(k),
        _ => None,
    }
}

fn is_smart_of(p: &JsonValue) -> (r: bool)
    ensures
        r == is_smart(p@),
{
    match obj_str_of(p, "type") {
        Some(t) => same_text(t.as_str(), "smart"),
        None => false,
    }
}

fn conditions_ref<'a>(p: &'a JsonValue) -> (r: Option<&'a JsonValue>)
    ensures
        r matches Some(c) ==> conditions_of(*p) == Some(*c),
        r is None ==> conditions_of(*p) is None,
{
    match p {
        JsonValue::Object(o) => o.get("conditions"),
        _ => None,
    }
}

/// The position of the first playlist with id `pl_id`.
pub fn find_playlist(master: &Vec<JsonValue>, pl_id: &str) -> (r: Option<usize>)
    ensures
        r matches Some(i) ==> first_playlist(jviews(master@), pl_id@, i as int),
        r is None ==> !has_playlist(jviews(master@), pl_id@),
{
    let mut i: usize = 0;
    while i < master.len()
        invariant
            i <= master@.len(),
            forall|j: int| 0 <= j < i ==> !has_id(#[trigger] jviews(master@)[j], pl_id@),
        decreases master@.len() - i,
    {
        match obj_str_of(&master[i], "id") {
            Some(s) => {
                if same_text(s.as_str(), pl_id) {
                    return Some(i);
                }
            },
            None => {},
        }
        i = i + 1;
    }
    None
}

// ---------------------------------------------------------------------------
// The songs of a playlist
// ---------------------------------------------------------------------------

/// The songs among the first `n` that the rule picks, as JSON objects.
pub open spec fn smart_songs(
    db: Seq<SongView>,
    rule: JsonValue,
    oracle: spec_fn(Seq<char>, Seq<char>, JsonValue) -> bool,
    n: int,
) -> Seq<Json>
    decreases n,
{
    if n <= 0 || n > db.len() {
        Seq::empty()
    } else if rule_holds(db[n - 1], rule, oracle) {
        smart_songs(db, rule, oracle, n - 1).push(Json::Object(db[n - 1]))
    } else {
        smart_songs(db, rule, oracle, n - 1)
    }
}

/// The file names of the songs among the first `n` that the rule picks and that have a music
/// file; `names[j]` is the file name of song `j`.
pub open spec fn smart_music(
    db: Seq<SongView>,
    names: Seq<Seq<char>>,
    rule: JsonValue,
    oracle: spec_fn(Seq<char>, Seq<char>, JsonValue) -> bool,
    n: int,
) -> Seq<Json>
    decreases n,
{
    if n <= 0 || n > db.len() {
        Seq::empty()
    } else if rule_holds(db[n - 1], rule, oracle) && str_field(db[n - 1], "musicFilename"@) is Some {
        smart_music(db, names, rule, oracle, n - 1).push(Json::Str(names[n - 1]))
    } else {
        smart_music(db, names, rule, oracle, n - 1)
    }
}

/// The position of the first name equal to `f`, from position `j` on.
pub open spec fn first_named(names: Seq<Seq<char>>, f: Seq<char>, j: int) -> Option<int>
    decreases names.len() - j,
{
    if j < 0 || j >= names.len() {
        None
    } else if names[j] == f {
        Some(j)
    } else {
        first_named(names, f, j + 1)
    }
}

/// The songs that the first `n` entries of a normal playlist name, in playlist order; an
/// entry names the first song whose file name it is, and entries that name no song are left
/// out.
pub open spec fn listed_songs_of(db: Seq<SongView>, names: Seq<Seq<char>>, list: Seq<Seq<char>>, n: int) -> Seq<Json>
    decreases n,
{
    if n <= 0 || n > list.len() {
        Seq::empty()
    } else {
        match first_named(names, list[n - 1], 0) {
            Some(j) => listed_songs_of(db, names, list, n - 1).push(Json::Object(db[j])),
            None => listed_songs_of(db, names, list, n - 1),
        }
    }
}

/// The entries among the first `n` of a normal playlist that name a song.
pub open spec fn listed_music(names: Seq<Seq<char>>, list: Seq<Seq<char>>, n: int) -> Seq<Json>
    decreases n,
{
    if n <= 0 || n > list.len() {
        Seq::empty()
    } else {
        match first_named(names, list[n - 1], 0) {
            Some(j) => listed_music(names, list, n - 1).push(Json::Str(list[n - 1])),
            None => listed_music(names, list, n - 1),
        }
    }
}

/// `name` can be the file name of the song's music file: a piece of its `musicFilename`
/// text without `/`, and for a plain path (see `is_plain_path`) its last piece.
pub open spec fn is_file_name_of(name: Seq<char>, song: SongView) -> bool {
    &&& has_infix(text_field(song, "musicFilename"@), name)
    &&& !name.contains('/')
    &&& is_plain_path(text_field(song, "musicFilename"@)) ==> name == last_segment(
        text_field(song, "musicFilename"@),
    )
}

/// The file name of each song's music file (`Path::file_name`, the empty text when there is
/// none).
pub fn song_file_names(db: &Vec<JsonObject>) -> (r: Vec<String>)
    ensures
        r@.len() == db@.len(),
        forall|i: int| 0 <= i < db@.len() ==> is_file_name_of(#[trigger] r@[i]@, db@[i]@),
{
    let mut r: Vec<String> = Vec::new();
    let mut i: usize = 0;
    while i < db.len()
        invariant
            i <= db@.len(),
            r@.len() == i,
            forall|j: int| 0 <= j < i ==> is_file_name_of(#[trigger] r@[j]@, db@[j]@),
        decreases db@.len() - i,
    {
        let f = db[i].text_or_empty("musicFilename");
        r.push(file_name_of(f.as_str()));
        i = i + 1;
    }
    r
}

/// The songs and file names of a smart playlist.
fn smart_lists<F: Fn(&str, &str, &JsonValue) -> bool>(
    db: &Vec<JsonObject>,
    names: &Vec<String>,
    rule: &JsonValue,
    numeric: &F,
) -> (r: (Vec<JsonValue>, Vec<JsonValue>))
    requires
        names@.len() == db@.len(),
        callable(*numeric),
    ensures
        forall|oracle: spec_fn(Seq<char>, Seq<char>, JsonValue) -> bool|
            decides_as(*numeric, oracle) ==> jviews(r.0@) == smart_songs(views(db@), *rule, oracle, db@.len() as int)
                && jviews(r.1@) == smart_music(views(db@), texts(names@), *rule, oracle, db@.len() as int),
{
    let mut songs: Vec<JsonValue> = Vec::new();
    let mut music: Vec<JsonValue> = Vec::new();
    let mut i: usize = 0;
    while i < db.len()
        invariant
            i <= db@.len(),
            names@.len() == db@.len(),
            callable(*numeric),
            forall|oracle: spec_fn(Seq<char>, Seq<char>, JsonValue) -> bool|
                decides_as(*numeric, oracle) ==> jviews(songs@) == smart_songs(views(db@), *rule, oracle, i as int)
                    && jviews(music@) == smart_music(views(db@), texts(names@), *rule, oracle, i as int),
        decreases db@.len() - i,
    {
        let ghost s0 = songs@;
        let ghost m0 = music@;
        let holds = evaluate_smart_rules(&db[i], rule, numeric);
        if holds {
            let c = db[i].copy();
            songs.push(JsonValue::Object(c));
            if db[i].get_str("musicFilename").is_some() {
                music.push(JsonValue::Str(names[i].clone()));
            }
        }
        proof {
            assert forall|oracle: spec_fn(Seq<char>, Seq<char>, JsonValue) -> bool|
                decides_as(*numeric, oracle) implies jviews(songs@) == smart_songs(views(db@), *rule, oracle, i + 1)
                    && jviews(music@) == smart_music(views(db@), texts(names@), *rule, oracle, i + 1) by {
                assert(views(db@)[i as int] == db@[i as int]@);
                if holds {
                    assert(jviews(songs@) =~= jviews(s0).push(Json::Object(db@[i as int]@)));
                }
                assert(jviews(songs@) =~= smart_songs(views(db@), *rule, oracle, i + 1));
                assert(jviews(music@) =~= smart_music(views(db@), texts(names@), *rule, oracle, i + 1));
            }
        }
        i = i + 1;
    }
    (songs, music)
}

fn first_named_of(names: &Vec<String>, f: &str) -> (r: Option<usize>)
    ensures
        r matches Some(j) ==> first_named(texts(names@), f@, 0) == Some(j as int) && j < names@.len(),
        r is None ==> first_named(texts(names@), f@, 0) is None,
{
    let mut j: usize = names.len();
    let mut found: Option<usize> = None;
    while j > 0
        invariant
            j <= names@.len(),
            found matches Some(x) ==> first_named(texts(names@), f@, j as int) == Some(x as int) && x < names@.len(),
            found is None ==> first_named(texts(names@), f@, j as int) is None,
        decreases j,
    {
        j = j - 1;
        if same_text(names[j].as_str(), f) {
            found = Some(j);
        }
    }
    found
}

/// The songs and file names of a normal playlist whose stored list is `list`.
fn listed_lists(db: &Vec<JsonObject>, names: &Vec<String>, list: &Vec<String>) -> (r: (Vec<JsonValue>, Vec<JsonValue>))
    requires
        names@.len() == db@.len(),
    ensures
        jviews(r.0@) == listed_songs_of(views(db@), texts(names@), texts(list@), list@.len() as int),
        jviews(r.1@) == listed_music(texts(names@), texts(list@), list@.len() as int),
{
    let mut songs: Vec<JsonValue> = Vec::new();
    let mut music: Vec<JsonValue> = Vec::new();
    let mut k: usize = 0;
    while k < list.len()
        invariant
            k <= list@.len(),
            names@.len() == db@.len(),
            jviews(songs@) == listed_songs_of(views(db@), texts(names@), texts(list@), k as int),
            jviews(music@) == listed_music(texts(names@), texts(list@), k as int),
        decreases list@.len() - k,
    {
        let ghost s0 = songs@;
        let ghost m0 = music@;
        match first_named_of(names, list[k].as_str()) {
            Some(j) => {
                let c = db[j].copy();
                songs.push(JsonValue::Object(c));
                music.push(JsonValue::Str(list[k].clone()));
                proof {
                    assert(views(db@)[j as int] == db@[j as int]@);
                    assert(jviews(songs@) =~= jviews(s0).push(Json::Object(db@[j as int]@)));
                    assert(jviews(music@) =~= jviews(m0).push(Json::Str(list@[k as int]@)));
                }
            },
            None => {},
        }
        k = k + 1;
    }
    (songs, music)
}

/// The result of a playlist query: the playlist with its `songs` and `music` set.
pub open spec fn details_model(p: Json, songs: Seq<Json>, music: Seq<Json>) -> Json {
    with_member(with_member(p, "songs"@, Json::Array(songs)), "music"@, Json::Array(music))
}

/// The songs of a playlist, in the model.
pub open spec fn playlist_songs(
    p: JsonValue,
    db: Seq<SongView>,
    names: Seq<Seq<char>>,
    stored: Option<Seq<Seq<char>>>,
    oracle: spec_fn(Seq<char>, Seq<char>, JsonValue) -> bool,
) -> Seq<Json> {
    if is_smart(p@) {
        match conditions_of(p) {
            Some(c) => smart_songs(db, c, oracle, db.len() as int),
            None => Seq::empty(),
        }
    } else {
        match stored {
            Some(list) => listed_songs_of(db, names, list, list.len() as int),
            None => Seq::empty(),
        }
    }
}

/// The file names of a playlist, in the model.
pub open spec fn playlist_music(
    p: JsonValue,
    db: Seq<SongView>,
    names: Seq<Seq<char>>,
    stored: Option<Seq<Seq<char>>>,
    oracle: spec_fn(Seq<char>, Seq<char>, JsonValue) -> bool,
) -> Seq<Json> {
    if is_smart(p@) {
        match conditions_of(p) {
            Some(c) => smart_music(db, names, c, oracle, db.len() as int),
            None => Seq::empty(),
        }
    } else {
        match stored {
            Some(list) => listed_music(names, list, list.len() as int),
            None => Seq::empty(),
        }
    }
}

/// The stored list of a normal playlist, as texts.
pub open spec fn stored_texts(stored: Option<&Vec<String>>) -> Option<Seq<Seq<char>>> {
    match stored {
        Some(l) => Some(texts(l@)),
        None => None,
    }
}

/// A playlist with its songs (`get_playlist_details`): `None` when no playlist has id
/// `pl_id`; else the first such playlist with `songs` (the song records) and `music` (their
/// file names) set. A smart playlist takes the songs its rule picks, in library order; a
/// normal one the songs its stored list names, in list order (none when there is no list).
/// `names` holds the file name of each song's music file.
pub fn playlist_details_with<F: Fn(&str, &str, &JsonValue) -> bool>(
    pl_id: &str,
    master: &Vec<JsonValue>,
    db: &Vec<JsonObject>,
    names: &Vec<String>,
    stored: Option<&Vec<String>>,
    numeric: &F,
) -> (r: Option<JsonValue>)
    requires
        names@.len() == db@.len(),
        callable(*numeric),
    ensures
        r is Some == has_playlist(jviews(master@), pl_id@),
        r matches Some(v) ==> exists|i: int|
            first_playlist(jviews(master@), pl_id@, i) && forall|
                oracle: spec_fn(Seq<char>, Seq<char>, JsonValue) -> bool,
            |
                decides_as(*numeric, oracle) ==> v@ == details_model(
                    master@[i]@,
                    playlist_songs(master@[i], views(db@), texts(names@), stored_texts(stored), oracle),
                    playlist_music(master@[i], views(db@), texts(names@), stored_texts(stored), oracle),
                ),
{
    let i = match find_playlist(master, pl_id) {
        Some(i) => i,
        None => return None,
    };
    let pl = &master[i];
    let (songs, music) = if is_smart_of(pl) {
        match conditions_ref(pl) {
            Some(c) => smart_lists(db, names, c, numeric),
            None => (Vec::new(), Vec::new()),
        }
    } else {
        match stored {
            Some(list) => listed_lists(db, names, list),
            None => (Vec::new(), Vec::new()),
        }
    };
    let ghost sv = jviews(songs@);
    let ghost mv = jviews(music@);
    let mut out = pl.copy();
    let sa = JsonValue::array(songs);
    let ma = JsonValue::array(music);
    set_member(&mut out, "songs", sa);
    set_member(&mut out, "music", ma);
    proof {
        assert(jviews(master@)[i as int] == master@[i as int]@);
        if !is_smart(master@[i as int]@) && stored is None {
            assert(sv =~= Seq::<Json>::empty());
            assert(mv =~= Seq::<Json>::empty());
        }
        if is_smart(master@[i as int]@) && conditions_of(master@[i as int]) is None {
            assert(sv =~= Seq::<Json>::empty());
            assert(mv =~= Seq::<Json>::empty());
        }
    }
    Some(out)
}

/// A playlist with its songs, the file names of the songs taken from their music files
/// (`get_playlist_details`).
pub fn get_playlist_details<F: Fn(&str, &str, &JsonValue) -> bool>(
    pl_id: &str,
    master: &Vec<JsonValue>,
    db: &Vec<JsonObject>,
    stored: Option<&Vec<String>>,
    numeric: &F,
) -> (r: Option<JsonValue>)
    requires
        callable(*numeric),
    ensures
        r is Some == has_playlist(jviews(master@), pl_id@),
        r matches Some(v) ==> exists|i: int, names: Seq<Seq<char>>|
            #![trigger first_playlist(jviews(master@), pl_id@, i), names.len()]
            names.len() == db@.len() && (forall|j: int|
                0 <= j < db@.len() ==> is_file_name_of(#[trigger] names[j], db@[j]@))
                && first_playlist(jviews(master@), pl_id@, i) && forall|
                oracle: spec_fn(Seq<char>, Seq<char>, JsonValue) -> bool,
            |
                decides_as(*numeric, oracle) ==> v@ == details_model(
                    master@[i]@,
                    playlist_songs(master@[i], views(db@), names, stored_texts(stored), oracle),
                    playlist_music(master@[i], views(db@), names, stored_texts(stored), oracle),
                ),
{
    let names = song_file_names(db);
    let r = playlist_details_with(pl_id, master, db, &names, stored, numeric);
    proof {
        if r is Some {
            let pair = r->0;
            let i = choose|i: int|
                first_playlist(jviews(master@), pl_id@, i) && forall|
                    oracle: spec_fn(Seq<char>, Seq<char>, JsonValue) -> bool,
                |
                    decides_as(*numeric, oracle) ==> r->0@ == details_model(
                        master@[i]@,
                        playlist_songs(master@[i], views(db@), texts(names@), stored_texts(stored), oracle),
                        playlist_music(master@[i], views(db@), texts(names@), stored_texts(stored), oracle),
                    );
            assert(texts(names@).len() == db@.len());
            assert(forall|j: int| 0 <= j < db@.len() ==> texts(names@)[j] == names@[j]@);
            assert(first_playlist(jviews(master@), pl_id@, i));
        }
    }
    r
}

// ---------------------------------------------------------------------------
// Creating and changing playlists
// ---------------------------------------------------------------------------

/// A new playlist as `create_playlist` makes it: id, name, type, sorted by title ascending;
/// a smart playlist starts with an empty list of conditions.
pub open spec fn new_playlist_model(id: Seq<char>, name: Seq<char>, pl_type: Seq<char>) -> Json {
    let base = Map::<Seq<char>, Json>::empty().insert("id"@, Json::Str(id)).insert(
        "playlistName"@,
        Json::Str(name),
    ).insert("type"@, Json::Str(pl_type)).insert("sortBy"@, Json::Str("title"@)).insert(
        "sortDesc"@,
        Json::Bool(false),
    );
    if pl_type == "smart"@ {
        Json::Object(base.insert("conditions"@, Json::Array(Seq::empty())))
    } else {
        Json::Object(base)
    }
}

fn playlist_base(id: &str, name: &str, pl_type: &str) -> (r: JsonObject)
    ensures
        r@ == Map::<Seq<char>, Json>::empty().insert("id"@, Json::Str(id@)).insert(
            "playlistName"@,
            Json::Str(name@),
        ).insert("type"@, Json::Str(pl_type@)).insert("sortBy"@, Json::Str("title"@)).insert(
            "sortDesc"@,
            Json::Bool(false),
        ),
{
    let mut o = JsonObject::new();
    o.insert("id".to_string(), JsonValue::Str(id.to_string()));
    o.insert("playlistName".to_string(), JsonValue::Str(name.to_string()));
    o.insert("type".to_string(), JsonValue::Str(pl_type.to_string()));
    o.insert("sortBy".to_string(), JsonValue::Str("title".to_string()));
    o.insert("sortDesc".to_string(), JsonValue::Bool(false));
    o
}

/// Adds a new playlist with id `id` to the list and gives it back (`create_playlist`).
pub fn create_playlist_with_id(master: &mut Vec<JsonValue>, name: &str, pl_type: &str, id: &str) -> (r: JsonValue)
    ensures
        r@ == new_playlist_model(id@, name@, pl_type@),
        jviews(final(master)@) == jviews(old(master)@).push(r@),
{
    let mut o = playlist_base(id, name, pl_type);
    if same_text(pl_type, "smart") {
        let empty: Vec<JsonValue> = Vec::new();
        let a = JsonValue::array(empty);
        o.insert("conditions".to_string(), a);
        proof {
            assert(jviews(Seq::<JsonValue>::empty()) =~= Seq::<Json>::empty());
        }
    }
    let v = JsonValue::Object(o);
    let c = v.copy();
    master.push(v);
    proof {
        assert(jviews(master@) =~= jviews(old(master)@).push(c@));
    }
    c
}

/// A playlist made under an id that no playlist has is the one that the id then finds, and
/// deleting by that id removes it again, giving the list back as it was.
pub proof fn lemma_create_then_delete(master: Seq<Json>, id: Seq<char>, name: Seq<char>, pl_type: Seq<char>)
    requires
        !has_playlist(master, id),
    ensures
        first_playlist(master.push(new_playlist_model(id, name, pl_type)), id, master.len() as int),
        master.push(new_playlist_model(id, name, pl_type)).remove(master.len() as int) == master,
{
    reveal_strlit("id");
    reveal_strlit("playlistName");
    reveal_strlit("type");
    reveal_strlit("sortBy");
    reveal_strlit("sortDesc");
    reveal_strlit("conditions");
    let m = master.push(new_playlist_model(id, name, pl_type));
    assert("id"@.len() == 2 && "type"@.len() == 4 && "sortBy"@.len() == 6 && "sortDesc"@.len() == 8);
    assert("playlistName"@.len() == 12 && "conditions"@.len() == 10);
    assert(has_id(m[master.len() as int], id));
    assert forall|j: int| 0 <= j < master.len() implies !has_id(#[trigger] m[j], id) by {
        assert(m[j] == master[j]);
    }
    assert(m.remove(master.len() as int) =~= master);
}

/// Adds a new playlist with a fresh random id (`create_playlist`).
pub fn create_playlist(master: &mut Vec<JsonValue>, name: &str, pl_type: &str) -> (r: JsonValue)
    ensures
        exists|id: Seq<char>| crate::ids::is_random_id(id) && r@ == new_playlist_model(id, name@, pl_type@),
        jviews(final(master)@) == jviews(old(master)@).push(r@),
{
    let id = crate::ids::random_id();
    create_playlist_with_id(master, name, pl_type, id.as_str())
}

/// A new smart playlist as `create_smart_playlist` makes it.
pub open spec fn new_smart_model(id: Seq<char>, name: Seq<char>, conditions: Json) -> Json {
    Json::Object(
        Map::<Seq<char>, Json>::empty().insert("id"@, Json::Str(id)).insert(
            "playlistName"@,
            Json::Str(name),
        ).insert("type"@, Json::Str("smart"@)).insert("sortBy"@, Json::Str("title"@)).insert(
            "sortDesc"@,
            Json::Bool(false),
        ).insert("conditions"@, conditions),
    )
}

/// Adds a new smart playlist with id `id` and rule `conditions` (`create_smart_playlist`).
pub fn create_smart_playlist_with_id(
    master: &mut Vec<JsonValue>,
    name: &str,
    conditions: JsonValue,
    id: &str,
) -> (r: JsonValue)
    ensures
        r@ == new_smart_model(id@, name@, conditions@),
        jviews(final(master)@) == jviews(old(master)@).push(r@),
{
    let mut o = playlist_base(id, name, "smart");
    o.insert("conditions".to_string(), conditions);
    let v = JsonValue::Object(o);
    let c = v.copy();
    master.push(v);
    proof {
        assert(jviews(master@) =~= jviews(old(master)@).push(c@));
    }
    c
}

/// Adds a new smart playlist with a fresh random id (`create_smart_playlist`).
pub fn create_smart_playlist(master: &mut Vec<JsonValue>, name: &str, conditions: JsonValue) -> (r: JsonValue)
    ensures
        exists|id: Seq<char>| crate::ids::is_random_id(id) && r@ == new_smart_model(id, name@, conditions@),
        jviews(final(master)@) == jviews(old(master)@).push(r@),
{
    let id = crate::ids::random_id();
    create_smart_playlist_with_id(master, name, conditions, id.as_str())
}

/// Replaces playlist `i` by `v`.
fn replace_at(master: &mut Vec<JsonValue>, i: usize, v: JsonValue)
    requires
        i < old(master)@.len(),
    ensures
        jviews(final(master)@) == jviews(old(master)@).update(i as int, v@),
{
    let ghost vm = v@;
    master.remove(i);
    master.insert(i, v);
    proof {
        assert(jviews(master@) =~= jviews(old(master)@).update(i as int, vm));
    }
}

/// Changes one member of the first playlist with id `pl_id` (`update_playlist_by_id`):
/// `None` when there is none. Setting `music` of a playlist that is not smart changes the
/// stored list, not the playlist: the playlist comes back unchanged with `true`, and `value`
/// is the list to store. Otherwise the member is set and the changed playlist comes back
/// with `false`.
pub fn update_playlist_by_id(pl_id: &str, field: &str, value: JsonValue, master: &mut Vec<JsonValue>) -> (r: Option<(JsonValue, bool)>)
    ensures
        r is Some == has_playlist(jviews(old(master)@), pl_id@),
        r is None ==> jviews(final(master)@) == jviews(old(master)@),
        r matches Some((p, list_written)) ==> exists|i: int|
            {
                &&& first_playlist(jviews(old(master)@), pl_id@, i)
                &&& list_written == (field@ == "music"@ && !is_smart(jviews(old(master)@)[i]))
                &&& list_written ==> p@ == jviews(old(master)@)[i] && jviews(final(master)@) == jviews(old(master)@)
                &&& !list_written ==> p@ == with_member(jviews(old(master)@)[i], field@, value@)
                    && jviews(final(master)@) == jviews(old(master)@).update(i, p@)
            },
{
    let i = match find_playlist(master, pl_id) {
        Some(i) => i,
        None => return None,
    };
    proof {
        assert(jviews(master@)[i as int] == master@[i as int]@);
    }
    if same_text(field, "music") && !is_smart_of(&master[i]) {
        let c = master[i].copy();
        return Some((c, true));
    }
    let mut p = master[i].copy();
    set_member(&mut p, field, value);
    let c = p.copy();
    replace_at(master, i, p);
    Some((c, false))
}

/// Removes the first playlist with id `pl_id` (`delete_playlist_by_id`); `false` when there
/// is none.
pub fn delete_playlist_by_id(pl_id: &str, master: &mut Vec<JsonValue>) -> (r: bool)
    ensures
        r == has_playlist(jviews(old(master)@), pl_id@),
        r ==> exists|i: int|
            first_playlist(jviews(old(master)@), pl_id@, i) && jviews(final(master)@) == jviews(
                old(master)@,
            ).remove(i),
        !r ==> jviews(final(master)@) == jviews(old(master)@),
{
    match find_playlist(master, pl_id) {
        Some(i) => {
            let ghost before = jviews(master@);
            master.remove(i);
            proof {
                assert(jviews(master@) =~= before.remove(i as int));
            }
            true
        },
        None => false,
    }
}

/// The name of a copy: the playlist's name (or `Untitled`) followed by ` - コピー`.
pub open spec fn copy_name(p: Json) -> Seq<char> {
    match obj_str(p, "playlistName"@) {
        Some(n) => n + " - コピー"@,
        None => "Untitled"@ + " - コピー"@,
    }
}

/// A copy of a playlist under id `new_id`.
pub open spec fn duplicate_model(p: Json, new_id: Seq<char>) -> Json {
    with_member(
        with_member(p, "id"@, Json::Str(new_id)),
        "playlistName"@,
        Json::Str(copy_name(with_member(p, "id"@, Json::Str(new_id)))),
    )
}

/// Adds a copy of the first playlist with id `pl_id`, under id `new_id`, and gives it back
/// (`duplicate_playlist_by_id`); `None` when there is no such playlist.
pub fn duplicate_playlist_with_id(pl_id: &str, new_id: &str, master: &mut Vec<JsonValue>) -> (r: Option<JsonValue>)
    ensures
        r is Some == has_playlist(jviews(old(master)@), pl_id@),
        r is None ==> jviews(final(master)@) == jviews(old(master)@),
        r matches Some(p) ==> exists|i: int|
            first_playlist(jviews(old(master)@), pl_id@, i) && p@ == duplicate_model(
                jviews(old(master)@)[i],
                new_id@,
            ) && jviews(final(master)@) == jviews(old(master)@).push(p@),
{
    let i = match find_playlist(master, pl_id) {
        Some(i) => i,
        None => return None,
    };
    proof {
        assert(jviews(master@)[i as int] == master@[i as int]@);
    }
    let mut p = master[i].copy();
    set_member(&mut p, "id", JsonValue::Str(new_id.to_string()));
    let name = match obj_str_of(&p, "playlistName") {
        Some(n) => concat_text(n.as_str(), " - コピー"),
        None => concat_text("Untitled", " - コピー"),
    };
    set_member(&mut p, "playlistName", JsonValue::Str(name));
    let c = p.copy();
    master.push(p);
    proof {
        assert(jviews(master@) =~= jviews(old(master)@).push(c@));
    }
    Some(c)
}

/// Adds a copy of a playlist under a fresh random id (`duplicate_playlist_by_id`).
pub fn duplicate_playlist_by_id(pl_id: &str, master: &mut Vec<JsonValue>) -> (r: Option<JsonValue>)
    ensures
        r is Some == has_playlist(jviews(old(master)@), pl_id@),
        r is None ==> jviews(final(master)@) == jviews(old(master)@),
        r matches Some(p) ==> exists|i: int, id: Seq<char>|
            crate::ids::is_random_id(id) && first_playlist(jviews(old(master)@), pl_id@, i) && p@
                == duplicate_model(jviews(old(master)@)[i], id) && jviews(final(master)@)
                == jviews(old(master)@).push(p@),
{
    let id = crate::ids::random_id();
    duplicate_playlist_with_id(pl_id, id.as_str(), master)
}

/// Sets name and rule of the first smart playlist with id `pl_id` (`update_smart_playlist`);
/// `None` when there is no playlist with that id.
pub fn update_smart_playlist(pl_id: &str, name: &str, conditions: JsonValue, master: &mut Vec<JsonValue>) -> (r: Option<JsonValue>)
    ensures
        r is Some == has_playlist(jviews(old(master)@), pl_id@),
        r is None ==> jviews(final(master)@) == jviews(old(master)@),
        r matches Some(p) ==> exists|i: int|
            first_playlist(jviews(old(master)@), pl_id@, i) && p@ == with_member(
                with_member(jviews(old(master)@)[i], "playlistName"@, Json::Str(name@)),
                "conditions"@,
                conditions@,
            ) && jviews(final(master)@) == jviews(old(master)@).update(i, p@),
{
    let i = match find_playlist(master, pl_id) {
        Some(i) => i,
        None => return None,
    };
    proof {
        assert(jviews(master@)[i as int] == master@[i as int]@);
    }
    let mut p = master[i].copy();
    set_member(&mut p, "playlistName", JsonValue::Str(name.to_string()));
    set_member(&mut p, "conditions", conditions);
    let c = p.copy();
    replace_at(master, i, p);
    Some(c)
}

/// Copies of all playlists (`get_playlist_summaries`).
pub fn get_playlist_summaries(master: &Vec<JsonValue>) -> (r: Vec<JsonValue>)
    ensures
        jviews(r@) == jviews(master@),
{
    let mut r: Vec<JsonValue> = Vec::new();
    let mut i: usize = 0;
    while i < master.len()
        invariant
            i <= master@.len(),
            jviews(r@) == jviews(master@).take(i as int),
        decreases master@.len() - i,
    {
        let c = master[i].copy();
        let ghost b = r@;
        r.push(c);
        proof {
            assert(jviews(r@) =~= jviews(b).push(c@));
            assert(jviews(r@) =~= jviews(master@).take(i + 1));
        }
        i = i + 1;
    }
    proof {
        assert(jviews(master@).take(master@.len() as int) =~= jviews(master@));
    }
    r
}

// ---------------------------------------------------------------------------
// The stored list of a normal playlist
// ---------------------------------------------------------------------------

/// The list after adding the first `n` of `fs`, each unless already there.
pub open spec fn with_added(cur: Seq<Seq<char>>, fs: Seq<Seq<char>>, n: int) -> Seq<Seq<char>>
    decreases n,
{
    if n <= 0 || n > fs.len() {
        cur
    } else {
        let prev = with_added(cur, fs, n - 1);
        if prev.contains(fs[n - 1]) {
            prev
        } else {
            prev.push(fs[n - 1])
        }
    }
}

/// The list without the entries that `fs` names.
pub open spec fn without_named(cur: Seq<Seq<char>>, fs: Seq<Seq<char>>) -> Seq<Seq<char>> {
    cur.filter(|f: Seq<char>| !fs.contains(f))
}

/// No entry occurs twice.
pub open spec fn no_repeats(s: Seq<Seq<char>>) -> bool {
    forall|i: int, j: int| 0 <= i < j < s.len() ==> s[i] != s[j]
}

/// Adding songs to a list keeps the list as it was, in front, and then holds exactly the
/// names that were listed or added; a list without repeats stays without repeats.
pub proof fn lemma_added_songs(cur: Seq<Seq<char>>, fs: Seq<Seq<char>>, n: int)
    requires
        0 <= n <= fs.len(),
    ensures
        with_added(cur, fs, n).take(cur.len() as int) == cur,
        cur.len() <= with_added(cur, fs, n).len(),
        forall|x: Seq<char>|
            #[trigger] with_added(cur, fs, n).contains(x) <==> (cur.contains(x) || fs.take(n).contains(x)),
        no_repeats(cur) ==> no_repeats(with_added(cur, fs, n)),
    decreases n,
{
    if n == 0 {
        assert(cur.take(cur.len() as int) =~= cur);
        assert forall|x: Seq<char>| !(#[trigger] fs.take(0).contains(x)) by {}
    } else {
        lemma_added_songs(cur, fs, n - 1);
        let prev = with_added(cur, fs, n - 1);
        let f = fs[n - 1];
        assert(fs.take(n) =~= fs.take(n - 1).push(f));
        assert forall|x: Seq<char>| #[trigger] fs.take(n).contains(x) <==> (fs.take(n - 1).contains(x) || x == f) by {
            if fs.take(n).contains(x) {
                let k = choose|k: int| 0 <= k < n && #[trigger] fs.take(n)[k] == x;
                if k < n - 1 {
                    assert(fs.take(n - 1)[k] == x);
                }
            }
            if fs.take(n - 1).contains(x) {
                let k = choose|k: int| 0 <= k < n - 1 && #[trigger] fs.take(n - 1)[k] == x;
                assert(fs.take(n)[k] == x);
            }
            if x == f {
                assert(fs.take(n)[n - 1] == x);
            }
        }
        if !prev.contains(f) {
            let next = prev.push(f);
            assert(next.take(cur.len() as int) =~= prev.take(cur.len() as int));
            assert forall|x: Seq<char>| #[trigger] next.contains(x) <==> (prev.contains(x) || x == f) by {
                if next.contains(x) {
                    let k = choose|k: int| 0 <= k < next.len() && next[k] == x;
                    if k < prev.len() {
                        assert(prev[k] == x);
                    }
                }
                if prev.contains(x) {
                    let k = choose|k: int| 0 <= k < prev.len() && prev[k] == x;
                    assert(next[k] == x);
                }
                if x == f {
                    assert(next[prev.len() as int] == x);
                }
            }
            if no_repeats(prev) {
                assert forall|i: int, j: int| 0 <= i < j < next.len() implies next[i] != next[j] by {
                    if j == prev.len() {
                        assert(next[i] == prev[i]);
                    }
                }
            }
        }
    }
}

/// Adding songs that the list already holds leaves it as it is.
pub proof fn lemma_add_listed(cur: Seq<Seq<char>>, fs: Seq<Seq<char>>, n: int)
    requires
        0 <= n <= fs.len(),
        forall|i: int| 0 <= i < n ==> cur.contains(#[trigger] fs[i]),
    ensures
        with_added(cur, fs, n) == cur,
    decreases n,
{
    if n > 0 {
        lemma_add_listed(cur, fs, n - 1);
        assert(cur.contains(fs[n - 1]));
    }
}

/// Adding the same songs a second time changes nothing.
pub proof fn lemma_add_twice(cur: Seq<Seq<char>>, fs: Seq<Seq<char>>)
    ensures
        with_added(with_added(cur, fs, fs.len() as int), fs, fs.len() as int) == with_added(
            cur,
            fs,
            fs.len() as int,
        ),
{
    let a = with_added(cur, fs, fs.len() as int);
    lemma_added_songs(cur, fs, fs.len() as int);
    assert(fs.take(fs.len() as int) =~= fs);
    assert forall|i: int| 0 <= i < fs.len() implies a.contains(#[trigger] fs[i]) by {
        assert(fs.contains(fs[i]));
    }
    lemma_add_listed(a, fs, fs.len() as int);
}

/// Removing songs from a list keeps, in order, exactly the entries that are not named.
pub proof fn lemma_removed_songs(cur: Seq<Seq<char>>, fs: Seq<Seq<char>>)
    ensures
        forall|x: Seq<char>|
            #[trigger] without_named(cur, fs).contains(x) <==> (cur.contains(x) && !fs.contains(x)),
        without_named(cur, fs).len() <= cur.len(),
{
    let pred = |f: Seq<char>| !fs.contains(f);
    assert forall|x: Seq<char>| #[trigger] without_named(cur, fs).contains(x) <==> (cur.contains(x)
        && !fs.contains(x)) by {
        if cur.filter(pred).contains(x) {
            cur.lemma_filter_contains_rev(pred, x);
            let k = choose|k: int| 0 <= k < cur.filter(pred).len() && cur.filter(pred)[k] == x;
            cur.lemma_filter_pred(pred, k);
        }
        if cur.contains(x) && !fs.contains(x) {
            let k = choose|k: int| 0 <= k < cur.len() && cur[k] == x;
            cur.lemma_filter_contains(pred, k);
        }
    }
    cur.lemma_filter_len(pred);
}

/// Removing the songs just added gives the list back, when none of them was listed before.
pub proof fn lemma_remove_undoes_add(cur: Seq<Seq<char>>, fs: Seq<Seq<char>>)
    requires
        forall|i: int| 0 <= i < fs.len() ==> !cur.contains(#[trigger] fs[i]),
    ensures
        without_named(with_added(cur, fs, fs.len() as int), fs) == cur,
{
    let pred = |f: Seq<char>| !fs.contains(f);
    lemma_added_songs(cur, fs, fs.len() as int);
    let a = with_added(cur, fs, fs.len() as int);
    assert(fs.take(fs.len() as int) =~= fs);
    assert forall|k: int| cur.len() <= k < a.len() implies fs.contains(#[trigger] a[k]) by {
        assert(a.contains(a[k]));
        if cur.contains(a[k]) {
            lemma_added_tail_new(cur, fs, fs.len() as int, k);
        }
    }
    assert forall|k: int| 0 <= k < cur.len() implies !fs.contains(#[trigger] cur[k]) by {
        if fs.contains(cur[k]) {
            let j = choose|j: int| 0 <= j < fs.len() && fs[j] == cur[k];
            assert(cur.contains(fs[j]));
        }
    }
    lemma_filter_prefix(a, cur.len() as int, pred);
    assert(a.take(cur.len() as int) == cur);
    assert(cur.filter(pred) =~= cur) by {
        lemma_filter_all(cur, pred);
    }
}

proof fn lemma_added_tail_new(cur: Seq<Seq<char>>, fs: Seq<Seq<char>>, n: int, k: int)
    requires
        0 <= n <= fs.len(),
        cur.len() <= k < with_added(cur, fs, n).len(),
    ensures
        !cur.contains(with_added(cur, fs, n)[k]),
    decreases n,
{
    if n > 0 {
        lemma_added_songs(cur, fs, n - 1);
        let prev = with_added(cur, fs, n - 1);
        if k < prev.len() {
            lemma_added_tail_new(cur, fs, n - 1, k);
            if !prev.contains(fs[n - 1]) {
                assert(prev.push(fs[n - 1])[k] == prev[k]);
            }
        } else {
            assert(!prev.contains(fs[n - 1]));
            assert(with_added(cur, fs, n)[k] == fs[n - 1]);
        }
    }
}

proof fn lemma_filter_all(s: Seq<Seq<char>>, pred: spec_fn(Seq<char>) -> bool)
    requires
        forall|k: int| 0 <= k < s.len() ==> pred(#[trigger] s[k]),
    ensures
        s.filter(pred) == s,
    decreases s.len(),
{
    reveal_with_fuel(Seq::filter, 1);
    if s.len() > 0 {
        lemma_filter_all(s.drop_last(), pred);
        assert(pred(s[s.len() - 1]));
        assert(s.drop_last().push(s.last()) =~= s);
    } else {
        assert(s.filter(pred) =~= s);
    }
}

proof fn lemma_filter_prefix(s: Seq<Seq<char>>, m: int, pred: spec_fn(Seq<char>) -> bool)
    requires
        0 <= m <= s.len(),
        forall|k: int| m <= k < s.len() ==> !pred(#[trigger] s[k]),
    ensures
        s.filter(pred) == s.take(m).filter(pred),
    decreases s.len() - m,
{
    if m < s.len() {
        lemma_filter_prefix(s, m + 1, pred);
        s.take(m).lemma_filter_push(s[m], pred);
        assert(s.take(m + 1) =~= s.take(m).push(s[m]));
    } else {
        assert(s.take(m) =~= s);
    }
}

fn list_contains(v: &Vec<String>, t: &str) -> (r: bool)
    ensures
        r == texts(v@).contains(t@),
{
    crate::library::names_contain(v, t)
}

/// Adds each of `filenames` to the stored list of the first playlist with id `pl_id`, unless
/// it is there (`add_songs_to_playlist`): `None` when there is no such playlist or it is a
/// smart one; else the playlist and the new list to store.
pub fn add_songs_to_playlist(
    pl_id: &str,
    filenames: &Vec<String>,
    master: &Vec<JsonValue>,
    current: Vec<String>,
) -> (r: Option<(JsonValue, Vec<String>)>)
    ensures
        r is Some == exists|i: int| first_playlist(jviews(master@), pl_id@, i) && !is_smart(jviews(master@)[i]),
        r matches Some((p, list)) ==> exists|i: int|
            first_playlist(jviews(master@), pl_id@, i) && p@ == jviews(master@)[i] && texts(list@)
                == with_added(texts(current@), texts(filenames@), filenames@.len() as int),
{
    let i = match find_playlist(master, pl_id) {
        Some(i) => i,
        None => return None,
    };
    proof {
        assert(jviews(master@)[i as int] == master@[i as int]@);
    }
    if is_smart_of(&master[i]) {
        return None;
    }
    let mut list = current;
    let ghost cur = texts(list@);
    let mut k: usize = 0;
    while k < filenames.len()
        invariant
            k <= filenames@.len(),
            texts(list@) == with_added(cur, texts(filenames@), k as int),
        decreases filenames@.len() - k,
    {
        if !list_contains(&list, filenames[k].as_str()) {
            let ghost b = list@;
            list.push(filenames[k].clone());
            proof {
                assert(texts(list@) =~= texts(b).push(filenames@[k as int]@));
            }
        }
        k = k + 1;
    }
    Some((master[i].copy(), list))
}

/// Removes the entries that `filenames` names from the stored list of the first playlist
/// with id `pl_id` (`remove_songs_from_playlist`): `None` when there is no such playlist or
/// it is a smart one; else the playlist and, when a list is stored (`current`), the new list
/// to store.
pub fn remove_songs_from_playlist(
    pl_id: &str,
    filenames: &Vec<String>,
    master: &Vec<JsonValue>,
    current: Option<Vec<String>>,
) -> (r: Option<(JsonValue, Option<Vec<String>>)>)
    ensures
        r is Some == exists|i: int| first_playlist(jviews(master@), pl_id@, i) && !is_smart(jviews(master@)[i]),
        r matches Some((p, list)) ==> exists|i: int|
            first_playlist(jviews(master@), pl_id@, i) && p@ == jviews(master@)[i] && (list is Some
                == current is Some) && (list matches Some(l) ==> texts(l@) == without_named(
                texts(current->0@),
                texts(filenames@),
            )),
{
    let i = match find_playlist(master, pl_id) {
        Some(i) => i,
        None => return None,
    };
    proof {
        assert(jviews(master@)[i as int] == master@[i as int]@);
    }
    if is_smart_of(&master[i]) {
        return None;
    }
    let p = master[i].copy();
    match current {
        None => Some((p, None)),
        Some(cur) => {
            let l = retain_unnamed(&cur, filenames);
            Some((p, Some(l)))
        },
    }
}

fn retain_unnamed(cur: &Vec<String>, filenames: &Vec<String>) -> (r: Vec<String>)
    ensures
        texts(r@) == without_named(texts(cur@), texts(filenames@)),
{
    let ghost pred = |f: Seq<char>| !texts(filenames@).contains(f);
    let mut r: Vec<String> = Vec::new();
    let mut k: usize = 0;
    while k < cur.len()
        invariant
            k <= cur@.len(),
            pred == (|f: Seq<char>| !texts(filenames@).contains(f)),
            texts(r@) == texts(cur@).take(k as int).filter(pred),
        decreases cur@.len() - k,
    {
        proof {
            texts(cur@).take(k as int).lemma_filter_push(cur@[k as int]@, pred);
            assert(texts(cur@).take(k + 1) =~= texts(cur@).take(k as int).push(cur@[k as int]@));
        }
        if !list_contains(filenames, cur[k].as_str()) {
            let ghost b = r@;
            r.push(cur[k].clone());
            proof {
                assert(texts(r@) =~= texts(b).push(cur@[k as int]@));
            }
        }
        k = k + 1;
    }
    proof {
        assert(texts(cur@).take(cur@.len() as int) =~= texts(cur@));
    }
    r
}

/// The file names (as texts) of a smart playlist's songs.
pub open spec fn music_texts(m: Seq<Json>) -> Seq<Seq<char>> {
    m.map_values(|j: Json| match j {
        Json::Str(s) => s,
        _ => Seq::empty(),
    })
}

/// `convert_smart_to_normal_and_remove_songs` with `names` holding the file name of each
/// song.
fn convert_with_names<F: Fn(&str, &str, &JsonValue) -> bool>(
    pl_id: &str,
    filenames: &Vec<String>,
    master: &mut Vec<JsonValue>,
    db: &Vec<JsonObject>,
    names: &Vec<String>,
    numeric: &F,
) -> (r: Option<(JsonValue, Vec<String>)>)
    requires
        names@.len() == db@.len(),
        callable(*numeric),
    ensures
        r is Some == has_playlist(jviews(old(master)@), pl_id@),
        r is None ==> jviews(final(master)@) == jviews(old(master)@),
        r matches Some((p, list)) ==> exists|i: int|
            {
                &&& first_playlist(jviews(old(master)@), pl_id@, i)
                &&& p@ == without_member(
                    with_member(jviews(old(master)@)[i], "type"@, Json::Str("normal"@)),
                    "conditions"@,
                )
                &&& jviews(final(master)@) == jviews(old(master)@).update(i, p@)
                &&& forall|oracle: spec_fn(Seq<char>, Seq<char>, JsonValue) -> bool|
                    decides_as(*numeric, oracle) ==> texts(list@) == without_named(
                        match conditions_of(old(master)@[i]) {
                            Some(c) => music_texts(smart_music(views(db@), texts(names@), c, oracle, db@.len() as int)),
                            None => Seq::empty(),
                        },
                        texts(filenames@),
                    )
            },
{
    let i = match find_playlist(master, pl_id) {
        Some(i) => i,
        None => return None,
    };
    proof {
        assert(jviews(master@)[i as int] == master@[i as int]@);
    }
    let mut current: Vec<String> = Vec::new();
    match conditions_ref(&master[i]) {
        Some(c) => {
            let (_, music) = smart_lists(db, names, c, numeric);
            let mut k: usize = 0;
            while k < music.len()
                invariant
                    k <= music@.len(),
                    texts(current@) == music_texts(jviews(music@)).take(k as int),
                decreases music@.len() - k,
            {
                let t = match &music[k] {
                    JsonValue::Str(s) => s.clone(),
                    _ => String::new(),
                };
                let ghost b = current@;
                current.push(t);
                proof {
                    assert(texts(current@) =~= texts(b).push(t@));
                    assert(music_texts(jviews(music@)).take(k + 1) =~= music_texts(jviews(music@)).take(k as int).push(t@));
                }
                k = k + 1;
            }
            proof {
                assert(music_texts(jviews(music@)).take(music@.len() as int) =~= music_texts(jviews(music@)));
            }
        },
        None => {
            proof {
                assert(texts(current@) =~= Seq::<Seq<char>>::empty());
            }
        },
    }
    let mut p = master[i].copy();
    set_member(&mut p, "type", JsonValue::Str("normal".to_string()));
    drop_member(&mut p, "conditions");
    let c = p.copy();
    replace_at(master, i, p);
    let list = retain_unnamed(&current, filenames);
    Some((c, list))
}

/// Turns the first playlist with id `pl_id` into a normal playlist holding the file names of
/// the songs its rule picked, less those that `filenames` names
/// (`convert_smart_to_normal_and_remove_songs`): `None` when there is no such playlist; else
/// the changed playlist (type `normal`, no `conditions`) and the list to store.
pub fn convert_smart_to_normal_and_remove_songs<F: Fn(&str, &str, &JsonValue) -> bool>(
    pl_id: &str,
    filenames: &Vec<String>,
    master: &mut Vec<JsonValue>,
    db: &Vec<JsonObject>,
    numeric: &F,
) -> (r: Option<(JsonValue, Vec<String>)>)
    requires
        callable(*numeric),
    ensures
        r is Some == has_playlist(jviews(old(master)@), pl_id@),
        r is None ==> jviews(final(master)@) == jviews(old(master)@),
        r matches Some((p, list)) ==> exists|i: int, names: Seq<Seq<char>>|
            #![trigger first_playlist(jviews(old(master)@), pl_id@, i), names.len()]
            {
                &&& names.len() == db@.len()
                &&& forall|j: int| 0 <= j < db@.len() ==> is_file_name_of(#[trigger] names[j], db@[j]@)
                &&& first_playlist(jviews(old(master)@), pl_id@, i)
                &&& p@ == without_member(
                    with_member(jviews(old(master)@)[i], "type"@, Json::Str("normal"@)),
                    "conditions"@,
                )
                &&& jviews(final(master)@) == jviews(old(master)@).update(i, p@)
                &&& forall|oracle: spec_fn(Seq<char>, Seq<char>, JsonValue) -> bool|
                    decides_as(*numeric, oracle) ==> texts(list@) == without_named(
                        match conditions_of(old(master)@[i]) {
                            Some(c) => music_texts(smart_music(views(db@), names, c, oracle, db@.len() as int)),
                            None => Seq::empty(),
                        },
                        texts(filenames@),
                    )
            },
{
    let names = song_file_names(db);
    let r = convert_with_names(pl_id, filenames, master, db, &names, numeric);
    proof {
        assert(texts(names@).len() == db@.len());
        assert(forall|j: int| 0 <= j < db@.len() ==> texts(names@)[j] == names@[j]@);
        if r is Some {
            let pair = r->0;
            let i = choose|i: int|
                {
                    &&& first_playlist(jviews(old(master)@), pl_id@, i)
                    &&& pair.0@ == without_member(
                        with_member(jviews(old(master)@)[i], "type"@, Json::Str("normal"@)),
                        "conditions"@,
                    )
                    &&& jviews(master@) == jviews(old(master)@).update(i, pair.0@)
                    &&& forall|oracle: spec_fn(Seq<char>, Seq<char>, JsonValue) -> bool|
                        decides_as(*numeric, oracle) ==> texts(pair.1@) == without_named(
                            match conditions_of(old(master)@[i]) {
                                Some(c) => music_texts(smart_music(views(db@), texts(names@), c, oracle, db@.len() as int)),
                                None => Seq::empty(),
                            },
                            texts(filenames@),
                        )
                };
            assert(first_playlist(jviews(old(master)@), pl_id@, i));
        }
    }
    r
}

// ---------------------------------------------------------------------------
// Virtual playlists: all songs with one tag value
// ---------------------------------------------------------------------------

/// The songs among the first `n` whose tag `field` is the string `value`.
pub open spec fn field_songs(db: Seq<SongView>, field: Seq<char>, value: Seq<char>, n: int) -> Seq<Json>
    decreases n,
{
    if n <= 0 || n > db.len() {
        Seq::empty()
    } else if str_field(db[n - 1], field) == Some(value) {
        field_songs(db, field, value, n - 1).push(Json::Object(db[n - 1]))
    } else {
        field_songs(db, field, value, n - 1)
    }
}

/// The file names of those songs that have a music file.
pub open spec fn field_music(
    db: Seq<SongView>,
    names: Seq<Seq<char>>,
    field: Seq<char>,
    value: Seq<char>,
    n: int,
) -> Seq<Json>
    decreases n,
{
    if n <= 0 || n > db.len() {
        Seq::empty()
    } else if str_field(db[n - 1], field) == Some(value) && str_field(db[n - 1], "musicFilename"@) is Some {
        field_music(db, names, field, value, n - 1).push(Json::Str(names[n - 1]))
    } else {
        field_music(db, names, field, value, n - 1)
    }
}

/// A virtual playlist gathers exactly the songs whose tag is the value: every song it lists is
/// a song of the library whose tag `field` is the string `value`, and every such song of the
/// library is listed.
pub proof fn lemma_field_songs_exact(db: Seq<SongView>, field: Seq<char>, value: Seq<char>, n: int)
    requires
        0 <= n <= db.len(),
    ensures
        forall|j: int|
            0 <= j < field_songs(db, field, value, n).len() ==> (#[trigger] field_songs(db, field, value, n)[j]
                matches Json::Object(m) && str_field(m, field) == Some(value) && db.contains(m)),
        forall|k: int|
            0 <= k < n && str_field(db[k], field) == Some(value) ==> field_songs(db, field, value, n).contains(
                Json::Object(#[trigger] db[k]),
            ),
    decreases n,
{
    if n > 0 {
        lemma_field_songs_exact(db, field, value, n - 1);
        let prev = field_songs(db, field, value, n - 1);
        let cur = field_songs(db, field, value, n);
        assert(db.contains(db[n - 1]));
        assert forall|k: int|
            0 <= k < n && str_field(db[k], field) == Some(value) implies cur.contains(
            Json::Object(#[trigger] db[k]),
        ) by {
            if k < n - 1 {
                let j = choose|j: int| 0 <= j < prev.len() && prev[j] == Json::Object(db[k]);
                assert(cur[j] == prev[j]);
            } else {
                assert(cur[cur.len() - 1] == Json::Object(db[k]));
            }
        }
    }
}

/// A virtual playlist lists, in library order, the songs whose tag `field` is the string
/// `value`, and no others.
pub proof fn lemma_field_songs_in_order(db: Seq<SongView>, field: Seq<char>, value: Seq<char>, n: int)
    requires
        0 <= n <= db.len(),
    ensures
        field_songs(db, field, value, n) == db.take(n).filter(|m: SongView| str_field(m, field) == Some(value)).map_values(
            |m: SongView| Json::Object(m),
        ),
    decreases n,
{
    let pred = |m: SongView| str_field(m, field) == Some(value);
    if n == 0 {
        assert(db.take(0).filter(pred) =~= Seq::<SongView>::empty());
    } else {
        lemma_field_songs_in_order(db, field, value, n - 1);
        assert(db.take(n) =~= db.take(n - 1).push(db[n - 1]));
        db.take(n - 1).lemma_filter_push(db[n - 1], pred);
        let f = |m: SongView| Json::Object(m);
        if pred(db[n - 1]) {
            assert(db.take(n - 1).filter(pred).push(db[n - 1]).map_values(f) =~= db.take(n - 1).filter(
                pred,
            ).map_values(f).push(Json::Object(db[n - 1])));
        }
    }
}

/// The file names of a virtual playlist are exactly those of the songs whose tag is the value
/// and that have a music file: each listed name is the name of such a song, and the name of
/// every such song is listed.
pub proof fn lemma_field_music_exact(
    db: Seq<SongView>,
    names: Seq<Seq<char>>,
    field: Seq<char>,
    value: Seq<char>,
    n: int,
)
    requires
        0 <= n <= db.len(),
        names.len() == db.len(),
    ensures
        forall|j: int|
            0 <= j < field_music(db, names, field, value, n).len() ==> exists|k: int|
                0 <= k < n && #[trigger] field_music(db, names, field, value, n)[j] == Json::Str(names[k])
                    && str_field(db[k], field) == Some(value) && str_field(db[k], "musicFilename"@) is Some,
        forall|k: int|
            0 <= k < n && str_field(db[k], field) == Some(value) && str_field(db[k], "musicFilename"@) is Some
                ==> field_music(db, names, field, value, n).contains(Json::Str(#[trigger] names[k])),
    decreases n,
{
    if n > 0 {
        lemma_field_music_exact(db, names, field, value, n - 1);
        let prev = field_music(db, names, field, value, n - 1);
        let cur = field_music(db, names, field, value, n);
        assert forall|j: int| 0 <= j < cur.len() implies exists|k: int|
            0 <= k < n && #[trigger] cur[j] == Json::Str(names[k]) && str_field(db[k], field) == Some(value)
                && str_field(db[k], "musicFilename"@) is Some by {
            if j < prev.len() {
                assert(cur[j] == prev[j]);
                let k = choose|k: int|
                    0 <= k < n - 1 && #[trigger] prev[j] == Json::Str(names[k]) && str_field(db[k], field) == Some(
                        value,
                    ) && str_field(db[k], "musicFilename"@) is Some;
                assert(cur[j] == Json::Str(names[k]));
            } else {
                assert(cur[j] == Json::Str(names[n - 1]));
            }
        }
        assert forall|k: int|
            0 <= k < n && str_field(db[k], field) == Some(value) && str_field(db[k], "musicFilename"@) is Some
                implies cur.contains(Json::Str(#[trigger] names[k])) by {
            if k < n - 1 {
                let j = choose|j: int| 0 <= j < prev.len() && prev[j] == Json::Str(names[k]);
                assert(cur[j] == prev[j]);
            } else {
                assert(cur[cur.len() - 1] == Json::Str(names[k]));
            }
        }
    }
}

/// The playlist of all songs whose tag `field` is `value` (`get_virtual_playlist_details`):
/// id `virtual_<field>_<value>`, named `value`, of type `virtual`, sorted by title ascending,
/// with the songs in library order and their file names. `names` holds the file name of
/// each song.
pub fn virtual_playlist_with(field: &str, value: &str, db: &Vec<JsonObject>, names: &Vec<String>) -> (r: JsonValue)
    requires
        names@.len() == db@.len(),
    ensures
        r@ == Json::Object(
            Map::<Seq<char>, Json>::empty().insert(
                "id"@,
                Json::Str("virtual_"@ + field@ + "_"@ + value@),
            ).insert("playlistName"@, Json::Str(value@)).insert("type"@, Json::Str("virtual"@)).insert(
                "sortBy"@,
                Json::Str("title"@),
            ).insert("sortDesc"@, Json::Bool(false)).insert(
                "songs"@,
                Json::Array(field_songs(views(db@), field@, value@, db@.len() as int)),
            ).insert(
                "music"@,
                Json::Array(field_music(views(db@), texts(names@), field@, value@, db@.len() as int)),
            ),
        ),
{
    let mut songs: Vec<JsonValue> = Vec::new();
    let mut music: Vec<JsonValue> = Vec::new();
    let mut i: usize = 0;
    while i < db.len()
        invariant
            i <= db@.len(),
            names@.len() == db@.len(),
            jviews(songs@) == field_songs(views(db@), field@, value@, i as int),
            jviews(music@) == field_music(views(db@), texts(names@), field@, value@, i as int),
        decreases db@.len() - i,
    {
        let ghost s0 = songs@;
        let ghost m0 = music@;
        proof {
            assert(views(db@)[i as int] == db@[i as int]@);
        }
        let hit = match db[i].get_str(field) {
            Some(s) => same_text(s.as_str(), value),
            None => false,
        };
        if hit {
            let c = db[i].copy();
            songs.push(JsonValue::Object(c));
            if db[i].get_str("musicFilename").is_some() {
                music.push(JsonValue::Str(names[i].clone()));
            }
            proof {
                assert(jviews(songs@) =~= jviews(s0).push(Json::Object(db@[i as int]@)));
            }
        }
        proof {
            assert(jviews(music@) =~= field_music(views(db@), texts(names@), field@, value@, i + 1));
        }
        i = i + 1;
    }
    let id0 = concat_text("virtual_", field);
    let id1 = concat_text(id0.as_str(), "_");
    let id = concat_text(id1.as_str(), value);
    let mut o = playlist_base(id.as_str(), value, "virtual");
    let sa = JsonValue::array(songs);
    let ma = JsonValue::array(music);
    o.insert("songs".to_string(), sa);
    o.insert("music".to_string(), ma);
    JsonValue::Object(o)
}

/// The playlist of all songs whose tag `field` is `value`, the file names of the songs taken
/// from their music files (`get_virtual_playlist_details`).
pub fn get_virtual_playlist_details(field: &str, value: &str, db: &Vec<JsonObject>) -> (r: JsonValue)
    ensures
        exists|names: Seq<Seq<char>>|
            names.len() == db@.len() && (forall|j: int|
                0 <= j < db@.len() ==> is_file_name_of(#[trigger] names[j], db@[j]@)) && r@ == Json::Object(
                Map::<Seq<char>, Json>::empty().insert(
                    "id"@,
                    Json::Str("virtual_"@ + field@ + "_"@ + value@),
                ).insert("playlistName"@, Json::Str(value@)).insert("type"@, Json::Str("virtual"@)).insert(
                    "sortBy"@,
                    Json::Str("title"@),
                ).insert("sortDesc"@, Json::Bool(false)).insert(
                    "songs"@,
                    Json::Array(field_songs(views(db@), field@, value@, db@.len() as int)),
                ).insert(
                    "music"@,
                    Json::Array(field_music(views(db@), names, field@, value@, db@.len() as int)),
                ),
            ),
{
    let names = song_file_names(db);
    proof {
        assert(forall|j: int| 0 <= j < db@.len() ==> texts(names@)[j] == names@[j]@);
    }
    virtual_playlist_with(field, value, db, &names)
}

} // verus!
