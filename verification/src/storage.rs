//! The song database as stored and as shown: the stored records lack the members that are
//! worked out when the library is loaded (play time and the addresses of artwork and music).
use vstd::prelude::*;
use crate::json::{text_field, Json, JsonObject, JsonValue};
use crate::media::{call_for_path, duration_text, get_duration_str, gives_for, path_callable};

verus! {

/// A record as stored: without `duration`, `imageData` and `streamUrl`.
pub open spec fn stored_record(m: Map<Seq<char>, Json>) -> Map<Seq<char>, Json> {
    m.remove("duration"@).remove("imageData"@).remove("streamUrl"@)
}

/// The records that saving the library writes (`save_db`): each song without the members
/// worked out on loading.
pub fn save_db(db: &Vec<JsonObject>) -> (r: Vec<JsonObject>)
    ensures
        r@.len() == db@.len(),
        forall|i: int| 0 <= i < db@.len() ==> (#[trigger] r@[i])@ == stored_record(db@[i]@),
{
    let mut r: Vec<JsonObject> = Vec::new();
    let mut i: usize = 0;
    while i < db.len()
        invariant
            i <= db@.len(),
            r@.len() == i,
            forall|j: int| 0 <= j < i ==> (#[trigger] r@[j])@ == stored_record(db@[j]@),
        decreases db@.len() - i,
    {
        let mut c = db[i].copy();
        c.remove("duration");
        c.remove("imageData");
        c.remove("streamUrl");
        r.push(c);
        i = i + 1;
    }
    r
}

/// A record as shown after loading: with its play time, and the addresses of its artwork and
/// its music, given by `image_url` and `stream_url`.
pub open spec fn loaded_record(
    m: Map<Seq<char>, Json>,
    secs: Option<u64>,
    image_url: Seq<char>,
    stream_url: Seq<char>,
) -> Map<Seq<char>, Json> {
    m.insert("duration"@, Json::Str(duration_text(secs))).insert("imageData"@, Json::Str(image_url)).insert(
        "streamUrl"@,
        Json::Str(stream_url),
    )
}

/// Saving a loaded record gives back the record as stored: loading adds only the members that
/// saving drops, so a save after a load writes what was read.
pub proof fn lemma_save_after_load(
    m: Map<Seq<char>, Json>,
    secs: Option<u64>,
    image_url: Seq<char>,
    stream_url: Seq<char>,
)
    ensures
        stored_record(loaded_record(m, secs, image_url, stream_url)) == stored_record(m),
{
    reveal_strlit("duration");
    reveal_strlit("imageData");
    reveal_strlit("streamUrl");
    assert("duration"@[0] != "imageData"@[0]);
    assert("duration"@[0] != "streamUrl"@[0]);
    assert("imageData"@[0] != "streamUrl"@[0]);
    assert(stored_record(loaded_record(m, secs, image_url, stream_url)) =~= stored_record(m));
}

/// The library as loaded (`load_db`): each stored record with its play time (`secs[i]` whole
/// seconds of song `i`, `None` when its music cannot be read) and the addresses that `asset`
/// gives for its `imageFilename` and `musicFilename` (the empty path when not text).
pub fn load_db<F: Fn(&str) -> String>(db: Vec<JsonObject>, secs: &Vec<Option<u64>>, asset: F) -> (r: Vec<JsonObject>)
    requires
        secs@.len() == db@.len(),
        path_callable(asset),
    ensures
        r@.len() == db@.len(),
        forall|i: int|
            0 <= i < db@.len() ==> {
                &&& gives_for(asset, text_field(db@[i]@, "imageFilename"@), text_field(r@[i]@, "imageData"@))
                &&& gives_for(asset, text_field(db@[i]@, "musicFilename"@), text_field(r@[i]@, "streamUrl"@))
                &&& (#[trigger] r@[i])@ == loaded_record(
                    db@[i]@,
                    secs@[i],
                    text_field(r@[i]@, "imageData"@),
                    text_field(r@[i]@, "streamUrl"@),
                )
            },
{
    let mut r: Vec<JsonObject> = Vec::new();
    let mut i: usize = 0;
    while i < db.len()
        invariant
            i <= db@.len(),
            secs@.len() == db@.len(),
            path_callable(asset),
            r@.len() == i,
            forall|j: int|
                0 <= j < i ==> {
                    &&& gives_for(asset, text_field(db@[j]@, "imageFilename"@), text_field(r@[j]@, "imageData"@))
                    &&& gives_for(asset, text_field(db@[j]@, "musicFilename"@), text_field(r@[j]@, "streamUrl"@))
                    &&& (#[trigger] r@[j])@ == loaded_record(
                        db@[j]@,
                        secs@[j],
                        text_field(r@[j]@, "imageData"@),
                        text_field(r@[j]@, "streamUrl"@),
                    )
                },
        decreases db@.len() - i,
    {
        let img = db[i].text_or_empty("imageFilename");
        let music = db[i].text_or_empty("musicFilename");
        let iu = call_for_path(&asset, img.as_str());
        let su = call_for_path(&asset, music.as_str());
        let ghost (iv, sv) = (iu@, su@);
        let mut c = db[i].copy();
        c.insert("duration".to_string(), JsonValue::Str(get_duration_str(secs[i])));
        c.insert("imageData".to_string(), JsonValue::Str(iu));
        c.insert("streamUrl".to_string(), JsonValue::Str(su));
        proof {
            reveal_strlit("imageData");
            reveal_strlit("streamUrl");
            assert("imageData"@[0] != "streamUrl"@[0]);
            assert(text_field(c@, "imageData"@) == iv);
            assert(text_field(c@, "streamUrl"@) == sv);
        }
        r.push(c);
        i = i + 1;
    }
    r
}

/// The library with its play times and, when asked for, its artwork inline
/// (`get_library_data_with_meta`): each song with `duration` from `secs[i]` and `imageData`
/// either what `images` gives for its `imageFilename` (the empty path when not text) or empty.
pub fn get_library_data_with_meta<G: Fn(&str) -> String>(
    include_images: bool,
    db: &Vec<JsonObject>,
    secs: &Vec<Option<u64>>,
    images: G,
) -> (r: Vec<JsonValue>)
    requires
        secs@.len() == db@.len(),
        path_callable(images),
    ensures
        r@.len() == db@.len(),
        exists|ds: Seq<Seq<char>>|
            #![trigger ds.len()]
            {
                &&& ds.len() == db@.len()
                &&& forall|i: int|
                    0 <= i < db@.len() ==> {
                        &&& (if include_images {
                            gives_for(images, text_field(db@[i]@, "imageFilename"@), ds[i])
                        } else {
                            ds[i] == Seq::<char>::empty()
                        })
                        &&& (#[trigger] r@[i])@ == Json::Object(
                            db@[i]@.insert("duration"@, Json::Str(duration_text(secs@[i]))).insert(
                                "imageData"@,
                                Json::Str(ds[i]),
                            ),
                        )
                    }
            },
{
    let mut r: Vec<JsonValue> = Vec::new();
    let ghost mut ds = Seq::<Seq<char>>::empty();
    let mut i: usize = 0;
    while i < db.len()
        invariant
            i <= db@.len(),
            secs@.len() == db@.len(),
            path_callable(images),
            r@.len() == i,
            ds.len() == i,
            forall|j: int|
                0 <= j < i ==> {
                    &&& (if include_images {
                        gives_for(images, text_field(db@[j]@, "imageFilename"@), ds[j])
                    } else {
                        ds[j] == Seq::<char>::empty()
                    })
                    &&& (#[trigger] r@[j])@ == Json::Object(
                        db@[j]@.insert("duration"@, Json::Str(duration_text(secs@[j]))).insert(
                            "imageData"@,
                            Json::Str(ds[j]),
                        ),
                    )
                },
        decreases db@.len() - i,
    {
        let d = if include_images {
            let img = db[i].text_or_empty("imageFilename");
            call_for_path(&images, img.as_str())
        } else {
            String::new()
        };
        proof {
            ds = ds.push(d@);
        }
        let mut c = db[i].copy();
        c.insert("duration".to_string(), JsonValue::Str(get_duration_str(secs[i])));
        c.insert("imageData".to_string(), JsonValue::Str(d));
        let ghost cv = c@;
        r.push(JsonValue::Object(c));
        proof {
            JsonValue::lemma_object_view(r@[i as int]->Object_0);
            assert(r@[i as int]@ == Json::Object(cv));
        }
        i = i + 1;
    }
    proof {
        assert(ds.len() == db@.len());
    }
    r
}

} // verus!
