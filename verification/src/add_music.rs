//! Adding music: the tags a song can carry, songs that look like one being added, and the
//! records stored for uploaded and downloaded songs.
use vstd::prelude::*;
use crate::json::{str_field, text_field, Json, JsonObject, JsonValue};
use crate::library::{views, SongView};
use crate::media::{
    base64_standard, call_for_path, data_url_payload, decode_data_url, decoded_picture, encoded_png, gives_for,
    is_base64, path_callable, png_on_white, reads_as_size, white_look, white_ready,
};
use crate::text::{
    concat_text, file_name_of, has_infix, is_plain_path, last_segment, lowercase, normalize_newlines, normalized_newlines,
    to_lowercase, trim, trimmed,
};
use crate::types::{DuplicateSong, TagInfo};

verus! {

// ---------------------------------------------------------------------------
// Tags
// ---------------------------------------------------------------------------

/// The tags that songs can carry, each as its key and its label, in the order the editor
/// shows them.
pub open spec fn available_tags() -> Seq<(Seq<char>, Seq<char>)> {
    seq![
        ("title"@, "タイトル"@),
        ("artist"@, "アーティスト"@),
        ("album"@, "アルバム"@),
        ("genre"@, "ジャンル"@),
        ("track"@, "トラック"@),
        ("year"@, "年/日付"@),
        ("album_artist"@, "アルバムアーティスト"@),
        ("disc"@, "ディスクNo"@),
        ("bpm"@, "BPM"@),
        ("composer"@, "作曲者"@),
        ("comment"@, "コメント"@),
    ]
}

fn tag(key: &str, label: &str) -> (r: TagInfo)
    ensures
        r.key@ == key@,
        r.label@ == label@,
{
    TagInfo { key: key.to_string(), label: label.to_string() }
}

/// The tags that songs can carry (`get_available_tags`).
pub fn get_available_tags() -> (r: Vec<TagInfo>)
    ensures
        r@.len() == available_tags().len(),
        forall|i: int|
            0 <= i < r@.len() ==> (#[trigger] r@[i]).key@ == available_tags()[i].0 && r@[i].label@
                == available_tags()[i].1,
{
    let r = vec![
        tag("title", "タイトル"),
        tag("artist", "アーティスト"),
        tag("album", "アルバム"),
        tag("genre", "ジャンル"),
        tag("track", "トラック"),
        tag("year", "年/日付"),
        tag("album_artist", "アルバムアーティスト"),
        tag("disc", "ディスクNo"),
        tag("bpm", "BPM"),
        tag("composer", "作曲者"),
        tag("comment", "コメント"),
    ];
    r
}

// ---------------------------------------------------------------------------
// Duplicates
// ---------------------------------------------------------------------------

/// How titles and artists are compared when looking for duplicates: trimmed, then
/// lower-cased.
pub open spec fn match_key(t: Seq<char>) -> Seq<char> {
    lowercase(trimmed(t))
}

/// The song's title and artist are texts whose keys are `qt` and `qa`.
pub open spec fn is_duplicate(song: SongView, qt: Seq<char>, qa: Seq<char>) -> bool {
    &&& str_field(song, "title"@) matches Some(t) && match_key(t) == qt
    &&& str_field(song, "artist"@) matches Some(a) && match_key(a) == qa
}

/// The songs of the library that look like a song with that title and artist: none when
/// either key is empty.
pub open spec fn duplicates(db: Seq<SongView>, title: Seq<char>, artist: Seq<char>) -> Seq<SongView> {
    if match_key(title).len() == 0 || match_key(artist).len() == 0 {
        Seq::empty()
    } else {
        db.filter(|s: SongView| is_duplicate(s, match_key(title), match_key(artist)))
    }
}

/// The duplicates of a song are exactly the songs of the library whose title and artist,
/// trimmed and lower-cased, are those of the song asked about, and there are none when either
/// of those is empty after trimming.
pub proof fn lemma_duplicates_exact(db: Seq<SongView>, title: Seq<char>, artist: Seq<char>)
    ensures
        lowercase(trimmed(title)).len() == 0 || lowercase(trimmed(artist)).len() == 0 ==> duplicates(
            db,
            title,
            artist,
        ).len() == 0,
        forall|j: int|
            0 <= j < duplicates(db, title, artist).len() ==> {
                let d = #[trigger] duplicates(db, title, artist)[j];
                &&& db.contains(d)
                &&& str_field(d, "title"@) matches Some(t) && lowercase(trimmed(t)) == lowercase(trimmed(title))
                &&& str_field(d, "artist"@) matches Some(a) && lowercase(trimmed(a)) == lowercase(
                    trimmed(artist),
                )
            },
        forall|k: int|
            0 <= k < db.len() && lowercase(trimmed(title)).len() > 0 && lowercase(trimmed(artist)).len() > 0
                && (str_field(db[k], "title"@) matches Some(t) && lowercase(trimmed(t)) == lowercase(
                trimmed(title),
            )) && (str_field(db[k], "artist"@) matches Some(a) && lowercase(trimmed(a)) == lowercase(
                trimmed(artist),
            )) ==> duplicates(db, title, artist).contains(#[trigger] db[k]),
{
    let qt = match_key(title);
    let qa = match_key(artist);
    if qt.len() > 0 && qa.len() > 0 {
        let pred = |s: SongView| is_duplicate(s, qt, qa);
        let dups = db.filter(pred);
        assert forall|j: int| 0 <= j < dups.len() implies db.contains(#[trigger] dups[j]) && pred(dups[j]) by {
            db.lemma_filter_pred(pred, j);
            db.lemma_filter_contains_rev(pred, dups[j]);
        }
        assert forall|k: int| 0 <= k < db.len() && pred(#[trigger] db[k]) implies dups.contains(db[k]) by {
            db.lemma_filter_contains(pred, k);
        }
    }
}

/// The entry shown for a duplicate `song`: its title, artist and album (empty when not text),
/// the file name of its music path (its last piece, for a plain path), and its artwork's
/// address.
pub open spec fn duplicate_shows<F: Fn(&str) -> String>(d: DuplicateSong, song: SongView, asset: F) -> bool {
    &&& d.title@ == text_field(song, "title"@)
    &&& d.artist@ == text_field(song, "artist"@)
    &&& d.album@ == text_field(song, "album"@)
    &&& has_infix(text_field(song, "musicFilename"@), d.filename@)
    &&& !d.filename@.contains('/')
    &&& is_plain_path(text_field(song, "musicFilename"@)) ==> d.filename@ == last_segment(
        text_field(song, "musicFilename"@),
    )
    &&& gives_for(asset, text_field(song, "imageFilename"@), d.image_data@)
}

fn match_key_of(t: &str) -> (r: String)
    ensures
        r@ == match_key(t@),
{
    let s = trim(t);
    to_lowercase(s.as_str())
}

fn is_duplicate_of(song: &JsonObject, qt: &str, qa: &str) -> (r: bool)
    ensures
        r == is_duplicate(song@, qt@, qa@),
{
    let t_ok = match song.get_str("title") {
        Some(t) => {
            let k = match_key_of(t.as_str());
            crate::text::same_text(k.as_str(), qt)
        },
        None => false,
    };
    if !t_ok {
        return false;
    }
    match song.get_str("artist") {
        Some(a) => {
            let k = match_key_of(a.as_str());
            crate::text::same_text(k.as_str(), qa)
        },
        None => false,
    }
}

fn duplicate_entry<F: Fn(&str) -> String>(song: &JsonObject, asset: &F) -> (r: DuplicateSong)
    requires
        path_callable(*asset),
    ensures
        duplicate_shows(r, song@, *asset),
{
    let path = song.text_or_empty("musicFilename");
    let img = song.text_or_empty("imageFilename");
    let url = call_for_path(asset, img.as_str());
    DuplicateSong {
        title: song.text_or_empty("title"),
        artist: song.text_or_empty("artist"),
        album: song.text_or_empty("album"),
        filename: file_name_of(path.as_str()),
        image_data: url,
    }
}

/// The songs of the library that look like the one being added (`check_duplicate_songs`):
/// those whose title and artist, trimmed and lower-cased, are the given ones trimmed and
/// lower-cased, in library order; none when either given key is empty. `asset` gives the
/// address of an artwork file.
pub fn check_duplicate_songs<F: Fn(&str) -> String>(
    title: &str,
    artist: &str,
    db: &Vec<JsonObject>,
    asset: F,
) -> (r: Vec<DuplicateSong>)
    requires
        path_callable(asset),
    ensures
        r@.len() == duplicates(views(db@), title@, artist@).len(),
        forall|j: int|
            0 <= j < r@.len() ==> duplicate_shows(
                #[trigger] r@[j],
                duplicates(views(db@), title@, artist@)[j],
                asset,
            ),
{
    let qt = match_key_of(title);
    let qa = match_key_of(artist);
    let mut r: Vec<DuplicateSong> = Vec::new();
    if qt.as_str().is_empty() || qa.as_str().is_empty() {
        return r;
    }
    let ghost pred = |s: SongView| is_duplicate(s, qt@, qa@);
    let ghost mut sel = Seq::<SongView>::empty();
    let mut i: usize = 0;
    while i < db.len()
        invariant
            i <= db@.len(),
            path_callable(asset),
            qt@ == match_key(title@),
            qa@ == match_key(artist@),
            pred == (|s: SongView| is_duplicate(s, qt@, qa@)),
            sel == views(db@).take(i as int).filter(pred),
            r@.len() == sel.len(),
            forall|j: int| 0 <= j < r@.len() ==> duplicate_shows(#[trigger] r@[j], sel[j], asset),
        decreases db@.len() - i,
    {
        proof {
            views(db@).take(i as int).lemma_filter_push(views(db@)[i as int], pred);
            assert(views(db@).take(i + 1) =~= views(db@).take(i as int).push(views(db@)[i as int]));
        }
        if is_duplicate_of(&db[i], qt.as_str(), qa.as_str()) {
            let d = duplicate_entry(&db[i], &asset);
            r.push(d);
            proof {
                sel = sel.push(views(db@)[i as int]);
            }
        }
        i = i + 1;
    }
    proof {
        assert(views(db@).take(db@.len() as int) =~= views(db@));
    }
    r
}

// ---------------------------------------------------------------------------
// Stored records
// ---------------------------------------------------------------------------

/// The data URL's payload is the base64 text of a picture that can be laid on white and
/// written as PNG (see `white_ready`).
pub open spec fn holds_picture(s: Seq<char>) -> bool {
    exists|b: Seq<u8>| base64_standard(b) == data_url_payload(s) && white_ready(#[trigger] decoded_picture(b))
}

/// The PNG bytes made from the picture `bytes` hold, laid on white (see `white_look`); when they
/// read as a picture, it has that picture's width and height.
pub open spec fn png_of_picture(bytes: Seq<u8>, png: Seq<u8>) -> bool {
    match decoded_picture(bytes) {
        Some((w, h, _, _)) => encoded_png(white_look(bytes)) == Some(png) && reads_as_size(png, w, h),
        None => false,
    }
}

/// PNG bytes that stand for the picture whose base64 text is the data URL's payload.
pub open spec fn png_of_data_url(s: Seq<char>, png: Seq<u8>) -> bool {
    exists|b: Seq<u8>| base64_standard(b) == data_url_payload(s) && #[trigger] png_of_picture(b, png)
}

/// The picture a data URL holds, laid on white and written as PNG: `Some` exactly when the
/// payload is the base64 text of a picture that can be (see `holds_picture`).
fn picture_png(s: &str) -> (r: Option<Vec<u8>>)
    ensures
        r is Some <==> holds_picture(s@),
        r matches Some(p) ==> png_of_data_url(s@, p@),
{
    match decode_data_url(s) {
        Ok(b) => {
            let r = png_on_white(&b);
            proof {
                if holds_picture(s@) {
                    let c = choose|c: Seq<u8>|
                        base64_standard(c) == data_url_payload(s@) && white_ready(#[trigger] decoded_picture(c));
                    assert(c == b@);
                }
                if r is Some {
                    assert(white_ready(decoded_picture(b@)));
                    assert(png_of_picture(b@, r->0@));
                }
            }
            r
        },
        Err(_) => {
            proof {
                if holds_picture(s@) {
                    let c = choose|c: Seq<u8>|
                        base64_standard(c) == data_url_payload(s@) && white_ready(#[trigger] decoded_picture(c));
                    assert(is_base64(data_url_payload(s@)));
                }
            }
            None
        },
    }
}

/// Where the artwork of songs without their own is kept.
pub open spec fn default_image_path() -> Seq<char> {
    "library/images/default.png"@
}

/// Where the artwork stored under identifier `id` is kept.
pub open spec fn image_path(id: Seq<char>) -> Seq<char> {
    "library/images/"@ + id + ".png"@
}

/// Where the music stored under identifier `id` with extension `ext` is kept.
pub open spec fn music_path(id: Seq<char>, ext: Seq<char>) -> Seq<char> {
    "library/music/"@ + id + "."@ + ext
}

/// A song record with the line endings of its lyrics normalized, when its lyrics are text.
pub open spec fn with_clean_lyric(m: Map<Seq<char>, Json>) -> Map<Seq<char>, Json> {
    match str_field(m, "lyric"@) {
        Some(l) => m.insert("lyric"@, Json::Str(normalized_newlines(l))),
        None => m,
    }
}

fn clean_lyric(m: &mut JsonObject)
    ensures
        final(m)@ == with_clean_lyric(old(m)@),
{
    let cleaned = match m.get_str("lyric") {
        Some(l) => Some(normalize_newlines(l.as_str())),
        None => None,
    };
    match cleaned {
        Some(c) => m.insert("lyric".to_string(), JsonValue::Str(c)),
        None => {},
    }
}

fn set_text(m: &mut JsonObject, k: &str, v: String)
    ensures
        final(m)@ == old(m)@.insert(k@, Json::Str(v@)),
{
    m.insert(k.to_string(), JsonValue::Str(v));
}

/// A file name that has no directory part on any platform: not empty, without `/`, `\\` or
/// `:`, and neither `.` nor `..`.
pub open spec fn is_plain_name(n: Seq<char>) -> bool {
    &&& n.len() > 0
    &&& !n.contains('/')
    &&& !n.contains('\\')
    &&& !n.contains(':')
    &&& n != "."@
    &&& n != ".."@
}

/// The extension of a file name: the text after its last dot, when that dot is not its first
/// character; none otherwise.
pub open spec fn extension_of(n: Seq<char>) -> Option<Seq<char>> {
    if exists|i: int| 0 < i < n.len() && n[i] == '.' && !#[trigger] n.subrange(i + 1, n.len() as int).contains('.') {
        let i = choose|i: int|
            0 < i < n.len() && n[i] == '.' && !#[trigger] n.subrange(i + 1, n.len() as int).contains('.');
        Some(n.subrange(i + 1, n.len() as int))
    } else {
        None
    }
}

/// `Path::new(name).extension()` as text: the part of the last file name after its last
/// dot, unless that dot starts the file name. Which separators end a file name depends on
/// the platform; for a name without any of them it is `extension_of(name)`; in general it is
/// a piece of `name` after a dot, without dots or `/`.
#[verifier::external_body]
fn path_extension(name: &str) -> (r: Option<String>)
    ensures
        r matches Some(e) ==> has_infix(name@, seq!['.'] + e@) && !e@.contains('.') && !e@.contains(
            '/',
        ),
        is_plain_name(name@) ==> opt_text(r) == extension_of(name@),
{
    std::path::Path::new(name).extension().and_then(|e| e.to_str()).map(|e| e.to_string())
}

/// What becomes of the artwork sent with an upload.
pub enum ArtworkUpload {
    /// None was sent: the song gets the default artwork.
    Absent,
    /// PNG bytes to store at the path.
    Png(String, Vec<u8>),
    /// What was sent is no base64 text, or holds no picture: the song gets no artwork field.
    Unreadable,
}

/// The files to store for an uploaded song: its music (path and bytes) when sent, and its
/// artwork.
pub struct MusicUpload {
    pub music: Option<(String, Vec<u8>)>,
    pub artwork: ArtworkUpload,
}

/// The extension an uploaded music file is stored with, given the sent file name: `mp3`
/// without a name; for a name without directory separators, its extension, or `mp3` when it
/// has none. (For other names it is taken from the last file name, which depends on the
/// platform.)
pub open spec fn upload_extension(name: Option<Seq<char>>, e: Seq<char>) -> bool {
    match name {
        None => e == "mp3"@,
        Some(n) => is_plain_name(n) ==> e == match extension_of(n) {
            Some(x) => x,
            None => "mp3"@,
        },
    }
}

/// The files that an upload asks to store under identifier `id` (the first half of
/// `save_music_data`): `Err` with the decoder's message when the music is sent but is not
/// base64 text. The music goes to `library/music/<id>.<ext>`, the extension taken from the
/// sent file name (`mp3` without one); the artwork goes to `library/images/<id>.png`, as PNG
/// laid on white, exactly when it holds such a picture (see `holds_picture`).
pub fn music_upload_plan(data: &JsonObject, id: &str) -> (r: Result<MusicUpload, String>)
    ensures
        r is Err <==> (str_field(data@, "music_data"@) matches Some(t) && !is_base64(data_url_payload(t))),
        r matches Ok(u) ==> {
            &&& str_field(data@, "music_data"@) is None ==> u.music is None
            &&& str_field(data@, "music_data"@) matches Some(t) ==> (u.music matches Some(m) && base64_standard(
                m.1@,
            ) == data_url_payload(t) && exists|e: Seq<char>| m.0@ == music_path(id@, e)
                && upload_extension(str_field(data@, "music_name"@), e))
            &&& str_field(data@, "artwork_data"@) is None <==> u.artwork is Absent
            &&& str_field(data@, "artwork_data"@) matches Some(t) ==> (u.artwork is Png <==> holds_picture(t))
            &&& u.artwork matches ArtworkUpload::Png(p, png) ==> p@ == image_path(id@)
                && (str_field(data@, "artwork_data"@) matches Some(t) && png_of_data_url(t, png@))
        },
{
    let music = match data.get_str("music_data") {
        Some(t) => {
            let bytes = match decode_data_url(t.as_str()) {
                Ok(b) => b,
                Err(e) => return Err(e),
            };
            let ext = match data.get_str("music_name") {
                Some(name) => match path_extension(name.as_str()) {
                    Some(e) => e,
                    None => "mp3".to_string(),
                },
                None => "mp3".to_string(),
            };
            let head = concat_text("library/music/", id);
            let dotted = concat_text(head.as_str(), ".");
            let path = concat_text(dotted.as_str(), ext.as_str());
            proof {
                assert(path@ =~= music_path(id@, ext@));
            }
            Some((path, bytes))
        },
        None => None,
    };
    let artwork = match data.get_str("artwork_data") {
        Some(t) => match picture_png(t.as_str()) {
            Some(png) => {
                let head = concat_text("library/images/", id);
                let path = concat_text(head.as_str(), ".png");
                proof {
                    assert(path@ =~= image_path(id@));
                }
                ArtworkUpload::Png(path, png)
            },
            None => ArtworkUpload::Unreadable,
        },
        None => ArtworkUpload::Absent,
    };
    Ok(MusicUpload { music, artwork })
}

/// The text of an optional string.
pub open spec fn opt_text(o: Option<String>) -> Option<Seq<char>> {
    match o {
        Some(t) => Some(t@),
        None => None,
    }
}

/// A path and the address under which it is read, or nothing.
pub open spec fn with_url(rel: Option<Seq<char>>, url: Seq<char>) -> Option<(Seq<char>, Seq<char>)> {
    match rel {
        Some(r) => Some((r, url)),
        None => None,
    }
}

/// The record stored for an uploaded song: what was sent, with the music path and stream
/// address, and the artwork path and address, where given; without the upload-only members
/// `music_data`, `music_name`, `artwork_data` and `artwork_type`; lyrics with normalized line
/// endings.
pub open spec fn uploaded_record(
    data: Map<Seq<char>, Json>,
    music: Option<(Seq<char>, Seq<char>)>,
    image: Option<(Seq<char>, Seq<char>)>,
) -> Map<Seq<char>, Json> {
    let m1 = match music {
        Some((p, u)) => data.insert("musicFilename"@, Json::Str(p)).insert("streamUrl"@, Json::Str(u)),
        None => data,
    };
    let m2 = match image {
        Some((p, u)) => m1.insert("imageFilename"@, Json::Str(p)).insert("imageData"@, Json::Str(u)),
        None => m1,
    };
    with_clean_lyric(
        m2.remove("music_data"@).remove("music_name"@).remove("artwork_data"@).remove("artwork_type"@),
    )
}

/// The artwork path an upload ends with: the default for none sent, the stored one when it
/// was written, none when what was sent was unreadable or could not be written.
pub open spec fn upload_image(artwork: ArtworkUpload, written: bool) -> Option<Seq<char>> {
    match artwork {
        ArtworkUpload::Absent => Some(default_image_path()),
        ArtworkUpload::Png(p, _) => if written {
            Some(p@)
        } else {
            None
        },
        ArtworkUpload::Unreadable => None,
    }
}

/// Adds the record of an uploaded song to the library (the second half of `save_music_data`,
/// once the files are written): `music_path` is where its music was stored, if sent;
/// `artwork_written` tells whether the artwork file was written; `asset` gives the address of
/// a stored file.
pub fn save_music_data<F: Fn(&str) -> String>(
    data: JsonObject,
    music_path: Option<String>,
    artwork: &ArtworkUpload,
    artwork_written: bool,
    asset: F,
    db: &mut Vec<JsonObject>,
)
    requires
        path_callable(asset),
    ensures
        final(db)@.len() == old(db)@.len() + 1,
        views(final(db)@).take(old(db)@.len() as int) == views(old(db)@),
        exists|mu: Seq<char>, iu: Seq<char>|
            {
                &&& (music_path matches Some(p) ==> gives_for(asset, p@, mu))
                &&& (upload_image(*artwork, artwork_written) matches Some(p) ==> gives_for(
                    asset,
                    p,
                    iu,
                ))
                &&& final(db)@.last()@ == #[trigger] uploaded_record(
                    data@,
                    with_url(opt_text(music_path), mu),
                    with_url(upload_image(*artwork, artwork_written), iu),
                )
            },
{
    let mut m = data;
    let ghost d = m@;
    let ghost mut mu = Seq::<char>::empty();
    let ghost mut iu = Seq::<char>::empty();
    match &music_path {
        Some(p) => {
            let u = call_for_path(&asset, p.as_str());
            proof {
                mu = u@;
            }
            set_text(&mut m, "musicFilename", p.clone());
            set_text(&mut m, "streamUrl", u);
        },
        None => {},
    }
    let image: Option<String> = match artwork {
        ArtworkUpload::Absent => Some("library/images/default.png".to_string()),
        ArtworkUpload::Png(p, _) => if artwork_written {
            Some(p.clone())
        } else {
            None
        },
        ArtworkUpload::Unreadable => None,
    };
    match &image {
        Some(p) => {
            let u = call_for_path(&asset, p.as_str());
            proof {
                iu = u@;
            }
            set_text(&mut m, "imageFilename", p.clone());
            set_text(&mut m, "imageData", u);
        },
        None => {},
    }
    m.remove("music_data");
    m.remove("music_name");
    m.remove("artwork_data");
    m.remove("artwork_type");
    clean_lyric(&mut m);
    let ghost before = db@;
    db.push(m);
    proof {
        assert(views(db@).take(before.len() as int) =~= views(before));
        assert(opt_text(image) == upload_image(*artwork, artwork_written));
        let mp = with_url(opt_text(music_path), mu);
        let ip = with_url(upload_image(*artwork, artwork_written), iu);
        assert(db@.last()@ == uploaded_record(d, mp, ip));
    }
}

/// What a download asks for: the video's address, the output template for the downloader
/// (`library/music/<id>.%(ext)s`), and the artwork to store, when one was sent and holds a
/// picture.
pub struct DownloadPlan {
    pub url: String,
    pub output: String,
    pub artwork: Option<(String, Vec<u8>)>,
}

/// The output template for music downloaded under identifier `id`.
pub open spec fn download_output(id: Seq<char>) -> Seq<char> {
    "library/music/"@ + id + ".%(ext)s"@
}

/// What a download under identifier `id` asks for (the first half of
/// `download_and_save_music`): `Err("No URL")` when no `video_url` text was sent; the artwork
/// is kept when a non-empty `artwork_data` text was sent that is base64 of a picture, as PNG
/// laid on white for `library/images/<id>.png`.
pub fn download_plan(data: &JsonObject, id: &str) -> (r: Result<DownloadPlan, String>)
    ensures
        r is Err <==> str_field(data@, "video_url"@) is None,
        r matches Err(e) ==> e@ == "No URL"@,
        r matches Ok(p) ==> {
            &&& str_field(data@, "video_url"@) == Some(p.url@)
            &&& p.output@ == download_output(id@)
            &&& p.artwork is Some <==> (str_field(data@, "artwork_data"@) matches Some(t) && t.len() > 0
                && holds_picture(t))
            &&& p.artwork matches Some(a) ==> a.0@ == image_path(id@)
                && (str_field(data@, "artwork_data"@) matches Some(t) && png_of_data_url(t, a.1@))
        },
{
    let url = match data.get_str("video_url") {
        Some(u) => u.clone(),
        None => return Err("No URL".to_string()),
    };
    let head = concat_text("library/music/", id);
    let output = concat_text(head.as_str(), ".%(ext)s");
    proof {
        assert(output@ =~= download_output(id@));
    }
    let artwork = match data.get_str("artwork_data") {
        Some(t) => {
            if t.as_str().is_empty() {
                None
            } else {
                match picture_png(t.as_str()) {
                    Some(png) => {
                        let ih = concat_text("library/images/", id);
                        let path = concat_text(ih.as_str(), ".png");
                        proof {
                            assert(path@ =~= image_path(id@));
                        }
                        Some((path, png))
                    },
                    None => None,
                }
            }
        },
        None => None,
    };
    Ok(DownloadPlan { url, output, artwork })
}

/// The record stored for a downloaded song: what was sent, without `video_url` and
/// `artwork_data`, lyrics with normalized line endings, with the music path
/// `library/music/<id>.mp3` and its stream address, and the artwork path and address.
pub open spec fn downloaded_record(
    data: Map<Seq<char>, Json>,
    id: Seq<char>,
    music_url: Seq<char>,
    image: Seq<char>,
    image_url: Seq<char>,
) -> Map<Seq<char>, Json> {
    with_clean_lyric(data.remove("video_url"@).remove("artwork_data"@)).insert(
        "musicFilename"@,
        Json::Str(music_path(id, "mp3"@)),
    ).insert("streamUrl"@, Json::Str(music_url)).insert("imageFilename"@, Json::Str(image)).insert(
        "imageData"@,
        Json::Str(image_url),
    )
}

/// The artwork path of a downloaded song: its own when its file was written, else the
/// default.
pub open spec fn download_image(id: Seq<char>, artwork_written: bool) -> Seq<char> {
    if artwork_written {
        image_path(id)
    } else {
        default_image_path()
    }
}

/// Adds the record of a song downloaded under identifier `id` to the library (the second half
/// of `download_and_save_music`, once the download succeeded): `artwork_written` tells whether
/// its artwork file was written; `asset` gives the address of a stored file.
pub fn download_and_save_music<F: Fn(&str) -> String>(
    data: JsonObject,
    id: &str,
    artwork_written: bool,
    asset: F,
    db: &mut Vec<JsonObject>,
)
    requires
        path_callable(asset),
    ensures
        final(db)@.len() == old(db)@.len() + 1,
        views(final(db)@).take(old(db)@.len() as int) == views(old(db)@),
        exists|mu: Seq<char>, iu: Seq<char>|
            {
                &&& gives_for(asset, music_path(id@, "mp3"@), mu)
                &&& gives_for(asset, download_image(id@, artwork_written), iu)
                &&& final(db)@.last()@ == #[trigger] downloaded_record(
                    data@,
                    id@,
                    mu,
                    download_image(id@, artwork_written),
                    iu,
                )
            },
{
    let mut m = data;
    let ghost d = m@;
    m.remove("video_url");
    m.remove("artwork_data");
    clean_lyric(&mut m);
    let head = concat_text("library/music/", id);
    let music = concat_text(head.as_str(), ".mp3");
    proof {
        reveal_strlit(".mp3");
        reveal_strlit(".");
        reveal_strlit("mp3");
        assert(music@ =~= music_path(id@, "mp3"@));
    }
    let image = if artwork_written {
        let ih = concat_text("library/images/", id);
        concat_text(ih.as_str(), ".png")
    } else {
        "library/images/default.png".to_string()
    };
    proof {
        assert(image@ =~= download_image(id@, artwork_written));
    }
    let mu = call_for_path(&asset, music.as_str());
    let iu = call_for_path(&asset, image.as_str());
    set_text(&mut m, "musicFilename", music);
    set_text(&mut m, "streamUrl", mu);
    set_text(&mut m, "imageFilename", image);
    set_text(&mut m, "imageData", iu);
    let ghost before = db@;
    db.push(m);
    proof {
        assert(views(db@).take(before.len() as int) =~= views(before));
        assert(db@.last()@ == downloaded_record(d, id@, mu@, download_image(id@, artwork_written), iu@));
    }
}

/// The PNG bytes of a new default artwork sent as a data URL (`update_default_artwork`):
/// `None` exactly when the payload is no base64 text of a picture that can be laid on white
/// and written as PNG.
pub fn update_default_artwork(b64_data: &str) -> (r: Option<Vec<u8>>)
    ensures
        r is Some <==> holds_picture(b64_data@),
        r matches Some(p) ==> png_of_data_url(b64_data@, p@),
{
    picture_png(b64_data)
}

/// The artwork file of a song that goes when its artwork changes: its image path, unless it
/// is the shared default.
pub open spec fn replaced_image(song: SongView) -> Option<Seq<char>> {
    match str_field(song, "imageFilename"@) {
        Some(p) => if has_infix(p, "default.png"@) {
            None
        } else {
            Some(p)
        },
        None => None,
    }
}

/// The change an artwork edit makes.
pub enum ArtworkAction {
    /// Set the song's artwork to the path.
    SetPath(String),
    /// Write the PNG bytes to the path, then set the song's artwork to it.
    Write(String, Vec<u8>),
    /// The new artwork is unreadable: the edit fails.
    Fail,
    /// Nothing to set.
    Nothing,
}

/// An artwork edit of song `index`: the old file to delete first, then the change.
pub struct ArtworkUpdate {
    pub index: usize,
    pub old_file: Option<String>,
    pub action: ArtworkAction,
}

fn replaced_image_of(song: &JsonObject) -> (r: Option<String>)
    ensures
        opt_text(r) == replaced_image(song@),
{
    match song.get_str("imageFilename") {
        Some(p) => {
            if crate::text::contains(p.as_str(), "default.png") {
                None
            } else {
                Some(p.clone())
            }
        },
        None => None,
    }
}

/// The artwork edit of the first song whose music file is `music_filename`
/// (`update_song_artwork_by_id`), with `id` naming a new artwork file: `None` when there is no
/// such song. Its old artwork file goes unless it is the default; `remove` sets the default
/// artwork; else new artwork sent as a data URL is written as PNG laid on white to
/// `library/images/<id>.png` exactly when it holds such a picture (see `holds_picture`); else
/// the edit fails.
pub fn update_song_artwork_by_id(
    music_filename: &str,
    new_art_base64: Option<&str>,
    remove: bool,
    id: &str,
    db: &Vec<JsonObject>,
) -> (r: Option<ArtworkUpdate>)
    ensures
        r is None <==> !crate::library::has_file(views(db@), music_filename@),
        r matches Some(u) ==> {
            &&& crate::library::first_with_file(views(db@), music_filename@, u.index as int)
            &&& opt_text(u.old_file) == replaced_image(db@[u.index as int]@)
            &&& remove ==> (u.action matches ArtworkAction::SetPath(p) && p@ == default_image_path())
            &&& !remove && new_art_base64 is None ==> u.action is Nothing
            &&& !remove ==> (new_art_base64 matches Some(b) ==> (holds_picture(b@) ==> u.action is Write)
                && (!holds_picture(b@) ==> u.action is Fail))
            &&& u.action matches ArtworkAction::Write(p, png) ==> (!remove && p@ == image_path(id@)
                && (new_art_base64 matches Some(b) && png_of_data_url(b@, png@)))
        },
{
    let index = match crate::library::find_song(db, music_filename) {
        Some(i) => i,
        None => return None,
    };
    let old_file = replaced_image_of(&db[index]);
    let action = if remove {
        ArtworkAction::SetPath("library/images/default.png".to_string())
    } else {
        match new_art_base64 {
            Some(b) => match picture_png(b) {
                Some(png) => {
                    let ih = concat_text("library/images/", id);
                    let path = concat_text(ih.as_str(), ".png");
                    proof {
                        assert(path@ =~= image_path(id@));
                    }
                    ArtworkAction::Write(path, png)
                },
                None => ArtworkAction::Fail,
            },
            None => ArtworkAction::Nothing,
        }
    };
    Some(ArtworkUpdate { index, old_file, action })
}

/// Sets the artwork of song `i` to the path, with the address `asset` gives for it.
pub fn set_song_image<F: Fn(&str) -> String>(db: &mut Vec<JsonObject>, i: usize, rel: &str, asset: F)
    requires
        i < old(db)@.len(),
        path_callable(asset),
    ensures
        final(db)@.len() == old(db)@.len(),
        forall|j: int| 0 <= j < old(db)@.len() && j != i ==> #[trigger] final(db)@[j]@ == old(db)@[j]@,
        exists|u: Seq<char>|
            gives_for(asset, rel@, u) && #[trigger] final(db)@[i as int]@ == old(db)@[i as int]@.insert(
                "imageFilename"@,
                Json::Str(rel@),
            ).insert("imageData"@, Json::Str(u)),
{
    let u = call_for_path(&asset, rel);
    let ghost uv = u@;
    let mut song = db[i].copy();
    set_text(&mut song, "imageFilename", rel.to_string());
    set_text(&mut song, "imageData", u);
    let ghost old_db = db@;
    db.set(i, song);
    proof {
        assert(db@[i as int]@ == old_db[i as int]@.insert("imageFilename"@, Json::Str(rel@)).insert(
            "imageData"@,
            Json::Str(uv),
        ));
    }
}

} // verus!
