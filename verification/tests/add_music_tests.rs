use chordia::add_music::{
    check_duplicate_songs, download_and_save_music, download_plan, get_available_tags,
    music_upload_plan, save_music_data, set_song_image, update_default_artwork,
    update_song_artwork_by_id, ArtworkAction, ArtworkUpload,
};
use chordia::json::{JsonObject, JsonValue};

fn s(t: &str) -> JsonValue {
    JsonValue::Str(t.to_string())
}

fn obj(pairs: &[(&str, &str)]) -> JsonObject {
    let mut o = JsonObject::new();
    for (k, v) in pairs {
        o.insert(k.to_string(), s(v));
    }
    o
}

fn asset(p: &str) -> String {
    format!("asset://{}", p)
}

fn png_data_url() -> String {
    let img = image::RgbaImage::from_pixel(3, 2, image::Rgba([1, 2, 3, 255]));
    let mut buf = std::io::Cursor::new(Vec::new());
    image::DynamicImage::ImageRgba8(img).write_to(&mut buf, image::ImageFormat::Png).unwrap();
    chordia::media::png_data_url_of(&buf.into_inner()).unwrap()
}

#[test]
fn the_tag_list() {
    let tags = get_available_tags();
    assert_eq!(tags.len(), 11);
    assert_eq!(tags[0].key, "title");
    assert_eq!(tags[0].label, "タイトル");
    assert_eq!(tags[5].key, "year");
    assert_eq!(tags[5].label, "年/日付");
    assert_eq!(tags[7].label, "ディスクNo");
    assert_eq!(tags[10].key, "comment");
}

#[test]
fn duplicates_by_title_and_artist() {
    let db = vec![
        obj(&[("title", " Hello "), ("artist", "WORLD"), ("album", "A"), ("musicFilename", "library/music/h.mp3"), ("imageFilename", "library/images/h.png")]),
        obj(&[("title", "hello"), ("artist", "someone"), ("musicFilename", "library/music/x.mp3")]),
        obj(&[("title", "HELLO"), ("artist", "world ")]),
    ];
    let d = check_duplicate_songs("hello", " world", &db, asset);
    assert_eq!(d.len(), 2);
    assert_eq!(d[0].title, " Hello ");
    assert_eq!(d[0].album, "A");
    assert_eq!(d[0].filename, "h.mp3");
    assert_eq!(d[0].image_data, "asset://library/images/h.png");
    assert_eq!(d[1].filename, "");
    assert_eq!(d[1].image_data, "asset://");
    assert!(check_duplicate_songs("  ", "world", &db, asset).is_empty());
    assert!(check_duplicate_songs("hello", "", &db, asset).is_empty());
}

#[test]
fn uploads_plan_their_files() {
    let data = obj(&[("music_data", "data:audio/mpeg;base64,AQID"), ("music_name", "song.flac"), ("title", "T")]);
    let plan = music_upload_plan(&data, "ID").unwrap();
    let (path, bytes) = plan.music.unwrap();
    assert_eq!(path, "library/music/ID.flac");
    assert_eq!(bytes, vec![1, 2, 3]);
    assert!(matches!(plan.artwork, ArtworkUpload::Absent));
    let no_name = obj(&[("music_data", "AQID")]);
    assert_eq!(music_upload_plan(&no_name, "ID").unwrap().music.unwrap().0, "library/music/ID.mp3");
    assert!(music_upload_plan(&obj(&[("music_data", "!!")]), "ID").is_err());
    let art_url = png_data_url();
    let art = obj(&[("artwork_data", art_url.as_str())]);
    match music_upload_plan(&art, "ID").unwrap().artwork {
        ArtworkUpload::Png(p, png) => {
            assert_eq!(p, "library/images/ID.png");
            assert!(image::load_from_memory(&png).is_ok());
        }
        _ => panic!("artwork expected"),
    }
    let bad_art = obj(&[("artwork_data", "not base64")]);
    assert!(matches!(music_upload_plan(&bad_art, "ID").unwrap().artwork, ArtworkUpload::Unreadable));
}

#[test]
fn uploaded_record() {
    let data = obj(&[
        ("music_data", "AQID"),
        ("music_name", "a.mp3"),
        ("artwork_type", "png"),
        ("lyric", "a\r\nb"),
        ("title", "T"),
    ]);
    let mut db: Vec<JsonObject> = Vec::new();
    save_music_data(data, Some("library/music/ID.mp3".to_string()), &ArtworkUpload::Absent, false, asset, &mut db);
    assert_eq!(db.len(), 1);
    assert_eq!(
        JsonValue::Object(db[0].copy()).to_text(),
        "{\"imageData\":\"asset://library/images/default.png\",\"imageFilename\":\"library/images/default.png\",\"lyric\":\"a\\nb\",\"musicFilename\":\"library/music/ID.mp3\",\"streamUrl\":\"asset://library/music/ID.mp3\",\"title\":\"T\"}"
    );
    let art = ArtworkUpload::Png("library/images/ID.png".to_string(), vec![]);
    save_music_data(obj(&[("title", "U")]), None, &art, true, asset, &mut db);
    assert_eq!(db[1].text_or_empty("imageFilename"), "library/images/ID.png");
    save_music_data(obj(&[("title", "V")]), None, &art, false, asset, &mut db);
    assert!(!db[2].contains_key("imageFilename"));
    assert!(!db[2].contains_key("musicFilename"));
}

#[test]
fn downloads() {
    assert_eq!(download_plan(&obj(&[("title", "x")]), "ID").err(), Some("No URL".to_string()));
    let data = obj(&[("video_url", "https://v/1"), ("artwork_data", "")]);
    let plan = download_plan(&data, "ID").unwrap();
    assert_eq!(plan.url, "https://v/1");
    assert_eq!(plan.output, "library/music/ID.%(ext)s");
    assert!(plan.artwork.is_none());
    let art_url = png_data_url();
    let with_art = obj(&[("video_url", "u"), ("artwork_data", art_url.as_str())]);
    assert_eq!(download_plan(&with_art, "ID").unwrap().artwork.unwrap().0, "library/images/ID.png");
    let mut db: Vec<JsonObject> = Vec::new();
    let rec = obj(&[("video_url", "u"), ("artwork_data", "x"), ("title", "T"), ("lyric", "1\r2")]);
    download_and_save_music(rec, "ID", false, asset, &mut db);
    assert_eq!(
        JsonValue::Object(db[0].copy()).to_text(),
        "{\"imageData\":\"asset://library/images/default.png\",\"imageFilename\":\"library/images/default.png\",\"lyric\":\"1\\n2\",\"musicFilename\":\"library/music/ID.mp3\",\"streamUrl\":\"asset://library/music/ID.mp3\",\"title\":\"T\"}"
    );
    download_and_save_music(obj(&[("video_url", "u")]), "ID2", true, asset, &mut db);
    assert_eq!(db[1].text_or_empty("imageFilename"), "library/images/ID2.png");
}

#[test]
fn artwork_edits() {
    let mut db = vec![
        obj(&[("musicFilename", "m/a.mp3"), ("imageFilename", "library/images/old.png")]),
        obj(&[("musicFilename", "m/b.mp3"), ("imageFilename", "library/images/default.png")]),
    ];
    assert!(update_song_artwork_by_id("m/zz.mp3", None, true, "ID", &db).is_none());
    let u = update_song_artwork_by_id("m/a.mp3", None, true, "ID", &db).unwrap();
    assert_eq!(u.index, 0);
    assert_eq!(u.old_file, Some("library/images/old.png".to_string()));
    assert!(matches!(u.action, ArtworkAction::SetPath(ref p) if p == "library/images/default.png"));
    let v = update_song_artwork_by_id("m/b.mp3", Some("%%%"), false, "ID", &db).unwrap();
    assert_eq!(v.old_file, None);
    assert!(matches!(v.action, ArtworkAction::Fail));
    let w = update_song_artwork_by_id("m/b.mp3", None, false, "ID", &db).unwrap();
    assert!(matches!(w.action, ArtworkAction::Nothing));
    let url = png_data_url();
    let x = update_song_artwork_by_id("m/b.mp3", Some(&url), false, "ID", &db).unwrap();
    assert!(matches!(x.action, ArtworkAction::Write(ref p, _) if p == "library/images/ID.png"));
    set_song_image(&mut db, 1, "library/images/ID.png", asset);
    assert_eq!(db[1].text_or_empty("imageFilename"), "library/images/ID.png");
    assert_eq!(db[1].text_or_empty("imageData"), "asset://library/images/ID.png");
    assert_eq!(db[0].text_or_empty("imageFilename"), "library/images/old.png");
}

#[test]
fn default_artwork() {
    assert!(update_default_artwork("not base64").is_none());
    assert!(update_default_artwork("AQID").is_none());
    let png = update_default_artwork(&png_data_url()).unwrap();
    assert!(image::load_from_memory(&png).is_ok());
}

#[test]
fn upload_extensions_follow_the_sent_name() {
    let ext_of = |name: &str| {
        let data = obj(&[("music_data", "AQID"), ("music_name", name)]);
        music_upload_plan(&data, "ID").unwrap().music.unwrap().0
    };
    assert_eq!(ext_of("a.b.ogg"), "library/music/ID.ogg");
    assert_eq!(ext_of(".hidden"), "library/music/ID.mp3");
    assert_eq!(ext_of("noext"), "library/music/ID.mp3");
    assert_eq!(ext_of("dir/track.wav"), "library/music/ID.wav");
}

#[test]
fn artwork_that_is_no_picture_fails() {
    let db = vec![obj(&[("musicFilename", "m/a.mp3"), ("imageFilename", "library/images/old.png")])];
    let u = update_song_artwork_by_id("m/a.mp3", Some("data:image/png;base64,AQID"), false, "ID", &db).unwrap();
    assert!(matches!(u.action, ArtworkAction::Fail));
    let bad = obj(&[("video_url", "u"), ("artwork_data", "AQID")]);
    assert!(download_plan(&bad, "ID").unwrap().artwork.is_none());
    let up = obj(&[("artwork_data", "AQID")]);
    assert!(matches!(music_upload_plan(&up, "ID").unwrap().artwork, ArtworkUpload::Unreadable));
}

#[test]
fn stored_artwork_keeps_the_picture_size() {
    let png = update_default_artwork(&png_data_url()).unwrap();
    let img = image::load_from_memory(&png).unwrap();
    assert_eq!((img.width(), img.height()), (3, 2));
    let db = vec![obj(&[("musicFilename", "m/a.mp3")])];
    let u = update_song_artwork_by_id("m/a.mp3", Some(&png_data_url()), false, "ID", &db).unwrap();
    match u.action {
        ArtworkAction::Write(_, bytes) => {
            let img = image::load_from_memory(&bytes).unwrap();
            assert_eq!((img.width(), img.height()), (3, 2));
        }
        _ => panic!("write expected"),
    }
}
