use base64::Engine;
use id3::TagLike;
use chordia::media::{
    decode_data_url, extract_artwork_from_local_file, get_asset_url, get_duration_str,
    get_image_base64, normalize_thumbnail_url, png_data_url_of, png_on_white, square_artwork,
    short_total_duration, square_crop, strip_data_url, total_seconds,
};

fn rgba_png(w: u32, h: u32, alpha: u8) -> Vec<u8> {
    let img = image::RgbaImage::from_pixel(w, h, image::Rgba([10, 20, 30, alpha]));
    let mut buf = std::io::Cursor::new(Vec::new());
    image::DynamicImage::ImageRgba8(img).write_to(&mut buf, image::ImageFormat::Png).unwrap();
    buf.into_inner()
}

#[test]
fn data_url_payloads() {
    assert_eq!(strip_data_url("data:image/png;base64,AQID"), "AQID");
    assert_eq!(strip_data_url("a,b,c"), "b");
    assert_eq!(strip_data_url("AQID"), "AQID");
    assert_eq!(strip_data_url("x,"), "");
}

#[test]
fn base64_both_ways() {
    assert_eq!(png_data_url_of(&vec![1, 2, 3]), Some("data:image/png;base64,AQID".to_string()));
    assert_eq!(png_data_url_of(&vec![]), Some("data:image/png;base64,".to_string()));
    assert_eq!(decode_data_url("data:audio/mpeg;base64,AQID"), Ok(vec![1, 2, 3]));
    assert_eq!(decode_data_url("AQI="), Ok(vec![1, 2]));
    assert!(decode_data_url("data:x;base64,@@@@").is_err());
    assert!(decode_data_url("AQJ=").is_err());
    assert_eq!(get_image_base64("library/images/a.png", Some(vec![255])), "data:image/png;base64,/w==");
    assert_eq!(get_image_base64("", Some(vec![255])), "");
    assert_eq!(get_image_base64("library/images/a.png", None), "");
}

#[test]
fn asset_addresses() {
    assert_eq!(
        get_asset_url("library/images/a b.png", Some("/home/me/library/images/a b.png")),
        "http://asset.localhost/%2Fhome%2Fme%2Flibrary%2Fimages%2Fa%20b.png"
    );
    assert_eq!(get_asset_url("", Some("/x")), "");
    assert_eq!(get_asset_url("library/images/missing.png", None), "");
}

#[test]
fn play_times() {
    assert_eq!(get_duration_str(Some(125)), "2:05");
    assert_eq!(get_duration_str(Some(59)), "0:59");
    assert_eq!(get_duration_str(Some(600)), "10:00");
    assert_eq!(get_duration_str(Some(3601)), "60:01");
    assert_eq!(get_duration_str(None), "--:--");
}

#[test]
fn centered_squares() {
    assert_eq!(square_crop(10, 4), (3, 0, 4));
    assert_eq!(square_crop(4, 10), (0, 3, 4));
    assert_eq!(square_crop(5, 5), (0, 0, 5));
    assert_eq!(square_crop(7, 4), (1, 0, 4));
    assert_eq!(square_crop(0, 3), (0, 1, 0));
}

#[test]
fn pictures_laid_on_white() {
    let png = png_on_white(&rgba_png(6, 4, 128)).unwrap();
    let img = image::load_from_memory(&png).unwrap();
    assert_eq!((img.width(), img.height()), (6, 4));
    assert!(!img.color().has_alpha());
    let px = img.to_rgb8().get_pixel(0, 0).0;
    assert!(px[0] > 10 && px[0] < 255);
    assert!(png_on_white(&vec![1, 2, 3]).is_none());
}

#[test]
fn square_artwork_as_data_url() {
    let url = square_artwork(&rgba_png(6, 4, 255)).unwrap();
    assert!(url.starts_with("data:image/png;base64,"));
    let bytes = base64::engine::general_purpose::STANDARD
        .decode(&url["data:image/png;base64,".len()..])
        .unwrap();
    let img = image::load_from_memory(&bytes).unwrap();
    assert_eq!((img.width(), img.height()), (4, 4));
    assert!(square_artwork(&vec![0, 1, 2]).is_none());
}

#[test]
fn artwork_of_files_without_tags() {
    assert!(extract_artwork_from_local_file("data:audio/mpeg;base64,@@@").is_none());
    assert!(extract_artwork_from_local_file("data:audio/mpeg;base64,AQID").is_none());
}

#[test]
fn thumbnail_addresses() {
    assert_eq!(normalize_thumbnail_url("//i.ytimg.com/a.jpg"), "https://i.ytimg.com/a.jpg");
    assert_eq!(normalize_thumbnail_url("https://x/y"), "https://x/y");
    assert_eq!(normalize_thumbnail_url("/"), "/");
}

#[test]
fn decoded_text_is_the_text_of_the_bytes() {
    let engine = base64::engine::general_purpose::STANDARD;
    let inputs = [
        "", "=", "==", "A===", "AA==", "AB==", "AAA=", "AAB=", "A", "AA", "AAA", "AAAA====",
        " AAAA", "AA==AA==", "AQID", "/w==", "/x==", "////", "AQIDBA==", "AQIDBA=",
    ];
    for t in inputs {
        match decode_data_url(t) {
            Ok(b) => assert_eq!(engine.encode(&b), t),
            Err(_) => assert!(engine.decode(t).is_err()),
        }
    }
    for b in [vec![], vec![0u8], vec![1, 2], vec![255, 254, 253, 252]] {
        assert_eq!(decode_data_url(&engine.encode(&b)), Ok(b));
    }
}

#[test]
fn artwork_from_an_id3_tag() {
    let mut tag = id3::Tag::new();
    tag.add_frame(id3::frame::Picture {
        mime_type: "image/png".to_string(),
        picture_type: id3::frame::PictureType::CoverFront,
        description: String::new(),
        data: rgba_png(6, 4, 200),
    });
    let mut file: Vec<u8> = Vec::new();
    tag.write_to(&mut file, id3::Version::Id3v24).unwrap();
    file.extend_from_slice(&[0xff, 0xfb, 0x90, 0x00]);
    let payload = base64::engine::general_purpose::STANDARD.encode(&file);
    let url = extract_artwork_from_local_file(&format!("data:audio/mpeg;base64,{}", payload)).unwrap();
    let png = base64::engine::general_purpose::STANDARD
        .decode(&url["data:image/png;base64,".len()..])
        .unwrap();
    let img = image::load_from_memory(&png).unwrap();
    assert_eq!((img.width(), img.height()), (4, 4));
    assert!(img.to_rgba8().get_pixel(0, 0).0[3] >= 254);
}

#[test]
fn total_play_times() {
    assert_eq!(total_seconds(&vec![Some(30), None, Some(45)]), Some(75));
    assert_eq!(total_seconds(&vec![]), Some(0));
    assert_eq!(total_seconds(&vec![Some(u64::MAX), Some(1)]), None);
    assert_eq!(short_total_duration(0), Some("0秒".to_string()));
    assert_eq!(short_total_duration(59), Some("59秒".to_string()));
    assert_eq!(short_total_duration(60), Some("1分".to_string()));
    assert_eq!(short_total_duration(3599), Some("59分".to_string()));
    assert_eq!(short_total_duration(3600), None);
}

#[test]
fn the_square_is_the_centre_laid_on_white() {
    // 4 x 2: columns 0 and 3 red, columns 1 and 2 green, the green half transparent at (2, 1).
    let mut img = image::RgbaImage::from_pixel(4, 2, image::Rgba([255, 0, 0, 255]));
    for y in 0..2 {
        for x in 1..3 {
            img.put_pixel(x, y, image::Rgba([0, 255, 0, 255]));
        }
    }
    img.put_pixel(2, 1, image::Rgba([0, 0, 0, 0]));
    let mut buf = std::io::Cursor::new(Vec::new());
    image::DynamicImage::ImageRgba8(img).write_to(&mut buf, image::ImageFormat::Png).unwrap();
    let url = square_artwork(&buf.into_inner()).unwrap();
    let bytes = base64::engine::general_purpose::STANDARD
        .decode(&url["data:image/png;base64,".len()..])
        .unwrap();
    let sq = image::load_from_memory(&bytes).unwrap().to_rgba8();
    assert_eq!(sq.dimensions(), (2, 2));
    assert_eq!(sq.get_pixel(0, 0).0, [0, 255, 0, 255]);
    assert_eq!(sq.get_pixel(1, 0).0, [0, 255, 0, 255]);
    assert_eq!(sq.get_pixel(0, 1).0, [0, 255, 0, 255]);
    assert_eq!(sq.get_pixel(1, 1).0, [255, 255, 255, 255]);
}

#[test]
fn transparent_pixels_become_white() {
    let png = png_on_white(&rgba_png(3, 3, 0)).unwrap();
    let img = image::load_from_memory(&png).unwrap();
    assert!(!img.color().has_alpha());
    assert_eq!(img.to_rgb8().get_pixel(1, 1).0, [255, 255, 255]);
}
