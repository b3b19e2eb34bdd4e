//! Media: base64 payloads of data URLs, the addresses under which the web view reads library
//! files, artwork made square and laid on white, and play times as text.
use vstd::prelude::*;
use base64::engine::general_purpose::STANDARD;
use base64::DecodeError;
use base64::Engine;
use image::DynamicImage;
use crate::text::{concat_text, decimal, split_on, split_text, texts, u64_text};

verus! {

#[verifier::external_type_specification]
#[verifier::external_body]
pub struct ExDecodeError(DecodeError);

#[verifier::external_type_specification]
#[verifier::external_body]
pub struct ExDynamicImage(DynamicImage);

// ---------------------------------------------------------------------------
// Data URLs and base64
// ---------------------------------------------------------------------------

/// The payload of a data URL: the piece after its first comma (up to a second comma, if
/// any); text without a comma is taken whole (`if s.contains(',') { s.split(',').nth(1) }`).
pub open spec fn data_url_payload(s: Seq<char>) -> Seq<char> {
    if s.contains(',') {
        split_on(s, ',')[1]
    } else {
        s
    }
}

proof fn lemma_split_on_pieces(s: Seq<char>, sep: char)
    ensures
        split_on(s, sep).len() >= 1,
        s.contains(sep) <==> split_on(s, sep).len() >= 2,
    decreases s.len(),
{
    if s.len() > 0 {
        let t = s.drop_last();
        lemma_split_on_pieces(t, sep);
        if s.contains(sep) && s.last() != sep {
            let k = choose|k: int| 0 <= k < s.len() && s[k] == sep;
            assert(k < s.len() - 1 && t[k] == sep);
        }
        if t.contains(sep) {
            let k = choose|k: int| 0 <= k < t.len() && t[k] == sep;
            assert(s[k] == sep);
        }
        if s.last() == sep {
            assert(s[s.len() - 1] == sep);
        }
    }
}

/// The payload of a data URL (see `data_url_payload`).
pub fn strip_data_url(s: &str) -> (r: String)
    ensures
        r@ == data_url_payload(s@),
{
    proof {
        lemma_split_on_pieces(s@, ',');
    }
    let parts = split_text(s, ',');
    if parts.len() >= 2 {
        proof {
            assert(texts(parts@)[1] == parts@[1]@);
        }
        parts[1].clone()
    } else {
        s.to_string()
    }
}

/// The character of a 6-bit value in the standard base64 alphabet: `A`-`Z`, `a`-`z`, `0`-`9`,
/// `+`, `/`.
pub open spec fn base64_char(v: int) -> char {
    if v < 26 {
        (65 + v) as char
    } else if v < 52 {
        (97 + (v - 26)) as char
    } else if v < 62 {
        (48 + (v - 52)) as char
    } else if v == 62 {
        '+'
    } else {
        '/'
    }
}

/// The standard base64 text of `bytes` (RFC 4648), as `base64::engine::general_purpose::STANDARD`
/// writes it: each group of three bytes as four characters of six bits each, a last group of
/// one or two bytes filled with zero bits and padded with `=` to four characters.
pub open spec fn base64_standard(bytes: Seq<u8>) -> Seq<char>
    decreases bytes.len(),
{
    let n = bytes.len();
    let b0 = if n > 0 { bytes[0] as int } else { 0 };
    let b1 = if n > 1 { bytes[1] as int } else { 0 };
    let b2 = if n > 2 { bytes[2] as int } else { 0 };
    if n == 0 {
        Seq::empty()
    } else if n == 1 {
        seq![base64_char(b0 / 4), base64_char((b0 % 4) * 16), '=', '=']
    } else if n == 2 {
        seq![base64_char(b0 / 4), base64_char((b0 % 4) * 16 + b1 / 16), base64_char((b1 % 16) * 4), '=']
    } else {
        seq![
            base64_char(b0 / 4),
            base64_char((b0 % 4) * 16 + b1 / 16),
            base64_char((b1 % 16) * 4 + b2 / 64),
            base64_char(b2 % 64),
        ] + base64_standard(bytes.subrange(3, n as int))
    }
}

/// Whether base64 text of `n` bytes has a length that fits in a `usize` (every byte string
/// that fits in memory does).
pub open spec fn encodable_len(n: nat) -> bool {
    n / 3 * 4 + 4 <= usize::MAX
}

/// `STANDARD.encode(bytes)`: the standard base64 text of the bytes. It panics only when the
/// length of the text overflows a `usize`.
#[verifier::external_body]
fn base64_encode(bytes: &[u8]) -> (r: String)
    requires
        encodable_len(bytes@.len()),
    ensures
        r@ == base64_standard(bytes@),
{
    STANDARD.encode(bytes)
}

/// `STANDARD.decode(text)`. The standard engine requires canonical padding and zero trailing
/// bits, so it accepts exactly the texts that it writes: the bytes it gives are the only ones
/// whose text is `text`, and it fails only when no bytes have `text` as their text.
#[verifier::external_body]
fn base64_decode(text: &str) -> (r: Result<Vec<u8>, DecodeError>)
    ensures
        r matches Ok(b) ==> base64_standard(b@) == text@,
        r matches Ok(b) ==> forall|c: Seq<u8>| #[trigger] base64_standard(c) == text@ ==> c == b@,
        (exists|b: Seq<u8>| base64_standard(b) == text@) ==> r is Ok,
{
    STANDARD.decode(text)
}

/// `DecodeError::to_string`: the message of a decoding error. Nothing is stated of its text.
#[verifier::external_body]
fn decode_error_text(e: &DecodeError) -> String {
    e.to_string()
}

/// Whether `t` is the base64 text of some bytes.
pub open spec fn is_base64(t: Seq<char>) -> bool {
    exists|b: Seq<u8>| base64_standard(b) == t
}

/// The bytes of a data URL's payload (or of bare base64 text): `Ok` exactly when the payload
/// is base64 text, with the bytes whose text it is; else `Err` with the decoder's message.
pub fn decode_data_url(s: &str) -> (r: Result<Vec<u8>, String>)
    ensures
        r is Ok <==> is_base64(data_url_payload(s@)),
        r matches Ok(b) ==> base64_standard(b@) == data_url_payload(s@),
        r matches Ok(b) ==> forall|c: Seq<u8>| #[trigger] base64_standard(c) == data_url_payload(s@) ==> c == b@,
{
    let payload = strip_data_url(s);
    match base64_decode(payload.as_str()) {
        Ok(b) => Ok(b),
        Err(e) => Err(decode_error_text(&e)),
    }
}

/// The prefix of a PNG data URL.
pub open spec fn png_data_prefix() -> Seq<char> {
    "data:image/png;base64,"@
}

/// A PNG data URL holding `bytes`.
pub open spec fn png_data_url(bytes: Seq<u8>) -> Seq<char> {
    png_data_prefix() + base64_standard(bytes)
}

/// `format!("data:image/png;base64,{}", STANDARD.encode(bytes))`: `None` only for byte
/// strings whose base64 text would not fit in a `usize`.
pub fn png_data_url_of(bytes: &Vec<u8>) -> (r: Option<String>)
    ensures
        r is Some <==> encodable_len(bytes@.len()),
        r matches Some(t) ==> t@ == png_data_url(bytes@),
{
    if bytes.len() / 3 > (usize::MAX - 4) / 4 {
        return None;
    }
    let b = base64_encode(bytes.as_slice());
    Some(concat_text("data:image/png;base64,", b.as_str()))
}

/// The data URL of an image file of the library (`get_image_base64`): empty for an empty
/// path, or when the file could not be read (`bytes` is `None`); else a PNG data URL of its
/// bytes.
pub fn get_image_base64(rel_path: &str, bytes: Option<Vec<u8>>) -> (r: String)
    ensures
        rel_path@.len() == 0 || bytes is None ==> r@ == Seq::<char>::empty(),
        rel_path@.len() > 0 ==> (bytes matches Some(b) ==> (encodable_len(b@.len()) ==> r@ == png_data_url(b@))),
{
    if rel_path.is_empty() {
        return String::new();
    }
    match bytes {
        Some(b) => match png_data_url_of(&b) {
            Some(t) => t,
            None => String::new(),
        },
        None => String::new(),
    }
}

// ---------------------------------------------------------------------------
// Asset addresses
// ---------------------------------------------------------------------------

/// The UTF-8 bytes of a character.
pub open spec fn utf8_bytes(c: char) -> Seq<u8> {
    let u = c as int;
    if u < 0x80 {
        seq![u as u8]
    } else if u < 0x800 {
        seq![(0xC0 + u / 64) as u8, (0x80 + u % 64) as u8]
    } else if u < 0x10000 {
        seq![(0xE0 + u / 4096) as u8, (0x80 + (u / 64) % 64) as u8, (0x80 + u % 64) as u8]
    } else {
        seq![
            (0xF0 + u / 262144) as u8,
            (0x80 + (u / 4096) % 64) as u8,
            (0x80 + (u / 64) % 64) as u8,
            (0x80 + u % 64) as u8,
        ]
    }
}

/// The upper-case hexadecimal digit of a value below 16.
pub open spec fn hex_digit(d: int) -> char {
    if d < 10 {
        (48 + d) as char
    } else {
        (55 + d) as char
    }
}

/// The bytes that URL encoding keeps: ASCII letters, digits and `-`, `.`, `_`, `~`.
pub open spec fn url_safe(b: u8) -> bool {
    (48 <= b <= 57) || (65 <= b <= 90) || (97 <= b <= 122) || b == 45 || b == 46 || b == 95 || b == 126
}

/// Bytes URL-encoded: a kept byte as its character, any other as `%` and two upper-case
/// hexadecimal digits.
pub open spec fn url_encoded_bytes(b: Seq<u8>) -> Seq<char>
    decreases b.len(),
{
    if b.len() == 0 {
        Seq::empty()
    } else {
        let x = b.last();
        url_encoded_bytes(b.drop_last()) + if url_safe(x) {
            seq![x as char]
        } else {
            seq!['%', hex_digit(x as int / 16), hex_digit(x as int % 16)]
        }
    }
}

/// What `urlencoding::encode` gives: the UTF-8 bytes of the text URL-encoded.
pub open spec fn url_encoded(s: Seq<char>) -> Seq<char>
    decreases s.len(),
{
    if s.len() == 0 {
        Seq::empty()
    } else {
        url_encoded(s.drop_last()) + url_encoded_bytes(utf8_bytes(s.last()))
    }
}

/// `urlencoding::encode(s)`, as an owned string.
#[verifier::external_body]
pub(crate) fn url_encode(s: &str) -> (r: String)
    ensures
        r@ == url_encoded(s@),
{
    urlencoding::encode(s).into_owned()
}

/// `f` can be called on any path.
pub open spec fn path_callable<F: Fn(&str) -> String>(f: F) -> bool {
    forall|p: &str| #[trigger] call_requires(f, (p,))
}

/// `out` is what `f` gives for the path `rel`.
#[verifier::opaque]
pub open spec fn gives_for<F: Fn(&str) -> String>(f: F, rel: Seq<char>, out: Seq<char>) -> bool {
    exists|p: &str, u: String| p@ == rel && u@ == out && #[trigger] call_ensures(f, (p,), u)
}

/// What `f` gives for the path `rel`.
pub fn call_for_path<F: Fn(&str) -> String>(f: &F, rel: &str) -> (r: String)
    requires
        path_callable(*f),
    ensures
        gives_for(*f, rel@, r@),
{
    let r = f(rel);
    proof {
        reveal(gives_for);
    }
    r
}

/// The address under which the web view reads a library file (`get_asset_url`): empty for
/// an empty path or a file that is not there (`abs_path` is `None`); else
/// `http://asset.localhost/` followed by the absolute path, percent-encoded.
pub open spec fn asset_url(rel_path: Seq<char>, abs_path: Option<Seq<char>>) -> Seq<char> {
    if rel_path.len() == 0 {
        Seq::empty()
    } else {
        match abs_path {
            Some(a) => "http://asset.localhost/"@ + url_encoded(a),
            None => Seq::empty(),
        }
    }
}

/// The address under which the web view reads a library file (see `asset_url`).
pub fn get_asset_url(rel_path: &str, abs_path: Option<&str>) -> (r: String)
    ensures
        r@ == asset_url(rel_path@, match abs_path {
            Some(a) => Some(a@),
            None => None,
        }),
{
    if rel_path.is_empty() {
        return String::new();
    }
    match abs_path {
        Some(a) => {
            let e = url_encode(a);
            concat_text("http://asset.localhost/", e.as_str())
        },
        None => String::new(),
    }
}

// ---------------------------------------------------------------------------
// Play time
// ---------------------------------------------------------------------------

/// A number below 100 written with at least two digits (`{:02}`).
pub open spec fn two_digits(n: nat) -> Seq<char> {
    if n < 10 {
        seq!['0'] + decimal(n)
    } else {
        decimal(n)
    }
}

/// How a play time of `secs` seconds is shown: minutes, a colon and two digits of seconds;
/// `--:--` when the time is unknown.
pub open spec fn duration_text(secs: Option<u64>) -> Seq<char> {
    match secs {
        Some(s) => decimal((s / 60) as nat) + seq![':'] + two_digits((s % 60) as nat),
        None => "--:--"@,
    }
}

/// The play time of a song as text (`get_duration_str`), from its length in whole seconds
/// (`None` when the file could not be read as MP3).
pub fn get_duration_str(secs: Option<u64>) -> (r: String)
    ensures
        r@ == duration_text(secs),
{
    match secs {
        Some(s) => {
            let m = u64_text(s / 60);
            let sec = s % 60;
            let t = u64_text(sec);
            let tt = if sec < 10 {
                concat_text("0", t.as_str())
            } else {
                t
            };
            let head = concat_text(m.as_str(), ":");
            proof {
                reveal_strlit("0");
                reveal_strlit(":");
                assert(head@ =~= decimal((s / 60) as nat) + seq![':']);
                if sec < 10 {
                    assert(tt@ =~= seq!['0'] + decimal(sec as nat));
                }
            }
            concat_text(head.as_str(), tt.as_str())
        },
        None => "--:--".to_string(),
    }
}

/// The seconds of the songs whose play time is known, added up.
pub open spec fn known_seconds(secs: Seq<Option<u64>>) -> nat
    decreases secs.len(),
{
    if secs.len() == 0 {
        0
    } else {
        known_seconds(secs.drop_last()) + match secs.last() {
            Some(s) => s as nat,
            None => 0,
        }
    }
}

/// The total play time of a list in whole seconds: the known play times added up, `None` when
/// the sum does not fit in a `u64`.
pub fn total_seconds(secs: &Vec<Option<u64>>) -> (r: Option<u64>)
    ensures
        r is Some <==> known_seconds(secs@) <= u64::MAX,
        r matches Some(t) ==> t == known_seconds(secs@),
{
    let mut total: u64 = 0;
    let mut i: usize = 0;
    while i < secs.len()
        invariant
            i <= secs@.len(),
            total == known_seconds(secs@.take(i as int)),
        decreases secs@.len() - i,
    {
        proof {
            assert(secs@.take(i as int + 1).drop_last() =~= secs@.take(i as int));
        }
        match secs[i] {
            Some(s) => {
                if s > u64::MAX - total {
                    proof {
                        lemma_known_seconds_grow(secs@, i as int + 1);
                        assert(secs@.take(secs@.len() as int) =~= secs@);
                    }
                    return None;
                }
                total = total + s;
            },
            None => {},
        }
        i = i + 1;
    }
    proof {
        assert(secs@.take(i as int) =~= secs@);
    }
    Some(total)
}

/// Adding play times never lowers the total: the first `k` of them add up to at most all.
proof fn lemma_known_seconds_grow(secs: Seq<Option<u64>>, k: int)
    requires
        0 <= k <= secs.len(),
    ensures
        known_seconds(secs.take(k)) <= known_seconds(secs),
    decreases secs.len() - k,
{
    if k < secs.len() {
        lemma_known_seconds_grow(secs, k + 1);
        assert(secs.take(k + 1).drop_last() =~= secs.take(k));
    } else {
        assert(secs.take(k) =~= secs);
    }
}

/// The total play time of a list as text, for totals under an hour: the seconds and `秒`
/// under a minute, the whole minutes and `分` under an hour. From an hour on the text is the
/// hours to one decimal place, rounded as floating-point formatting rounds: none is given.
pub open spec fn short_total_text(total: u64) -> Option<Seq<char>> {
    if total < 60 {
        Some(decimal(total as nat) + "秒"@)
    } else if total < 3600 {
        Some(decimal((total / 60) as nat) + "分"@)
    } else {
        None
    }
}

/// The total play time of a list as text when it is under an hour (see `short_total_text`).
pub fn short_total_duration(total: u64) -> (r: Option<String>)
    ensures
        match r {
            Some(t) => short_total_text(total) == Some(t@),
            None => short_total_text(total) is None,
        },
{
    if total < 60 {
        let n = u64_text(total);
        let t = concat_text(n.as_str(), "秒");
        proof {
            reveal_strlit("秒");
        }
        Some(t)
    } else if total < 3600 {
        let n = u64_text(total / 60);
        let t = concat_text(n.as_str(), "分");
        proof {
            reveal_strlit("分");
        }
        Some(t)
    } else {
        None
    }
}

// ---------------------------------------------------------------------------
// Artwork
// ---------------------------------------------------------------------------

/// The largest centered square of a `w` by `h` picture: its left, its top and its side.
pub open spec fn square_of(w: u32, h: u32) -> (u32, u32, u32) {
    let s = if w <= h {
        w
    } else {
        h
    };
    (((w - s) / 2) as u32, ((h - s) / 2) as u32, s)
}

/// The largest centered square of a `w` by `h` picture (see `square_of`).
pub fn square_crop(w: u32, h: u32) -> (r: (u32, u32, u32))
    ensures
        r == square_of(w, h),
        r.0 + r.2 <= w,
        r.1 + r.2 <= h,
{
    let s = if w <= h {
        w
    } else {
        h
    };
    ((w - s) / 2, (h - s) / 2, s)
}

/// The picture that `image::load_from_memory` reads from the bytes: its width, its height,
/// whether its pixels carry transparency, and whether its channels have 8 bits (grey, grey
/// with alpha, RGB or RGBA of `u8`); `None` when the bytes hold no picture in a format the
/// crate reads.
pub uninterp spec fn decoded_picture(bytes: Seq<u8>) -> Option<(u32, u32, bool, bool)>;

/// How a picture held by the library was made from the bytes it was read from: the `image`
/// crate's operations that made it, with their arguments. Each of them gives a picture that
/// depends on its inputs alone, so this fixes the picture.
pub enum Look {
    /// `image::load_from_memory` of the bytes.
    Loaded(Seq<u8>),
    /// `crop_imm(x, y, w, h)` of a picture.
    Crop(Box<Look>, u32, u32, u32, u32),
    /// An RGBA canvas of `w` by `h` pixels of one color `(r, g, b, a)`.
    Canvas(u32, u32, u8, u8, u8, u8),
    /// `imageops::overlay(bottom, top, x, y)`: the second picture blended over the first, its
    /// top left corner at `(x, y)`.
    Overlay(Box<Look>, Box<Look>, i64, i64),
    /// `into_rgb8` of a picture: its colors without transparency, as 8-bit RGB.
    Rgb(Box<Look>),
}

/// A picture held by the `image` crate, with what the library reads of it: its width, its
/// height, whether its channels have 8 bits (grey, grey with alpha, RGB or RGBA of `u8`), and
/// how it was made. Only the wrappers below make one, each reading the first three from the
/// picture it holds and recording the operation that made it.
struct Picture {
    img: DynamicImage,
    width: u32,
    height: u32,
    eight_bit: bool,
    look: Ghost<Look>,
}

/// `image::load_from_memory(bytes)`, with the picture's `width()`, `height()`, whether its
/// `color()` is one of the 8-bit types `L8`, `La8`, `Rgb8`, `Rgba8`, and
/// `color().has_alpha()`.
#[verifier::external_body]
fn load_image(bytes: &[u8]) -> (r: Option<(Picture, bool)>)
    ensures
        r is None <==> decoded_picture(bytes@) is None,
        r matches Some((p, a)) ==> decoded_picture(bytes@) == Some((p.width, p.height, a, p.eight_bit))
            && p.look@ == Look::Loaded(bytes@),
{
    let img = image::load_from_memory(bytes).ok()?;
    let (width, height, alpha) = (img.width(), img.height(), img.color().has_alpha());
    let eight_bit = matches!(
        img.color(),
        image::ColorType::L8 | image::ColorType::La8 | image::ColorType::Rgb8 | image::ColorType::Rgba8
    );
    Some((Picture { img, width, height, eight_bit, look: Ghost(Look::Loaded(bytes@)) }, alpha))
}

/// `DynamicImage::crop_imm(x, y, w, h)`: the part of the picture in that rectangle (cut to the
/// picture, as `crop_dimms` does), of the picture's own color type. A rectangle inside the
/// picture gives a picture of its size.
#[verifier::external_body]
fn crop_image(p: &Picture, x: u32, y: u32, w: u32, h: u32) -> (r: Picture)
    ensures
        r.eight_bit == p.eight_bit,
        x + w <= p.width && y + h <= p.height ==> r.width == w && r.height == h,
        r.look@ == Look::Crop(Box::new(p.look@), x, y, w, h),
{
    let img = p.img.crop_imm(x, y, w, h);
    let (width, height) = (img.width(), img.height());
    let eight_bit = matches!(
        img.color(),
        image::ColorType::L8 | image::ColorType::La8 | image::ColorType::Rgb8 | image::ColorType::Rgba8
    );
    Picture { img, width, height, eight_bit, look: Ghost(Look::Crop(Box::new(p.look@), x, y, w, h)) }
}

/// Whether an RGBA canvas of `w` by `h` pixels fits in a vector.
pub open spec fn canvas_fits(w: u32, h: u32) -> bool {
    w as int * h as int * 4 <= isize::MAX
}

/// `RgbaImage::from_pixel(w, h, Rgba([r, g, b, a]))` as a `DynamicImage`: a canvas of `w` by
/// `h` pixels of that color, with 8-bit channels. It panics for canvases that do not fit in a
/// vector.
#[verifier::external_body]
fn rgba_canvas(w: u32, h: u32, red: u8, green: u8, blue: u8, alpha: u8) -> (r: Picture)
    requires
        canvas_fits(w, h),
    ensures
        r.width == w && r.height == h && r.eight_bit,
        r.look@ == Look::Canvas(w, h, red, green, blue, alpha),
{
    let img = DynamicImage::ImageRgba8(image::RgbaImage::from_pixel(w, h, image::Rgba([red, green, blue, alpha])));
    let (width, height) = (img.width(), img.height());
    Picture { img, width, height, eight_bit: true, look: Ghost(Look::Canvas(w, h, red, green, blue, alpha)) }
}

/// `image::imageops::overlay(bottom, top, x, y)`: `top` blended over `bottom` with its top left
/// corner at `(x, y)`; `bottom` keeps its size and color type.
#[verifier::external_body]
fn overlay(bottom: &mut Picture, top: &Picture, x: i64, y: i64)
    ensures
        final(bottom).width == old(bottom).width,
        final(bottom).height == old(bottom).height,
        final(bottom).eight_bit == old(bottom).eight_bit,
        final(bottom).look@ == Look::Overlay(Box::new(old(bottom).look@), Box::new(top.look@), x, y),
{
    image::imageops::overlay(&mut bottom.img, &top.img, x, y);
    bottom.look = Ghost(Look::Overlay(Box::new(bottom.look@), Box::new(top.look@), x, y));
}

/// The PNG bytes that `DynamicImage::write_to` with `ImageFormat::Png` writes for the picture
/// that a `Look` describes; `None` when the encoder refuses it.
pub uninterp spec fn encoded_png(look: Look) -> Option<Seq<u8>>;

/// `DynamicImage::write_to` with `ImageFormat::Png` into a byte buffer: the picture as PNG
/// bytes. The PNG encoder refuses a zero width or height and accepts every picture of 8-bit
/// channels; writing into a vector does not fail. The bytes, a vector, hold at most
/// `isize::MAX` of them, and they read back as a picture of the same width and height.
#[verifier::external_body]
fn png_bytes(p: &Picture) -> (r: Option<Vec<u8>>)
    ensures
        r is None <==> encoded_png(p.look@) is None,
        r matches Some(b) ==> encoded_png(p.look@) == Some(b@),
        r is Some ==> p.width > 0 && p.height > 0,
        p.width > 0 && p.height > 0 && p.eight_bit ==> r is Some,
        r matches Some(b) ==> b@.len() <= isize::MAX,
        r matches Some(b) ==> (decoded_picture(b@) matches Some((pw, ph, _, _)) ==> pw == p.width && ph
            == p.height),
{
    let mut buf = std::io::Cursor::new(Vec::new());
    match p.img.write_to(&mut buf, image::ImageFormat::Png) {
        Ok(()) => Some(buf.into_inner()),
        Err(_) => None,
    }
}

/// `DynamicImage::into_rgb8`, as a `DynamicImage`: the picture without transparency, of the same
/// size, with 8-bit channels.
#[verifier::external_body]
fn into_rgb(p: Picture) -> (r: Picture)
    ensures
        r.width == p.width && r.height == p.height && r.eight_bit,
        r.look@ == Look::Rgb(Box::new(p.look@)),
{
    let look = Ghost(Look::Rgb(Box::new(p.look@)));
    let img = DynamicImage::ImageRgb8(p.img.into_rgb8());
    let (width, height) = (img.width(), img.height());
    Picture { img, width, height, eight_bit: true, look }
}

fn canvas_fits_of(w: u32, h: u32) -> (r: bool)
    ensures
        r == canvas_fits(w, h),
{
    proof {
        assert(w as int * h as int <= 0xffff_ffff * 0xffff_ffff) by (nonlinear_arith)
            requires
                w <= 0xffff_ffff,
                h <= 0xffff_ffff,
        ;
    }
    let area: u64 = (w as u64) * (h as u64);
    let limit: u64 = (isize::MAX as u64) / 4;
    area <= limit
}

/// A picture laid on an opaque white canvas of `w` by `h` pixels, at its top left corner.
pub open spec fn on_white(w: u32, h: u32, top: Look) -> Look {
    Look::Overlay(Box::new(Look::Canvas(w, h, 255, 255, 255, 255)), Box::new(top), 0, 0)
}

/// How the picture that `force_save_as_png` writes is made from `bytes`: the loaded picture,
/// laid on a white canvas of its size when it has transparency, then as 8-bit RGB.
pub open spec fn white_look(bytes: Seq<u8>) -> Look {
    match decoded_picture(bytes) {
        Some((w, h, a, _)) => if a {
            Look::Rgb(Box::new(on_white(w, h, Look::Loaded(bytes))))
        } else {
            Look::Rgb(Box::new(Look::Loaded(bytes)))
        },
        None => Look::Loaded(bytes),
    }
}

/// How the artwork square is made from `bytes`: the largest centered square of the loaded
/// picture (see `square_of`), laid on a white canvas of its size when the picture has
/// transparency.
pub open spec fn square_look(bytes: Seq<u8>) -> Look {
    match decoded_picture(bytes) {
        Some((w, h, a, _)) => {
            let (x, y, s) = square_of(w, h);
            let sq = Look::Crop(Box::new(Look::Loaded(bytes)), x, y, s, s);
            if a {
                on_white(s, s, sq)
            } else {
                sq
            }
        },
        None => Look::Loaded(bytes),
    }
}

/// The smaller of two numbers.
pub open spec fn least(a: int, b: int) -> int {
    if a <= b {
        a
    } else {
        b
    }
}

/// The part of the loaded picture that a picture shows, as `(left, top, width, height)`: all of
/// it for the loaded picture; for a crop, the rectangle cut to the part it is taken from, as
/// `crop_dimms` cuts it; for a picture laid at `(0, 0)` on a canvas of its own size, its part;
/// the same part without transparency for `into_rgb8`; none for a canvas alone or for other
/// overlays.
pub open spec fn shown_part(look: Look) -> Option<(int, int, int, int)>
    decreases look,
{
    match look {
        Look::Loaded(b) => match decoded_picture(b) {
            Some((w, h, _, _)) => Some((0, 0, w as int, h as int)),
            None => None,
        },
        Look::Crop(inner, x, y, w, h) => match shown_part(*inner) {
            Some((l, t, iw, ih)) => {
                let cx = least(x as int, iw);
                let cy = least(y as int, ih);
                Some((l + cx, t + cy, least(w as int, iw - cx), least(h as int, ih - cy)))
            },
            None => None,
        },
        Look::Overlay(bottom, top, x, y) => match *bottom {
            Look::Canvas(cw, ch, _, _, _, _) => match shown_part(*top) {
                Some((l, t, w, h)) => if x == 0 && y == 0 && cw as int == w && ch as int == h {
                    Some((l, t, w, h))
                } else {
                    None
                },
                None => None,
            },
            _ => None,
        },
        Look::Rgb(inner) => shown_part(*inner),
        Look::Canvas(_, _, _, _, _, _) => None,
    }
}

/// The color of the canvas a picture's part is laid on; none when it is not laid on one.
pub open spec fn backdrop(look: Look) -> Option<(u8, u8, u8, u8)>
    decreases look,
{
    match look {
        Look::Overlay(bottom, _, _, _) => match *bottom {
            Look::Canvas(_, _, r, g, b, a) => Some((r, g, b, a)),
            _ => None,
        },
        Look::Crop(inner, _, _, _, _) => backdrop(*inner),
        Look::Rgb(inner) => backdrop(*inner),
        _ => None,
    }
}

/// The artwork square shows the largest centered square of the loaded picture, laid on
/// opaque white exactly when the picture has transparency.
pub proof fn lemma_square_look(bytes: Seq<u8>)
    requires
        decoded_picture(bytes) is Some,
    ensures
        ({
            let (w, h, a, _) = decoded_picture(bytes)->0;
            let (x, y, s) = square_of(w, h);
            &&& shown_part(square_look(bytes)) == Some((x as int, y as int, s as int, s as int))
            &&& backdrop(square_look(bytes)) == if a {
                Some((255u8, 255u8, 255u8, 255u8))
            } else {
                None
            }
        }),
{
    let (w, h, a, _) = decoded_picture(bytes)->0;
    let (x, y, s) = square_of(w, h);
    let sq = Look::Crop(Box::new(Look::Loaded(bytes)), x, y, s, s);
    assert(shown_part(Look::Loaded(bytes)) == Some((0int, 0int, w as int, h as int)));
    assert(shown_part(sq) == Some((x as int, y as int, s as int, s as int)));
    assert(backdrop(Look::Loaded(bytes)) == None::<(u8, u8, u8, u8)>);
    assert(backdrop(sq) == None::<(u8, u8, u8, u8)>);
    if a {
        assert(shown_part(on_white(s, s, sq)) == Some((x as int, y as int, s as int, s as int)));
    }
}

/// The picture `force_save_as_png` writes shows all of the loaded picture, without
/// transparency, laid on opaque white exactly when the picture has transparency.
pub proof fn lemma_white_look(bytes: Seq<u8>)
    requires
        decoded_picture(bytes) is Some,
    ensures
        ({
            let (w, h, a, _) = decoded_picture(bytes)->0;
            &&& white_look(bytes) is Rgb
            &&& shown_part(white_look(bytes)) == Some((0int, 0int, w as int, h as int))
            &&& backdrop(white_look(bytes)) == if a {
                Some((255u8, 255u8, 255u8, 255u8))
            } else {
                None
            }
        }),
{
    let (w, h, a, _) = decoded_picture(bytes)->0;
    assert(shown_part(Look::Loaded(bytes)) == Some((0int, 0int, w as int, h as int)));
    assert(backdrop(Look::Loaded(bytes)) == None::<(u8, u8, u8, u8)>);
    if a {
        let o = on_white(w, h, Look::Loaded(bytes));
        assert(shown_part(o) == Some((0int, 0int, w as int, h as int)));
        assert(backdrop(o) == Some((255u8, 255u8, 255u8, 255u8)));
    }
}

/// A decoded picture that can be laid on white at its own size and written as PNG: a width
/// and a height above zero, and, when it carries transparency, a white canvas of its size that
/// fits in a vector.
pub open spec fn white_ready(d: Option<(u32, u32, bool, bool)>) -> bool {
    match d {
        Some((w, h, a, _)) => w > 0 && h > 0 && (a ==> canvas_fits(w, h)),
        None => false,
    }
}

/// A decoded picture whose largest centered square can be laid on white: a square side above
/// zero, and, when it carries transparency, a white canvas of the square's size that fits in a
/// vector.
pub open spec fn square_possible(d: Option<(u32, u32, bool, bool)>) -> bool {
    match d {
        Some((w, h, a, _)) => square_of(w, h).2 > 0 && (a ==> canvas_fits(square_of(w, h).2, square_of(w, h).2)),
        None => false,
    }
}

/// A decoded picture whose largest centered square is sure to be written as PNG: it can be laid
/// on white, and its channels have 8 bits or it carries transparency (the white canvas has
/// 8-bit channels).
pub open spec fn square_ready(d: Option<(u32, u32, bool, bool)>) -> bool {
    match d {
        Some((w, h, a, e)) => square_possible(d) && (a || e),
        None => false,
    }
}

/// PNG bytes that, when they read as a picture, read as one of `w` by `h` pixels.
pub open spec fn reads_as_size(png: Seq<u8>, w: u32, h: u32) -> bool {
    match decoded_picture(png) {
        Some((pw, ph, _, _)) => pw == w && ph == h,
        None => true,
    }
}

/// PNG bytes of the size of the largest centered square of the picture that `bytes` hold.
pub open spec fn square_png(bytes: Seq<u8>, png: Seq<u8>) -> bool {
    match decoded_picture(bytes) {
        Some((w, h, _, _)) => reads_as_size(png, square_of(w, h).2, square_of(w, h).2),
        None => false,
    }
}

/// `t` is the PNG data URL of the artwork square made from `bytes` (see `square_look`), which
/// reads as a picture of the square's size.
pub open spec fn square_data_url(t: Seq<char>, bytes: Seq<u8>) -> bool {
    &&& encoded_png(square_look(bytes)) matches Some(png)
    &&& t == png_data_url(png)
    &&& square_png(bytes, png)
}

proof fn lemma_vector_encodable(n: nat)
    requires
        n <= isize::MAX,
    ensures
        encodable_len(n),
{
    assert(isize::MAX as int * 2 + 1 == usize::MAX as int);
    assert(n / 3 * 4 <= n * 4 / 3) by (nonlinear_arith);
}

/// The PNG bytes that `force_save_as_png` writes: the picture that `bytes` hold, laid on
/// white when it has transparency, as RGB PNG of the picture's size (the PNG of
/// `white_look(bytes)`; see `lemma_white_look`). `None` exactly when the
/// bytes hold no picture, the picture has no pixels, or a white canvas of its size does not
/// fit in a vector (then nothing is written).
pub fn png_on_white(bytes: &Vec<u8>) -> (r: Option<Vec<u8>>)
    ensures
        r is Some <==> white_ready(decoded_picture(bytes@)),
        r matches Some(p) ==> encoded_png(white_look(bytes@)) == Some(p@),
        r matches Some(p) ==> (decoded_picture(bytes@) matches Some((w, h, _, _)) && reads_as_size(
            p@,
            w,
            h,
        )),
{
    let (img, alpha) = match load_image(bytes.as_slice()) {
        Some(t) => t,
        None => return None,
    };
    let flat = if alpha {
        if !canvas_fits_of(img.width, img.height) {
            return None;
        }
        let mut bg = rgba_canvas(img.width, img.height, 255, 255, 255, 255);
        overlay(&mut bg, &img, 0, 0);
        bg
    } else {
        img
    };
    let rgb = into_rgb(flat);
    png_bytes(&rgb)
}

/// The largest centered square of the picture that `bytes` hold, laid on white when it has
/// transparency, as a PNG data URL (the artwork step of `fetch_and_crop_thumbnail` and
/// `extract_artwork_from_local_file`): the PNG of `square_look(bytes)`, which shows the part
/// `lemma_square_look` gives. The square keeps the picture's color type. `None` when
/// the bytes hold no picture, the square has no pixels, or a white canvas of its size does not
/// fit in a vector; a square of 8-bit channels, or laid on white, is always written.
pub fn square_artwork(bytes: &Vec<u8>) -> (r: Option<String>)
    ensures
        r is Some ==> square_possible(decoded_picture(bytes@)),
        square_ready(decoded_picture(bytes@)) ==> r is Some,
        square_possible(decoded_picture(bytes@)) ==> (r is Some <==> encoded_png(square_look(bytes@)) is Some),
        r matches Some(t) ==> square_data_url(t@, bytes@),
{
    let (img, alpha) = match load_image(bytes.as_slice()) {
        Some(t) => t,
        None => return None,
    };
    let (x, y, s) = square_crop(img.width, img.height);
    let mut sq = crop_image(&img, x, y, s, s);
    if alpha {
        if !canvas_fits_of(s, s) {
            return None;
        }
        let mut bg = rgba_canvas(s, s, 255, 255, 255, 255);
        overlay(&mut bg, &sq, 0, 0);
        sq = bg;
    }
    let png = match png_bytes(&sq) {
        Some(p) => p,
        None => return None,
    };
    proof {
        lemma_vector_encodable(png@.len());
    }
    let r = png_data_url_of(&png);
    proof {
        assert(r->0@ == png_data_url(png@));
        assert(square_png(bytes@, png@));
    }
    r
}

/// The first picture of an ID3 tag: `None` when the bytes hold no readable tag, or a tag
/// without pictures.
pub uninterp spec fn id3_first_picture(bytes: Seq<u8>) -> Option<Seq<u8>>;

/// `id3::Tag::read_from2` on the bytes, then the data of the first of `Tag::pictures`.
#[verifier::external_body]
fn first_id3_picture(bytes: &[u8]) -> (r: Option<Vec<u8>>)
    ensures
        r is None <==> id3_first_picture(bytes@) is None,
        r matches Some(p) ==> id3_first_picture(bytes@) == Some(p@),
{
    let tag = id3::Tag::read_from2(std::io::Cursor::new(bytes)).ok()?;
    let first = tag.pictures().next().map(|p| p.data.clone());
    first
}

/// The payload of `s` is the base64 text of bytes whose ID3 tag's first picture is `pic`.
pub open spec fn tag_picture(s: Seq<char>, pic: Seq<u8>) -> bool {
    exists|b: Seq<u8>| base64_standard(b) == data_url_payload(s) && #[trigger] id3_first_picture(b) == Some(pic)
}

/// The artwork of a music file sent as a data URL (`extract_artwork_from_local_file`): the
/// first picture of its ID3 tag made square (see `square_artwork`). `None` when the payload is
/// not base64, the file has no tag picture, or the picture cannot be made square.
pub fn extract_artwork_from_local_file(b64_music: &str) -> (r: Option<String>)
    ensures
        r matches Some(t) ==> exists|pic: Seq<u8>|
            tag_picture(b64_music@, pic) && square_possible(decoded_picture(pic)) && #[trigger] square_data_url(
                t@,
                pic,
            ),
        (exists|pic: Seq<u8>| tag_picture(b64_music@, pic) && #[trigger] square_ready(decoded_picture(pic)))
            ==> r is Some,
{
    let bytes = match decode_data_url(b64_music) {
        Ok(b) => b,
        Err(_) => return None,
    };
    let pic = match first_id3_picture(bytes.as_slice()) {
        Some(p) => p,
        None => {
            proof {
                assert forall|p: Seq<u8>| !tag_picture(b64_music@, p) by {
                    if tag_picture(b64_music@, p) {
                        let b = choose|b: Seq<u8>|
                            base64_standard(b) == data_url_payload(b64_music@) && #[trigger] id3_first_picture(b)
                                == Some(p);
                        assert(b == bytes@);
                    }
                }
            }
            return None;
        },
    };
    proof {
        assert(tag_picture(b64_music@, pic@));
        assert forall|p: Seq<u8>| tag_picture(b64_music@, p) implies p == pic@ by {
            let b = choose|b: Seq<u8>|
                base64_standard(b) == data_url_payload(b64_music@) && #[trigger] id3_first_picture(b) == Some(p);
            assert(b == bytes@);
        }
    }
    let r = square_artwork(&pic);
    proof {
        if r is Some {
            assert(square_data_url(r->0@, pic@));
        }
    }
    r
}

/// The address a thumbnail is fetched from: a scheme-relative `//host/...` gets `https:`.
pub open spec fn thumbnail_url(url: Seq<char>) -> Seq<char> {
    if url.len() >= 2 && url[0] == '/' && url[1] == '/' {
        "https:"@ + url
    } else {
        url
    }
}

/// The address a thumbnail is fetched from (see `thumbnail_url`).
pub fn normalize_thumbnail_url(url: &str) -> (r: String)
    ensures
        r@ == thumbnail_url(url@),
{
    proof {
        reveal_strlit("//");
    }
    if crate::text::starts_with(url, "//") {
        proof {
            assert(url@.take(2) == "//"@);
            assert(url@[0] == url@.take(2)[0]);
            assert(url@[1] == url@.take(2)[1]);
        }
        concat_text("https:", url)
    } else {
        proof {
            if url@.len() >= 2 && url@[0] == '/' && url@[1] == '/' {
                assert(url@.take(2) =~= "//"@);
            }
        }
        url.to_string()
    }
}

} // verus!
