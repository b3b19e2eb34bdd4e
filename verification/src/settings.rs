//! Settings: the player keeps them in an INI file with sections `Database`, `Theme` and
//! `Tags`; custom themes are kept in a JSON object of their own.
use vstd::prelude::*;
use ini::Ini;
use crate::json::{JsonObject, JsonValue};
use crate::text::{
    i32_text, is_lower_ascii, join_texts, join_on, lemma_split_join, lowercase, parse_i32,
    parsed_i32, same_text, signed_decimal, split_on, split_text, texts, to_lowercase, trim,
    trimmed,
};
use crate::types::AppSettings;

verus! {

#[verifier::external_type_specification]
#[verifier::external_body]
pub struct ExIni(Ini);

/// What an INI document holds, as reading it gives it: for a section name and a key, the
/// first value of the key in the first section of that name. Names and keys are compared
/// exactly (the crate's `case-insensitive` feature is not enabled).
pub uninterp spec fn ini_values(conf: Ini) -> Map<(Seq<char>, Seq<char>), Seq<char>>;

/// `Ini::section(Some(section))` then `Properties::get(key)`: the first value of `key` in
/// the first section named `section`, if there is one.
#[verifier::external_body]
fn ini_get(conf: &Ini, section: &str, key: &str) -> (r: Option<String>)
    ensures
        r is Some == ini_values(*conf).contains_key((section@, key@)),
        r matches Some(v) ==> ini_values(*conf)[(section@, key@)] == v@,
{
    conf.section(Some(section)).and_then(|p| p.get(key)).map(|v| v.to_string())
}

/// `Ini::with_section(Some(section))` then `SectionSetter::set(key, value)`: in the first
/// section named `section` (added at the end when there is none), every value of `key` is
/// replaced by one value, `value`; the rest of the document stays as it was.
#[verifier::external_body]
fn ini_set(conf: &mut Ini, section: &str, key: &str, value: String)
    ensures
        ini_values(*final(conf)) == ini_values(*old(conf)).insert((section@, key@), value@),
{
    conf.with_section(Some(section)).set(key, value);
}

/// The text under `key` of `section`, or `default`.
pub open spec fn ini_text(
    m: Map<(Seq<char>, Seq<char>), Seq<char>>,
    section: Seq<char>,
    key: Seq<char>,
    default: Seq<char>,
) -> Seq<char> {
    if m.contains_key((section, key)) {
        m[(section, key)]
    } else {
        default
    }
}

/// A flag: whether the text, lower-cased, is `true` (text without upper-case letters is
/// compared as it is, lower-casing leaving it unchanged); `default` when there is none.
pub open spec fn ini_flag(
    m: Map<(Seq<char>, Seq<char>), Seq<char>>,
    section: Seq<char>,
    key: Seq<char>,
    default: bool,
) -> bool {
    if m.contains_key((section, key)) {
        if is_lower_ascii(m[(section, key)]) {
            m[(section, key)] == "true"@
        } else {
            lowercase(m[(section, key)]) == "true"@
        }
    } else {
        default
    }
}

/// A number: the text read as an `i32`; `default` when there is none or it is not a number.
pub open spec fn ini_number(
    m: Map<(Seq<char>, Seq<char>), Seq<char>>,
    section: Seq<char>,
    key: Seq<char>,
    default: i32,
) -> i32 {
    if m.contains_key((section, key)) {
        match parsed_i32(m[(section, key)]) {
            Some(n) => n,
            None => default,
        }
    } else {
        default
    }
}

/// A list of tags: the text split at commas, each piece trimmed.
pub open spec fn tag_list(t: Seq<char>) -> Seq<Seq<char>> {
    split_on(t, ',').map_values(|p: Seq<char>| trimmed(p))
}

fn text_setting(conf: &Ini, section: &str, key: &str, default: &str) -> (r: String)
    ensures
        r@ == ini_text(ini_values(*conf), section@, key@, default@),
{
    match ini_get(conf, section, key) {
        Some(v) => v,
        None => default.to_string(),
    }
}

fn flag_setting(conf: &Ini, section: &str, key: &str, default: bool) -> (r: bool)
    ensures
        r == ini_flag(ini_values(*conf), section@, key@, default),
{
    match ini_get(conf, section, key) {
        Some(v) => {
            let l = to_lowercase(v.as_str());
            same_text(l.as_str(), "true")
        },
        None => default,
    }
}

fn number_setting(conf: &Ini, section: &str, key: &str, default: i32) -> (r: i32)
    ensures
        r == ini_number(ini_values(*conf), section@, key@, default),
{
    match ini_get(conf, section, key) {
        Some(v) => match parse_i32(v.as_str()) {
            Some(n) => n,
            None => default,
        },
        None => default,
    }
}

/// Splits a comma-separated list of tags, trimming each.
pub fn tags_from_text(t: &str) -> (r: Vec<String>)
    ensures
        texts(r@) == tag_list(t@),
{
    let parts = split_text(t, ',');
    let mut r: Vec<String> = Vec::new();
    let mut i: usize = 0;
    while i < parts.len()
        invariant
            i <= parts@.len(),
            texts(r@) == tag_list(t@).take(i as int),
            texts(parts@) == split_on(t@, ','),
        decreases parts@.len() - i,
    {
        let p = trim(parts[i].as_str());
        let ghost b = r@;
        r.push(p);
        proof {
            assert(texts(parts@)[i as int] == parts@[i as int]@);
            assert(texts(r@) =~= texts(b).push(p@));
            assert(tag_list(t@).take(i + 1) =~= tag_list(t@).take(i as int).push(p@));
        }
        i = i + 1;
    }
    proof {
        assert(tag_list(t@).take(parts@.len() as int) =~= tag_list(t@));
    }
    r
}

/// The settings that an INI document gives (`get_app_settings`): each value from its
/// section, or its default when absent (numbers and flags also when unreadable);
/// `lazy_load_playlists` is always `false`.
pub fn get_app_settings(conf: &Ini) -> (r: AppSettings)
    ensures
        ({
            let m = ini_values(*conf);
            &&& r.items_per_page == ini_number(m, "Database"@, "items_per_page"@, 50)
            &&& r.open_player_new_window == ini_flag(m, "Database"@, "open_player_new_window"@, false)
            &&& r.open_manage_new_window == ini_flag(m, "Database"@, "open_manage_new_window"@, false)
            &&& r.developer_mode == ini_flag(m, "Database"@, "developer_mode"@, false)
            &&& !r.lazy_load_playlists
            &&& r.primary_color@ == ini_text(m, "Theme"@, "primary_color"@, "#4f46e5"@)
            &&& r.background_color@ == ini_text(m, "Theme"@, "background_color"@, "#f3f4f6"@)
            &&& r.sub_background_color@ == ini_text(m, "Theme"@, "sub_background_color"@, "#ffffff"@)
            &&& r.text_color@ == ini_text(m, "Theme"@, "text_color"@, "#1f2937"@)
            &&& r.theme_mode@ == ini_text(m, "Theme"@, "theme_mode"@, "light"@)
            &&& texts(r.active_tags@) == tag_list(
                ini_text(m, "Tags"@, "active_tags"@, "title,artist,album,genre,track"@),
            )
            &&& texts(r.player_visible_tags@) == tag_list(
                ini_text(m, "Tags"@, "player_visible_tags"@, "title,artist,album,track"@),
            )
        }),
{
    let active = text_setting(conf, "Tags", "active_tags", "title,artist,album,genre,track");
    let visible = text_setting(conf, "Tags", "player_visible_tags", "title,artist,album,track");
    AppSettings {
        items_per_page: number_setting(conf, "Database", "items_per_page", 50),
        open_player_new_window: flag_setting(conf, "Database", "open_player_new_window", false),
        open_manage_new_window: flag_setting(conf, "Database", "open_manage_new_window", false),
        developer_mode: flag_setting(conf, "Database", "developer_mode", false),
        lazy_load_playlists: false,
        primary_color: text_setting(conf, "Theme", "primary_color", "#4f46e5"),
        background_color: text_setting(conf, "Theme", "background_color", "#f3f4f6"),
        sub_background_color: text_setting(conf, "Theme", "sub_background_color", "#ffffff"),
        text_color: text_setting(conf, "Theme", "text_color", "#1f2937"),
        theme_mode: text_setting(conf, "Theme", "theme_mode", "light"),
        active_tags: tags_from_text(active.as_str()),
        player_visible_tags: tags_from_text(visible.as_str()),
    }
}

/// How a flag is written: `true` or `false`.
pub open spec fn flag_text(b: bool) -> Seq<char> {
    if b {
        "true"@
    } else {
        "false"@
    }
}

fn bool_text(b: bool) -> (r: String)
    ensures
        r@ == flag_text(b),
{
    if b {
        "true".to_string()
    } else {
        "false".to_string()
    }
}

/// What saving settings writes into an INI document.
pub open spec fn saved_values(
    m: Map<(Seq<char>, Seq<char>), Seq<char>>,
    s: AppSettings,
) -> Map<(Seq<char>, Seq<char>), Seq<char>> {
    m.insert(("Database"@, "items_per_page"@), signed_decimal(s.items_per_page as int)).insert(
        ("Database"@, "open_player_new_window"@),
        flag_text(s.open_player_new_window),
    ).insert(("Database"@, "open_manage_new_window"@), flag_text(s.open_manage_new_window)).insert(
        ("Database"@, "developer_mode"@),
        flag_text(s.developer_mode),
    ).insert(("Database"@, "lazy_load_playlists"@), flag_text(s.lazy_load_playlists)).insert(
        ("Theme"@, "primary_color"@),
        s.primary_color@,
    ).insert(("Theme"@, "background_color"@), s.background_color@).insert(
        ("Theme"@, "sub_background_color"@),
        s.sub_background_color@,
    ).insert(("Theme"@, "text_color"@), s.text_color@).insert(
        ("Theme"@, "theme_mode"@),
        s.theme_mode@,
    ).insert(("Tags"@, "active_tags"@), join_on(texts(s.active_tags@), ',')).insert(
        ("Tags"@, "player_visible_tags"@),
        join_on(texts(s.player_visible_tags@), ','),
    )
}

/// Writes settings into an INI document (`save_app_settings`): numbers and flags as text,
/// tag lists joined with commas; everything else in the document stays.
pub fn save_app_settings(conf: &mut Ini, settings: &AppSettings)
    ensures
        ini_values(*final(conf)) == saved_values(ini_values(*old(conf)), *settings),
{
    ini_set(conf, "Database", "items_per_page", i32_text(settings.items_per_page));
    ini_set(conf, "Database", "open_player_new_window", bool_text(settings.open_player_new_window));
    ini_set(conf, "Database", "open_manage_new_window", bool_text(settings.open_manage_new_window));
    ini_set(conf, "Database", "developer_mode", bool_text(settings.developer_mode));
    ini_set(conf, "Database", "lazy_load_playlists", bool_text(settings.lazy_load_playlists));
    ini_set(conf, "Theme", "primary_color", settings.primary_color.clone());
    ini_set(conf, "Theme", "background_color", settings.background_color.clone());
    ini_set(conf, "Theme", "sub_background_color", settings.sub_background_color.clone());
    ini_set(conf, "Theme", "text_color", settings.text_color.clone());
    ini_set(conf, "Theme", "theme_mode", settings.theme_mode.clone());
    ini_set(conf, "Tags", "active_tags", join_texts(&settings.active_tags, ','));
    ini_set(conf, "Tags", "player_visible_tags", join_texts(&settings.player_visible_tags, ','));
}

/// A tag list that reads back as it was written: at least one tag, each already trimmed and
/// free of commas.
pub open spec fn is_plain_tag_list(tags: Seq<Seq<char>>) -> bool {
    &&& tags.len() >= 1
    &&& forall|i: int| 0 <= i < tags.len() ==> trimmed(#[trigger] tags[i]) == tags[i]
    &&& forall|i: int| 0 <= i < tags.len() ==> !(#[trigger] tags[i]).contains(',')
}

proof fn lemma_tag_list_of_join(tags: Seq<Seq<char>>)
    requires
        is_plain_tag_list(tags),
    ensures
        tag_list(join_on(tags, ',')) == tags,
{
    lemma_split_join(tags, ',');
    assert(tag_list(join_on(tags, ',')) =~= tags);
}

/// Reading settings back after saving them gives what was saved: the page size, the flags,
/// the colors, the theme mode and the tag lists (when each list is a plain tag list), whatever
/// the document held before and whatever the defaults. `lazy_load_playlists` is written but
/// always read as `false`.
pub proof fn lemma_settings_round_trip(m: Map<(Seq<char>, Seq<char>), Seq<char>>, s: AppSettings)
    requires
        is_plain_tag_list(texts(s.active_tags@)),
        is_plain_tag_list(texts(s.player_visible_tags@)),
    ensures
        ({
            let w = saved_values(m, s);
            &&& forall|d: i32| ini_number(w, "Database"@, "items_per_page"@, d) == s.items_per_page
            &&& forall|d: bool| ini_flag(w, "Database"@, "open_player_new_window"@, d) == s.open_player_new_window
            &&& forall|d: bool| ini_flag(w, "Database"@, "open_manage_new_window"@, d) == s.open_manage_new_window
            &&& forall|d: bool| ini_flag(w, "Database"@, "developer_mode"@, d) == s.developer_mode
            &&& forall|d: Seq<char>| ini_text(w, "Theme"@, "primary_color"@, d) == s.primary_color@
            &&& forall|d: Seq<char>| ini_text(w, "Theme"@, "background_color"@, d) == s.background_color@
            &&& forall|d: Seq<char>| ini_text(w, "Theme"@, "sub_background_color"@, d) == s.sub_background_color@
            &&& forall|d: Seq<char>| ini_text(w, "Theme"@, "text_color"@, d) == s.text_color@
            &&& forall|d: Seq<char>| ini_text(w, "Theme"@, "theme_mode"@, d) == s.theme_mode@
            &&& forall|d: Seq<char>| tag_list(ini_text(w, "Tags"@, "active_tags"@, d)) == texts(s.active_tags@)
            &&& forall|d: Seq<char>|
                tag_list(ini_text(w, "Tags"@, "player_visible_tags"@, d)) == texts(s.player_visible_tags@)
        }),
{
    reveal_strlit("Database");
    reveal_strlit("Theme");
    reveal_strlit("Tags");
    reveal_strlit("items_per_page");
    reveal_strlit("open_player_new_window");
    reveal_strlit("open_manage_new_window");
    reveal_strlit("developer_mode");
    reveal_strlit("lazy_load_playlists");
    reveal_strlit("primary_color");
    reveal_strlit("background_color");
    reveal_strlit("sub_background_color");
    reveal_strlit("text_color");
    reveal_strlit("theme_mode");
    reveal_strlit("active_tags");
    reveal_strlit("player_visible_tags");
    reveal_strlit("true");
    reveal_strlit("false");
    crate::text::lemma_i32_text_parses(s.items_per_page);
    lemma_tag_list_of_join(texts(s.active_tags@));
    lemma_tag_list_of_join(texts(s.player_visible_tags@));
    assert("Database"@.len() == 8 && "Theme"@.len() == 5 && "Tags"@.len() == 4);
    assert("open_player_new_window"@ != "open_manage_new_window"@) by {
        assert("open_player_new_window"@[5] != "open_manage_new_window"@[5]);
    }
    assert("text_color"@ != "theme_mode"@) by {
        assert("text_color"@[1] != "theme_mode"@[1]);
    }
    assert("true"@.len() != "false"@.len());
    assert(is_lower_ascii("true"@) && is_lower_ascii("false"@));
    assert("items_per_page"@.len() == 14 && "developer_mode"@.len() == 14);
    assert("items_per_page"@[0] != "developer_mode"@[0]);
    assert("open_player_new_window"@.len() == 22 && "open_manage_new_window"@.len() == 22);
    assert("lazy_load_playlists"@.len() == 19 && "player_visible_tags"@.len() == 19);
    assert("primary_color"@.len() == 13 && "background_color"@.len() == 16);
    assert("sub_background_color"@.len() == 20 && "text_color"@.len() == 10);
    assert("theme_mode"@.len() == 10 && "active_tags"@.len() == 11);
    let w = saved_values(m, s);
    assert(w.contains_key(("Database"@, "items_per_page"@)));
    assert(w[("Database"@, "items_per_page"@)] == signed_decimal(s.items_per_page as int));
    assert(w[("Theme"@, "primary_color"@)] == s.primary_color@);
    assert(w[("Theme"@, "background_color"@)] == s.background_color@);
    assert(w[("Theme"@, "sub_background_color"@)] == s.sub_background_color@);
    assert(w[("Theme"@, "text_color"@)] == s.text_color@);
    assert(w[("Theme"@, "theme_mode"@)] == s.theme_mode@);
    assert(w[("Tags"@, "active_tags"@)] == join_on(texts(s.active_tags@), ','));
    assert(w[("Tags"@, "player_visible_tags"@)] == join_on(texts(s.player_visible_tags@), ','));
    assert(w[("Database"@, "open_player_new_window"@)] == flag_text(s.open_player_new_window));
    assert(w[("Database"@, "open_manage_new_window"@)] == flag_text(s.open_manage_new_window));
    assert(w[("Database"@, "developer_mode"@)] == flag_text(s.developer_mode));
}

// ---------------------------------------------------------------------------
// Custom themes
// ---------------------------------------------------------------------------

/// Stores theme `name` with its colors (`save_custom_theme`).
pub fn save_custom_theme(themes: &mut JsonObject, name: String, colors: JsonValue)
    ensures
        final(themes)@ == old(themes)@.insert(name@, colors@),
{
    themes.insert(name, colors);
}

/// Removes theme `name` (`delete_custom_theme`); `false`, and nothing changed, when there is
/// no such theme.
pub fn delete_custom_theme(themes: &mut JsonObject, name: &str) -> (r: bool)
    ensures
        r == old(themes)@.contains_key(name@),
        final(themes)@ == old(themes)@.remove(name@),
{
    themes.remove(name).is_some()
}

} // verus!
