use chordia::json::{JsonObject, JsonValue};
use chordia::settings::{
    delete_custom_theme, get_app_settings, save_app_settings, save_custom_theme, tags_from_text,
};
use chordia::types::AppSettings;
use ini::Ini;

#[test]
fn defaults_for_an_empty_file() {
    let conf = Ini::new();
    let s = get_app_settings(&conf);
    assert_eq!(s.items_per_page, 50);
    assert!(!s.open_player_new_window);
    assert!(!s.open_manage_new_window);
    assert!(!s.developer_mode);
    assert!(!s.lazy_load_playlists);
    assert_eq!(s.primary_color, "#4f46e5");
    assert_eq!(s.background_color, "#f3f4f6");
    assert_eq!(s.sub_background_color, "#ffffff");
    assert_eq!(s.text_color, "#1f2937");
    assert_eq!(s.theme_mode, "light");
    assert_eq!(s.active_tags, vec!["title", "artist", "album", "genre", "track"]);
    assert_eq!(s.player_visible_tags, vec!["title", "artist", "album", "track"]);
}

#[test]
fn values_read_from_the_file() {
    let mut conf = Ini::new();
    conf.with_section(Some("Database"))
        .set("items_per_page", "25")
        .set("developer_mode", "TRUE")
        .set("open_player_new_window", "yes");
    conf.with_section(Some("Theme")).set("theme_mode", "dark");
    conf.with_section(Some("Tags")).set("active_tags", " title , bpm ,");
    let s = get_app_settings(&conf);
    assert_eq!(s.items_per_page, 25);
    assert!(s.developer_mode);
    assert!(!s.open_player_new_window);
    assert_eq!(s.theme_mode, "dark");
    assert_eq!(s.active_tags, vec!["title", "bpm", ""]);
    let mut bad = Ini::new();
    bad.with_section(Some("Database")).set("items_per_page", "many");
    assert_eq!(get_app_settings(&bad).items_per_page, 50);
}

#[test]
fn saved_settings_read_back() {
    let settings = AppSettings {
        items_per_page: -3,
        open_player_new_window: true,
        open_manage_new_window: false,
        developer_mode: true,
        lazy_load_playlists: true,
        primary_color: "#000000".to_string(),
        background_color: "#111111".to_string(),
        sub_background_color: "#222222".to_string(),
        text_color: "#333333".to_string(),
        theme_mode: "dark".to_string(),
        active_tags: vec!["title".to_string(), "year".to_string()],
        player_visible_tags: vec!["artist".to_string()],
    };
    let mut conf = Ini::new();
    conf.with_section(Some("Theme")).set("other", "kept");
    save_app_settings(&mut conf, &settings);
    assert_eq!(conf.section(Some("Database")).and_then(|p| p.get("items_per_page")), Some("-3"));
    assert_eq!(conf.section(Some("Database")).and_then(|p| p.get("lazy_load_playlists")), Some("true"));
    assert_eq!(conf.section(Some("Tags")).and_then(|p| p.get("active_tags")), Some("title,year"));
    assert_eq!(conf.section(Some("Theme")).and_then(|p| p.get("other")), Some("kept"));
    let back = get_app_settings(&conf);
    assert_eq!(back.items_per_page, -3);
    assert!(back.open_player_new_window);
    assert!(!back.open_manage_new_window);
    assert!(back.developer_mode);
    assert!(!back.lazy_load_playlists);
    assert_eq!(back.primary_color, "#000000");
    assert_eq!(back.text_color, "#333333");
    assert_eq!(back.theme_mode, "dark");
    assert_eq!(back.active_tags, vec!["title", "year"]);
    assert_eq!(back.player_visible_tags, vec!["artist"]);
}

#[test]
fn tag_lists_split_and_trim() {
    assert_eq!(tags_from_text("a, b ,c"), vec!["a", "b", "c"]);
    assert_eq!(tags_from_text(""), vec![""]);
}

#[test]
fn custom_themes() {
    let mut themes = JsonObject::new();
    save_custom_theme(&mut themes, "Night".to_string(), JsonValue::Str("#000".to_string()));
    save_custom_theme(&mut themes, "Night".to_string(), JsonValue::Str("#111".to_string()));
    assert_eq!(themes.len(), 1);
    assert_eq!(themes.get_str("Night").map(|s| s.as_str()), Some("#111"));
    assert!(delete_custom_theme(&mut themes, "Night"));
    assert!(!delete_custom_theme(&mut themes, "Night"));
    assert_eq!(themes.len(), 0);
}
