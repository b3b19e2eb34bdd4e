use chordia::text::{
    compare_text, concat_text, contains, ends_with, has_char, i32_text, i64_text, join_texts,
    last_path_segment, normalize_newlines, parse_i32, parse_i64, same_text, split_text,
    starts_with, trim, u64_text, Order,
};

#[test]
fn trim_removes_outer_white_space() {
    assert_eq!(trim("  Song A \t\n"), "Song A");
    assert_eq!(trim("\u{3000}全角\u{3000}"), "全角");
    assert_eq!(trim("   "), "");
}

#[test]
fn searching_inside_text() {
    assert!(contains("hello world", "o w"));
    assert!(contains("abc", ""));
    assert!(!contains("abc", "abcd"));
    assert!(starts_with("//cdn.example", "//"));
    assert!(!starts_with("/x", "//"));
    assert!(ends_with("cover.png", ".png"));
    assert!(has_char("a,b", ','));
    assert!(!has_char("ab", ','));
    assert!(same_text("x", "x"));
    assert!(!same_text("x", "y"));
    assert_eq!(concat_text("ab", "cd"), "abcd");
}

#[test]
fn text_order_is_code_point_order() {
    assert!(matches!(compare_text("apple", "banana"), Order::Less));
    assert!(matches!(compare_text("b", "a"), Order::Greater));
    assert!(matches!(compare_text("same", "same"), Order::Equal));
    assert!(matches!(compare_text("ab", "abc"), Order::Less));
    assert!(matches!(compare_text("Z", "a"), Order::Less));
}

#[test]
fn numbers_as_text() {
    assert_eq!(u64_text(0), "0");
    assert_eq!(u64_text(1234567890), "1234567890");
    assert_eq!(i64_text(-42), "-42");
    assert_eq!(i64_text(i64::MIN), "-9223372036854775808");
    assert_eq!(i64_text(i64::MAX), "9223372036854775807");
    assert_eq!(i32_text(-7), "-7");
}

#[test]
fn parsing_numbers_as_rust_does() {
    assert_eq!(parse_i32("42"), Some(42));
    assert_eq!(parse_i32("+7"), Some(7));
    assert_eq!(parse_i32("-2147483648"), Some(i32::MIN));
    assert_eq!(parse_i32("2147483648"), None);
    assert_eq!(parse_i32(""), None);
    assert_eq!(parse_i32("-"), None);
    assert_eq!(parse_i32("1.5"), None);
    assert_eq!(parse_i32(" 1"), None);
    assert_eq!(parse_i64("-9223372036854775808"), Some(i64::MIN));
    assert_eq!(parse_i64("9223372036854775808"), None);
    assert_eq!(parse_i64("00012"), Some(12));
    for n in [0i32, 1, -1, 99, -12345, i32::MAX, i32::MIN] {
        assert_eq!(parse_i32(&i32_text(n)), Some(n));
    }
}

#[test]
fn split_and_join() {
    assert_eq!(split_text("a,b,,c", ','), vec!["a", "b", "", "c"]);
    assert_eq!(split_text("", ','), vec![""]);
    assert_eq!(split_text("x,", ','), vec!["x", ""]);
    let parts = vec!["title".to_string(), "artist".to_string(), "album".to_string()];
    let joined = join_texts(&parts, ',');
    assert_eq!(joined, "title,artist,album");
    assert_eq!(split_text(&joined, ','), parts);
    assert_eq!(join_texts(&vec![], ','), "");
}

#[test]
fn newlines_become_lf() {
    assert_eq!(normalize_newlines("a\r\nb\rc\nd"), "a\nb\nc\nd");
    assert_eq!(normalize_newlines("\r\r\n"), "\n\n");
    assert!(!normalize_newlines("x\r\r\ny\r").contains('\r'));
}

#[test]
fn last_piece_of_a_path() {
    assert_eq!(last_path_segment("library/music/abc.mp3"), "abc.mp3");
    assert_eq!(last_path_segment("C:\\music\\song.mp3"), "song.mp3");
    assert_eq!(last_path_segment("plain.mp3"), "plain.mp3");
    assert_eq!(last_path_segment("dir/"), "");
    assert_eq!(last_path_segment(""), "");
}

#[test]
fn identifiers_are_thirty_two_letters_and_digits() {
    let a = chordia::ids::random_id();
    let b = chordia::ids::random_id();
    assert_eq!(a.chars().count(), 32);
    assert!(a.chars().all(|c| c.is_ascii_alphanumeric()));
    assert!(b.chars().all(|c| c.is_ascii_alphanumeric()));
    assert_ne!(a, b);
}
