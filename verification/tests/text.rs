use voicebox::text::contains;
use voicebox::text::decimal_of;
use voicebox::text::join;
use voicebox::text::repeat;
use voicebox::text::same;
use voicebox::text::starts_with;
use voicebox::text::string_of;
use voicebox::text::to_ascii_lowercase;
use voicebox::text::trim;
use voicebox::text_order::is_at_or_before;
use voicebox::text_order::sort;

fn texts(parts: &[&str]) -> Vec<String> {
    parts.iter().map(|s| s.to_string()).collect()
}

#[test]
fn trims_every_kind_of_white_space() {
    for s in ["", " ", "a", " a b ", "\u{3000}x\u{85}\n", "\u{200b}x", "\r\n\t\u{b}\u{c}y\u{1680}"] {
        assert_eq!(trim(s), s.trim());
    }
    for code in 0u32..0x3100 {
        if let Some(c) = char::from_u32(code) {
            let s = format!("{c}x{c}");
            assert_eq!(trim(&s), s.trim());
        }
    }
}

#[test]
fn finds_substrings() {
    assert!(contains("kitty", "itt"));
    assert!(contains("kitty", ""));
    assert!(contains("aab", "ab"));
    assert!(!contains("kitty", "kittyx"));
    assert!(!contains("", "a"));
    assert!(contains("größe", "öß"));
}

#[test]
fn finds_prefixes() {
    assert!(starts_with("error: x", "error:"));
    assert!(starts_with("x", ""));
    assert!(!starts_with("err", "error:"));
}

#[test]
fn compares_whole_strings() {
    assert!(same("größe", "größe"));
    assert!(!same("a", "ab"));
    assert!(!same("a", "b"));
    assert!(same("", ""));
}

#[test]
fn lowers_ascii_only() {
    assert_eq!(to_ascii_lowercase("AZ[@az\u{c4}\u{212a}9"), "az[@az\u{c4}\u{212a}9");
}

#[test]
fn joins_and_repeats() {
    assert_eq!(join(&texts(&[]), "; "), "");
    assert_eq!(join(&texts(&["a"]), "; "), "a");
    assert_eq!(join(&texts(&["a", "", "c"]), "; "), "a; ; c");
    assert_eq!(repeat('=', 3), "===");
    assert_eq!(repeat('=', 0), "");
    assert_eq!(string_of(&vec!['a', 'b', 'c'], 1, 3), "bc");
}

#[test]
fn writes_numbers_in_decimal() {
    for n in [0, 7, 10, -1, -10, 1440, i32::MAX, i32::MIN] {
        assert_eq!(decimal_of(n), n.to_string());
    }
}

#[test]
fn orders_strings_as_their_bytes() {
    let samples = ["", "a", "ab", "b", "B", "größe", "z", "\u{ffff}", "\u{10000}", "image/png"];
    for a in samples {
        for b in samples {
            assert_eq!(is_at_or_before(a, b), a <= b);
        }
    }
}

#[test]
fn sorting_forgets_the_arrangement() {
    let one = sort(&texts(&["text/plain", "STRING", "größe", "STRING"]));
    let other = sort(&texts(&["STRING", "größe", "STRING", "text/plain"]));
    assert_eq!(one, other);
    assert_eq!(one, texts(&["STRING", "STRING", "größe", "text/plain"]));
    assert_eq!(sort(&one), one);
    assert!(sort(&vec![]).is_empty());
}
