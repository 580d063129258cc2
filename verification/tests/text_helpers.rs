use robin_lib::history::History;
use robin_lib::settings::Settings;
use robin_lib::text::{chars_of, is_whitespace, same_text, string_of, trim_chars, trimmed};

#[test]
fn whitespace_agrees_with_std_for_every_char() {
    for n in 0u32..=0x10FFFF {
        if let Some(c) = char::from_u32(n) {
            assert_eq!(is_whitespace(c), c.is_whitespace(), "disagree at U+{n:04X}");
        }
    }
}

#[test]
fn trimmed_agrees_with_str_trim() {
    let samples = [
        "",
        "   ",
        "  hello  ",
        "\u{3000}wide space\u{3000}",
        "\u{85}next line\u{2029}",
        "no trim",
        "\t\n mixed \r\n",
        "inner   spaces stay",
    ];
    for s in samples {
        assert_eq!(trimmed(s), s.trim(), "sample {s:?}");
    }
}

#[test]
fn chars_round_trip() {
    let s = "héllo wörld ✓";
    let v = chars_of(s);
    assert_eq!(v.len(), s.chars().count());
    assert_eq!(string_of(&v), s);
    assert_eq!(trim_chars(&chars_of("  x y  ")), vec!['x', ' ', 'y']);
}

#[test]
fn same_text_compares_characters() {
    assert!(same_text("cloud", "cloud"));
    assert!(!same_text("cloud", "Cloud"));
    assert!(!same_text("cloud", "cloud "));
}

#[test]
fn stored_files_sit_under_the_app_dir() {
    assert_eq!(Settings::config_path("/tmp/robin"), "/tmp/robin/config.json");
    assert_eq!(History::path("/tmp/robin/"), "/tmp/robin/history.json");
    assert_eq!(History::path(""), "history.json");
}
