use camera_box::numeral;
use camera_box::order;
use camera_box::text;

#[test]
fn trimming() {
    assert_eq!(text::trimmed(" \t a b \u{a0}\n"), "a b");
    assert_eq!(text::trimmed("   "), "");
    assert_eq!(text::trimmed_end_char("Pi\0\0", '\0'), "Pi");
    assert_eq!(text::trimmed_end_char("\0Pi", '\0'), "\0Pi");
}

#[test]
fn trimming_matches_std() {
    for s in ["", " ", "\u{2003}x\u{3000}", "\u{200b}x", "\u{85}x\u{1680}", "a\r\n", "\u{1c}x"] {
        assert_eq!(text::trimmed(s), s.trim());
    }
}

#[test]
fn prefixes_and_suffixes() {
    assert_eq!(text::after_prefix("ssid box", "ssid "), Some("box".to_string()));
    assert_eq!(text::after_prefix("ssi", "ssid "), None);
    assert_eq!(text::before_suffix("home.conf", ".conf"), Some("home".to_string()));
    assert_eq!(text::before_suffix("home.txt", ".conf"), None);
    assert_eq!(text::after_repeated("././a", "./"), "a");
    assert_eq!(text::after_repeated("vv1", "v"), "1");
    assert!(text::begins_with("RSN: x", "RSN:"));
    assert!(text::has_substring("xtype APx", "type AP"));
    assert!(!text::has_substring("type A", "type AP"));
}

#[test]
fn splitting() {
    assert_eq!(text::pieces("1.2-3", ".-+"), ["1", "2", "3"]);
    assert_eq!(text::pieces("", "."), [""]);
    assert_eq!(text::pieces(".", "."), ["", ""]);
    assert_eq!(text::cut_first("a/b/c", "/"), Some(("a".to_string(), "b/c".to_string())));
    assert_eq!(text::cut_last("a:b:c", ':'), Some(("a:b".to_string(), "c".to_string())));
    assert_eq!(text::cut_last("abc", ':'), None);
    assert_eq!(text::words_of(" a\tb \u{2003} c"), ["a", "b", "c"]);
    assert_eq!(text::words_of("  ").len(), 0);
}

#[test]
fn the_last_piece_is_after_the_last_separator() {
    let parts = text::pieces("a.b.c", ".");
    let (_, last) = text::cut_last("a.b.c", '.').unwrap();
    assert_eq!(parts[parts.len() - 1], last);
}

#[test]
fn lines_match_std() {
    for s in ["", "a", "a\n", "a\nb", "a\r\nb\r\n", "\n\n", "a\r", "a\rb\n", "\r\n"] {
        let want: Vec<&str> = s.lines().collect();
        assert_eq!(text::lines_of(s), want);
    }
}

#[test]
fn lines_of_a_text_of_lines() {
    let lines: Vec<String> = vec!["a".to_string(), "".to_string(), "b c".to_string()];
    assert_eq!(text::text_of_lines(&lines), "a\n\nb c\n");
    assert_eq!(text::lines_of(&text::text_of_lines(&lines)), lines);
}

#[test]
fn decimal_numbers() {
    assert_eq!(numeral::decimal_of(0), "0");
    assert_eq!(numeral::decimal_of(18_446_744_073_709_551_615), "18446744073709551615");
    assert_eq!(numeral::parse_up_to("18446744073709551615", u64::MAX), Some(u64::MAX));
    assert_eq!(numeral::parse_up_to("18446744073709551616", u64::MAX), None);
    assert_eq!(numeral::parse_up_to("+7", u64::MAX), Some(7));
    assert_eq!(numeral::parse_up_to("007", u64::MAX), Some(7));
    assert_eq!(numeral::parse_up_to("256", 255), None);
    for s in ["", "+", "-1", " 1", "1 ", "1a"] {
        assert_eq!(numeral::parse_up_to(s, u64::MAX), None);
    }
    assert_eq!(numeral::parse_i32("-2147483648"), Some(i32::MIN));
    assert_eq!(numeral::parse_i32("2147483648"), None);
    assert_eq!(numeral::parse_i32("+5"), Some(5));
    assert_eq!(numeral::parse_i32("-+5"), None);
}

#[test]
fn decimal_numbers_read_back() {
    for n in [0u64, 9, 10, 99, 100, 123_456_789] {
        assert_eq!(numeral::parse_up_to(&numeral::decimal_of(n), u64::MAX), Some(n));
    }
}

#[test]
fn hexadecimal() {
    assert_eq!(numeral::hex_encode(&[0, 15, 16, 255]), "000f10ff");
    assert_eq!(numeral::hex_decode("000f10ff"), Some(vec![0, 15, 16, 255]));
    assert_eq!(numeral::hex_decode("FF"), Some(vec![255]));
    assert_eq!(numeral::hex_decode("+f"), Some(vec![15]));
    assert_eq!(numeral::hex_decode("f"), None);
    assert_eq!(numeral::hex_decode("0g"), None);
    assert_eq!(numeral::hex_decode(""), Some(Vec::new()));
    assert!(numeral::hex_text_cuts_character("0é0"));
    assert!(!numeral::hex_text_cuts_character("é0"));
    assert_eq!(numeral::hex_decode("éé"), None);
}

#[test]
fn hexadecimal_decodes_back() {
    let bytes: Vec<u8> = (0..=255).collect();
    assert_eq!(numeral::hex_decode(&numeral::hex_encode(&bytes)), Some(bytes));
}

#[test]
fn texts_are_sorted_like_std() {
    let names = ["wlan1", "wlan0", "é", "", "Wlan", "wlan10", "\u{10000}", "\u{ffff}"];
    let list: Vec<String> = names.iter().map(|s| s.to_string()).collect();
    let mut want = list.clone();
    want.sort();
    assert_eq!(order::stable_sort(list), want);
}
