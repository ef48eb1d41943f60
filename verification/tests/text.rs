use flatpak_unsandbox::text::{
    decode, find_match, from_chars, is_whitespace, join_strings, split_chars, split_lines,
    starts_with, to_chars, trimmed,
};

fn chars(s: &str) -> Vec<char> {
    s.chars().collect()
}

fn strings(v: Vec<Vec<char>>) -> Vec<String> {
    v.into_iter().map(|p| p.into_iter().collect()).collect()
}

#[test]
fn chars_and_strings_convert_both_ways() {
    assert_eq!(to_chars("a/ü"), vec!['a', '/', 'ü']);
    assert_eq!(from_chars(&vec!['a', '/', 'ü']), "a/ü");
    assert_eq!(to_chars(""), Vec::<char>::new());
    assert_eq!(from_chars(&Vec::new()), "");
}

#[test]
fn white_space_is_the_unicode_property() {
    for c in [' ', '\t', '\n', '\r', '\u{0B}', '\u{0C}', '\u{85}', '\u{A0}', '\u{1680}', '\u{2000}', '\u{200A}', '\u{2028}', '\u{2029}', '\u{202F}', '\u{205F}', '\u{3000}'] {
        assert!(is_whitespace(c));
    }
    for c in ['a', '/', ':', '\u{08}', '\u{0E}', '\u{200B}', '\u{1F}', '\u{2FFF}'] {
        assert!(!is_whitespace(c));
    }
}

#[test]
fn white_space_agrees_with_the_standard_library() {
    let mut code: u32 = 0;
    while code < 0x3100 {
        if let Some(c) = char::from_u32(code) {
            assert_eq!(is_whitespace(c), c.is_whitespace());
        }
        code += 1;
    }
}

#[test]
fn trimmed_drops_surrounding_white_space_only() {
    assert_eq!(trimmed(&chars("  /tmp \t")), chars("/tmp"));
    assert_eq!(trimmed(&chars("a b")), chars("a b"));
    assert_eq!(trimmed(&chars(" \n ")), chars(""));
    assert_eq!(trimmed(&chars("")), chars(""));
    assert_eq!(trimmed(&chars("\u{A0}x\u{3000}")), chars("x"));
}

#[test]
fn split_chars_cuts_at_every_delimiter() {
    assert_eq!(strings(split_chars(&chars("a:b:c"), ':')), vec!["a", "b", "c"]);
    assert_eq!(strings(split_chars(&chars("a::b"), ':')), vec!["a", "", "b"]);
    assert_eq!(strings(split_chars(&chars(":"), ':')), vec!["", ""]);
    assert_eq!(strings(split_chars(&chars(""), ':')), vec![""]);
    assert_eq!(strings(split_chars(&chars("a,b"), ':')), vec!["a,b"]);
    assert_eq!(strings(split_chars(&chars("a:"), ':')), vec!["a", ""]);
}

#[test]
fn split_chars_agrees_with_the_standard_library() {
    for s in ["", ":", "::", "a", "a:b", ":a:", "/usr/lib:/app/lib:", "x:y:z:w"] {
        let expected: Vec<String> = s.split(':').map(|p| p.to_string()).collect();
        assert_eq!(strings(split_chars(&chars(s), ':')), expected);
    }
}

#[test]
fn join_strings_puts_the_separator_between_neighbours() {
    let parts = vec!["a".to_string(), "b".to_string(), "c".to_string()];
    assert_eq!(join_strings(&parts, ", "), "a, b, c");
    assert_eq!(join_strings(&parts, ""), "abc");
    assert_eq!(join_strings(&vec!["a".to_string()], ":"), "a");
    assert_eq!(join_strings(&Vec::new(), ":"), "");
    assert_eq!(join_strings(&vec![String::new(), String::new()], ":"), ":");
}

#[test]
fn joining_a_split_gives_the_string_back() {
    for s in ["", ":", "a:b", ":a::b:", "/usr/lib:/app/lib"] {
        let pieces = strings(split_chars(&chars(s), ':'));
        assert_eq!(join_strings(&pieces, ":"), s);
    }
}

#[test]
fn splitting_a_join_gives_the_pieces_back() {
    let pieces = vec!["/usr/lib".to_string(), String::new(), "/app/lib".to_string()];
    let joined = join_strings(&pieces, ":");
    assert_eq!(joined, "/usr/lib::/app/lib");
    assert_eq!(strings(split_chars(&chars(&joined), ':')), pieces);
}

#[test]
fn split_lines_ends_lines_at_line_feeds() {
    assert_eq!(strings(split_lines(&chars("a\nb\n"))), vec!["a", "b"]);
    assert_eq!(strings(split_lines(&chars("a\r\nb\n\nc"))), vec!["a", "b", "", "c"]);
    assert_eq!(strings(split_lines(&chars(""))), Vec::<String>::new());
    assert_eq!(strings(split_lines(&chars("\n"))), vec![""]);
    assert_eq!(strings(split_lines(&chars("a\r"))), vec!["a\r"]);
    assert_eq!(strings(split_lines(&chars("a\r\r\n"))), vec!["a\r"]);
    assert_eq!(strings(split_lines(&chars("\r\n"))), vec![""]);
}

#[test]
fn split_lines_agrees_with_the_standard_library() {
    for s in ["", "\n", "\n\n", "a", "a\n", "a\nb", "a\r\nb\r\n", "\r", "a\rb\n", "x\n\r\ny\r"] {
        let expected: Vec<String> = s.lines().map(|l| l.to_string()).collect();
        assert_eq!(strings(split_lines(&chars(s))), expected);
    }
}

#[test]
fn find_match_returns_first_occurrence() {
    assert_eq!(find_match(&chars("a => b => c"), &chars("=>")), Some(2));
    assert_eq!(find_match(&chars("a = > b"), &chars("=>")), None);
    assert_eq!(find_match(&chars("=>"), &chars("=>")), Some(0));
    assert_eq!(find_match(&chars("abc"), &chars("")), Some(0));
    assert_eq!(find_match(&chars(""), &chars("")), Some(0));
    assert_eq!(find_match(&chars("="), &chars("=>")), None);
}

#[test]
fn starts_with_compares_the_beginning() {
    assert!(starts_with(&chars("ld-linux-x86-64.so.2"), &chars("ld-linux")));
    assert!(!starts_with(&chars("libld-linux"), &chars("ld-linux")));
    assert!(!starts_with(&chars("ld"), &chars("ld-linux")));
    assert!(starts_with(&chars("x"), &chars("")));
}

#[test]
fn decode_accepts_exactly_valid_utf8() {
    assert_eq!(decode(vec![0x2F, 0x61]), Some("/a".to_string()));
    assert_eq!(decode(vec![0xC3, 0xBC]), Some("ü".to_string()));
    assert_eq!(decode(Vec::new()), Some(String::new()));
    assert_eq!(decode(vec![0xFF]), None);
    assert_eq!(decode(vec![0xC3]), None);
    assert_eq!(decode(vec![0x61, 0x80]), None);
}
