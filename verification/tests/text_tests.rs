use aeditor::text::{
    byte_len, byte_offset, char_is_whitespace, char_width, chars_of, find, includes,
    occurs_at_index, push_chars, push_decimal, same_text, slice_of, split_lines, string_of,
    trim_bounds,
};

fn text(s: &str) -> Vec<char> {
    s.chars().collect()
}

fn lines_of(s: &str) -> Vec<String> {
    split_lines(&text(s)).iter().map(|l| l.iter().collect::<String>()).collect()
}

fn std_lines(s: &str) -> Vec<String> {
    s.lines().map(|l| l.to_string()).collect()
}

#[test]
fn chars_of_gives_every_character() {
    assert_eq!(chars_of("aé☃"), vec!['a', 'é', '☃']);
    assert_eq!(chars_of(""), Vec::<char>::new());
}

#[test]
fn string_of_and_slice_of_take_a_range() {
    let v = text("hello world");
    assert_eq!(string_of(&v, 6, 11), "world");
    assert_eq!(string_of(&v, 3, 3), "");
    assert_eq!(slice_of(&v, 0, 5), text("hello"));
}

#[test]
fn same_text_compares_characters() {
    assert!(same_text("abc", "abc"));
    assert!(!same_text("abc", "abd"));
    assert!(!same_text("abc", "ab"));
}

#[test]
fn whitespace_agrees_with_the_standard_library() {
    for code in 0u32..0x3100 {
        if let Some(c) = char::from_u32(code) {
            assert_eq!(char_is_whitespace(c), c.is_whitespace(), "U+{:04X}", code);
        }
    }
}

#[test]
fn char_width_agrees_with_the_standard_library() {
    for c in ['a', '\u{7f}', '\u{80}', 'é', '\u{7ff}', '\u{800}', '☃', '\u{ffff}', '\u{10000}', '😀'] {
        assert_eq!(char_width(c), c.len_utf8());
    }
}

#[test]
fn byte_len_and_byte_offset_count_utf8_bytes() {
    assert_eq!(byte_len("aé☃😀"), 10);
    let v = text("aé☃😀");
    assert_eq!(byte_offset(&v, 0), 0);
    assert_eq!(byte_offset(&v, 1), 1);
    assert_eq!(byte_offset(&v, 2), 3);
    assert_eq!(byte_offset(&v, 3), 6);
    assert_eq!(byte_offset(&v, 4), 10);
}

#[test]
fn find_gives_the_first_occurrence() {
    assert_eq!(find(&text("abcabc"), &text("bc")), Some(1));
    assert_eq!(find(&text("abcabc"), &text("cab")), Some(2));
    assert_eq!(find(&text("abc"), &text("abcd")), None);
    assert_eq!(find(&text("abc"), &text("x")), None);
    assert_eq!(find(&text("abc"), &text("")), Some(0));
    assert_eq!(find(&text(""), &text("")), Some(0));
    assert_eq!(find(&text("aab"), &text("ab")), Some(1));
}

#[test]
fn includes_and_occurs_at_index() {
    assert!(includes(&text("a == b"), &text(" == ")));
    assert!(!includes(&text("a === b"), &text(" == ")));
    assert!(occurs_at_index(&text("  var x"), &text("var "), 2));
    assert!(!occurs_at_index(&text("  var x"), &text("var "), 1));
    assert!(!occurs_at_index(&text("var"), &text("var "), 0));
    assert!(!occurs_at_index(&text("var"), &text("r"), 7));
}

#[test]
fn trim_bounds_agree_with_the_standard_library() {
    for s in ["", "   ", "abc", "  abc", "abc  ", " \t abc def \r\n", "\u{a0}x\u{3000}", " x"] {
        let v = text(s);
        let (lo, hi) = trim_bounds(&v);
        let trimmed: String = v[lo..hi].iter().collect();
        assert_eq!(trimmed, s.trim(), "{:?}", s);
        let from_start: String = v[lo..].iter().collect();
        assert_eq!(from_start, s.trim_start(), "{:?}", s);
    }
}

#[test]
fn split_lines_agrees_with_the_standard_library() {
    for s in [
        "", "a", "a\n", "a\nb", "a\r\nb", "a\r\nb\r\n", "\n", "\n\n", "a\n\nb", "a\r", "a\n\r",
        "\r\n", "a\rb\nc", "x\r\r\ny",
    ] {
        assert_eq!(lines_of(s), std_lines(s), "{:?}", s);
    }
}

#[test]
fn split_lines_keeps_a_last_carriage_return() {
    assert_eq!(lines_of("a\nb\r"), vec!["a".to_string(), "b\r".to_string()]);
}

#[test]
fn push_decimal_writes_decimal_digits() {
    for n in [0u64, 7, 10, 99, 100, 12345, 1700000000000, u64::MAX] {
        let mut s = String::from("n=");
        push_decimal(&mut s, n);
        assert_eq!(s, format!("n={}", n));
    }
}

#[test]
fn push_chars_appends() {
    let mut s = String::from("ab");
    push_chars(&mut s, &text("cd"));
    assert_eq!(s, "abcd");
}
