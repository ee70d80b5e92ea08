use notification_bot::text::{
    blank_char, chars_of, is_blank_line, join_texts, push_decimal, push_signed, push_text,
    same_text, split_fields, split_lines, starts_with, to_lowercase,
};

fn owned(parts: &[&str]) -> Vec<String> {
    parts.iter().map(|p| p.to_string()).collect()
}

#[test]
fn lines_end_at_line_feeds() {
    assert_eq!(split_lines("a\nb\nc"), owned(&["a", "b", "c"]));
}

#[test]
fn carriage_return_before_line_feed_is_dropped() {
    assert_eq!(split_lines("a\r\nb\r\n"), owned(&["a", "b"]));
}

#[test]
fn carriage_return_without_line_feed_stays() {
    assert_eq!(split_lines("a\rb"), owned(&["a\rb"]));
    assert_eq!(split_lines("a\r"), owned(&["a\r"]));
}

#[test]
fn only_one_carriage_return_is_dropped() {
    assert_eq!(split_lines("a\r\r\nb"), owned(&["a\r", "b"]));
}

#[test]
fn final_line_feed_adds_no_line() {
    assert_eq!(split_lines("a\n"), owned(&["a"]));
    assert_eq!(split_lines("\n"), owned(&[""]));
}

#[test]
fn empty_text_has_no_lines() {
    assert_eq!(split_lines(""), Vec::<String>::new());
}

#[test]
fn empty_lines_in_the_middle_are_lines() {
    assert_eq!(split_lines("a\n\nb"), owned(&["a", "", "b"]));
    assert_eq!(split_lines("\n\n"), owned(&["", ""]));
}

#[test]
fn lines_agree_with_the_standard_library() {
    let samples = [
        "",
        "\n",
        "\r",
        "\r\n",
        "a",
        "a\n",
        "a\r\n",
        "a\n\r",
        "a\r\r\n",
        "\n\na\n\n",
        "10.0.0.1\n10.0.0.2\n10.0.0.1",
        "h\u{e9}llo\nw\u{f6}rld\r\n\u{3000}\n",
        "one\r\ntwo\rthree\nfour\r",
    ];
    for s in samples {
        let expected: Vec<String> = s.lines().map(String::from).collect();
        assert_eq!(split_lines(s), expected);
    }
}

#[test]
fn blank_lines_hold_only_white_space() {
    assert!(is_blank_line(""));
    assert!(is_blank_line(" \t\r"));
    assert!(is_blank_line("\u{a0}\u{2003}\u{3000}"));
    assert!(!is_blank_line(" a "));
    assert!(!is_blank_line("\u{200b}"));
}

#[test]
fn white_space_agrees_with_the_standard_library() {
    let mut code: u32 = 0;
    while code < 0x11000 {
        if let Some(c) = char::from_u32(code) {
            assert_eq!(blank_char(c), c.is_whitespace());
        }
        code += 1;
    }
}

#[test]
fn join_puts_the_separator_between_parts() {
    assert_eq!(join_texts(&owned(&["a", "b", "c"]), "\n"), "a\nb\nc");
    assert_eq!(join_texts(&owned(&["a"]), "\n"), "a");
    assert_eq!(join_texts(&owned(&[]), "\n"), "");
    assert_eq!(join_texts(&owned(&["", ""]), ", "), ", ");
}

#[test]
fn prefix_test_matches_the_start_only() {
    assert!(starts_with("/status", "/status"));
    assert!(starts_with("/status now", "/status"));
    assert!(starts_with("anything", ""));
    assert!(!starts_with("/stat", "/status"));
    assert!(!starts_with(" /status", "/status"));
    assert!(!starts_with("", "/"));
}

#[test]
fn same_text_compares_characters() {
    assert!(same_text("secret", "secret"));
    assert!(same_text("", ""));
    assert!(!same_text("secret", "Secret"));
    assert!(!same_text("secret", "secret "));
}

#[test]
fn chars_are_copied_in_order() {
    assert_eq!(chars_of("a\u{e9}z"), vec!['a', '\u{e9}', 'z']);
    assert_eq!(chars_of(""), Vec::<char>::new());
}

#[test]
fn push_text_appends() {
    let mut s = String::from("ab");
    push_text(&mut s, "cd");
    assert_eq!(s, "abcd");
    push_text(&mut s, "");
    assert_eq!(s, "abcd");
}

#[test]
fn decimal_rendering_of_naturals() {
    let cases: [(u64, &str); 7] = [
        (0, "0"),
        (7, "7"),
        (10, "10"),
        (60, "60"),
        (1005, "1005"),
        (9_999_999_999, "9999999999"),
        (u64::MAX, "18446744073709551615"),
    ];
    for (n, expected) in cases {
        let mut s = String::new();
        push_decimal(&mut s, n);
        assert_eq!(s, expected);
    }
}

#[test]
fn decimal_rendering_of_integers() {
    let cases: [(i64, &str); 6] = [
        (0, "0"),
        (42, "42"),
        (-1, "-1"),
        (-1001234567890, "-1001234567890"),
        (i64::MAX, "9223372036854775807"),
        (i64::MIN, "-9223372036854775808"),
    ];
    for (i, expected) in cases {
        let mut s = String::from("id ");
        push_signed(&mut s, i);
        assert_eq!(s, format!("id {}", expected));
        assert_eq!(s, format!("id {}", i));
    }
}

#[test]
fn lower_case_touches_ascii_letters_only() {
    assert_eq!(to_lowercase("/CONFIG Edit PING_interval 30"), "/config edit ping_interval 30");
    assert_eq!(to_lowercase("\u{c9}T\u{c9} [Z] @A`"), "\u{c9}t\u{c9} [z] @a`");
    for s in ["", "AZaz09", "\u{130}I", "MiXeD \u{df}"] {
        assert_eq!(to_lowercase(s), s.to_ascii_lowercase());
    }
}

#[test]
fn fields_are_cut_at_every_space() {
    assert_eq!(split_fields("/config edit ping_interval 30"), owned(&["/config", "edit", "ping_interval", "30"]));
    assert_eq!(split_fields("/config  list"), owned(&["/config", "", "list"]));
    assert_eq!(split_fields(" a "), owned(&["", "a", ""]));
    assert_eq!(split_fields(""), owned(&[""]));
    assert_eq!(split_fields("a\tb"), owned(&["a\tb"]));
    for s in ["", " ", "  ", "a b", "a  b ", " /config list"] {
        let expected: Vec<String> = s.split(" ").map(String::from).collect();
        assert_eq!(split_fields(s), expected);
    }
}
