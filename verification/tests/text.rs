use gdb_bridge::text::{contains, is_whitespace, last_line};

#[test]
fn white_space_is_what_the_standard_library_calls_so() {
    for code in 0..=0x10ffffu32 {
        if let Some(c) = char::from_u32(code) {
            assert_eq!(is_whitespace(c), c.is_whitespace(), "{:x}", code);
        }
    }
}

#[test]
fn the_last_line_is_taken_after_trimming() {
    for text in [
        "",
        "\n",
        "a",
        "a\n",
        "a\nb",
        "a\nb\n",
        "a\nb \r\n\n",
        "  a\n  b  ",
        "\n\n",
        " \t x \t ",
        "a\n\nb\n \n",
        "*stopped,reason=\"exited-normally\"\n",
        "\u{a0}x\u{3000}\n",
    ] {
        assert_eq!(last_line(text), text.trim().split('\n').last().unwrap(), "{:?}", text);
    }
    assert_eq!(last_line("=a\n*stopped,x\n"), "*stopped,x");
}

#[test]
fn contains_finds_a_text_within_another() {
    let cases =
        [("", ""), ("a", ""), ("", "a"), ("abc", "bc"), ("abc", "abcd"), ("aab", "ab"), ("ab", "ba")];
    for (hay, needle) in cases {
        assert_eq!(contains(hay, needle), hay.contains(needle), "{:?} {:?}", hay, needle);
    }
    assert!(contains("*stopped,reason=\"signal-received\",core=\"1\"", "reason=\"signal-received\""));
    assert!(!contains("*stopped,reason=\"exited\"", "reason=\"signal-received\""));
}
