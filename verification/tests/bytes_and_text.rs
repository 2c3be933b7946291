use flowtrace::bytes::{bytes_contain, bytes_eq_ignore_ascii_case, read_declared_length};
use flowtrace::text::{
    append_sse_events, char_is_whitespace, chars_of, find_break, push_chars, push_decimal,
    trim_bounds,
};

fn events_of(text: &str) -> Vec<String> {
    let chars: Vec<char> = text.chars().collect();
    let mut events = Vec::new();
    append_sse_events(&chars, &mut events);
    events
}

fn trimmed(text: &str) -> String {
    let chars: Vec<char> = text.chars().collect();
    let (a, b) = trim_bounds(&chars, 0, chars.len());
    chars[a..b].iter().collect()
}

fn decimal(n: usize) -> String {
    let mut out = String::new();
    push_decimal(&mut out, n);
    out
}

#[test]
fn names_compare_without_regard_to_ascii_case() {
    assert!(bytes_eq_ignore_ascii_case(b"Content-Length", b"content-length"));
    assert!(bytes_eq_ignore_ascii_case(b"CONTENT-TYPE", b"content-type"));
    assert!(bytes_eq_ignore_ascii_case(b"", b""));
    assert!(!bytes_eq_ignore_ascii_case(b"content-length", b"content-lengt"));
    assert!(!bytes_eq_ignore_ascii_case(b"content_length", b"content-length"));
    assert!(!bytes_eq_ignore_ascii_case(b"@", b"`"));
    assert!(!bytes_eq_ignore_ascii_case(b"[", b"{"));
}

#[test]
fn substring_search_finds_every_position() {
    assert!(bytes_contain(b"text/event-stream", b"text/event-stream"));
    assert!(bytes_contain(b"text/event-stream; charset=utf-8", b"text/event-stream"));
    assert!(bytes_contain(b"x text/event-stream", b"text/event-stream"));
    assert!(bytes_contain(b"abc", b""));
    assert!(bytes_contain(b"", b""));
    assert!(bytes_contain(b"aab", b"ab"));
    assert!(!bytes_contain(b"text/event-strea", b"text/event-stream"));
    assert!(!bytes_contain(b"Text/Event-Stream", b"text/event-stream"));
    assert!(!bytes_contain(b"", b"a"));
}

#[test]
fn declared_lengths_are_decimal_numbers() {
    assert_eq!(read_declared_length(b"0"), 0);
    assert_eq!(read_declared_length(b"2"), 2);
    assert_eq!(read_declared_length(b"42"), 42);
    assert_eq!(read_declared_length(b"007"), 7);
    assert_eq!(read_declared_length(b"+5"), 5);
    assert_eq!(read_declared_length(b"1234567890"), 1_234_567_890);
}

#[test]
fn what_is_no_number_declares_nothing() {
    assert_eq!(read_declared_length(b""), 0);
    assert_eq!(read_declared_length(b"+"), 0);
    assert_eq!(read_declared_length(b"-1"), 0);
    assert_eq!(read_declared_length(b"12a"), 0);
    assert_eq!(read_declared_length(b" 12"), 0);
    assert_eq!(read_declared_length(b"12 "), 0);
    assert_eq!(read_declared_length(b"++1"), 0);
    assert_eq!(read_declared_length(b"1.5"), 0);
    assert_eq!(read_declared_length(&[0x31, 0xff]), 0);
}

#[test]
fn a_length_beyond_the_machine_word_declares_nothing() {
    let max = usize::MAX.to_string();
    assert_eq!(read_declared_length(max.as_bytes()), usize::MAX);
    let mut beyond = max.clone().into_bytes();
    let last = beyond.len() - 1;
    beyond[last] += 1;
    assert_eq!(read_declared_length(&beyond), 0);
    assert_eq!(read_declared_length(b"99999999999999999999999999"), 0);
    assert_eq!(read_declared_length(b"99999999999999999999999999x"), 0);
}

#[test]
fn whitespace_is_the_unicode_property() {
    for c in [' ', '\t', '\n', '\u{b}', '\u{c}', '\r', '\u{85}', '\u{a0}', '\u{1680}', '\u{2000}',
        '\u{200a}', '\u{2028}', '\u{2029}', '\u{202f}', '\u{205f}', '\u{3000}']
    {
        assert!(char_is_whitespace(c));
    }
    for c in ['a', '0', '\u{8}', '\u{e}', '\u{200b}', '\u{feff}', '\u{1681}', '\u{3001}'] {
        assert!(!char_is_whitespace(c));
    }
}

#[test]
fn whitespace_agrees_with_the_standard_library_on_every_character() {
    let mut c = 0u32;
    while c <= 0x10ffff {
        if let Some(ch) = char::from_u32(c) {
            assert_eq!(char_is_whitespace(ch), ch.is_whitespace());
        }
        c += 1;
    }
}

#[test]
fn trimming_strips_both_ends_only() {
    assert_eq!(trimmed("  a b \n"), "a b");
    assert_eq!(trimmed("\u{a0}x\u{3000}"), "x");
    assert_eq!(trimmed("   "), "");
    assert_eq!(trimmed(""), "");
    assert_eq!(trimmed("x"), "x");
}

#[test]
fn trimming_a_part_leaves_the_rest_alone() {
    let chars: Vec<char> = "ab  cd  ef".chars().collect();
    assert_eq!(trim_bounds(&chars, 2, 8), (4, 6));
    assert_eq!(trim_bounds(&chars, 2, 4), (4, 4));
    assert_eq!(trim_bounds(&chars, 3, 3), (3, 3));
}

#[test]
fn breaks_are_two_line_feeds() {
    let chars: Vec<char> = "ab\n\ncd\n".chars().collect();
    assert_eq!(find_break(&chars, 0), 2);
    assert_eq!(find_break(&chars, 2), 2);
    assert_eq!(find_break(&chars, 3), chars.len());
    assert_eq!(find_break(&chars, chars.len()), chars.len());
    let crlf: Vec<char> = "a\r\n\r\nb".chars().collect();
    assert_eq!(find_break(&crlf, 0), crlf.len());
}

#[test]
fn events_are_trimmed_blocks() {
    assert_eq!(events_of("data: 1\n\ndata: 2\n\n"), vec!["data: 1", "data: 2"]);
    assert_eq!(events_of("a"), vec!["a"]);
    assert_eq!(events_of(" a \n\n\n\n b "), vec!["a", "b"]);
    assert_eq!(events_of("a\n\n\nb"), vec!["a", "b"]);
    assert_eq!(events_of("a\nb\n\nc"), vec!["a\nb", "c"]);
    assert_eq!(events_of("a\r\n\r\nb"), vec!["a\r\n\r\nb"]);
}

#[test]
fn blocks_of_whitespace_are_no_events() {
    assert!(events_of("").is_empty());
    assert!(events_of("\n\n").is_empty());
    assert!(events_of(" \n\n \t\n\n\n").is_empty());
    let chars: Vec<char> = "\n\n".chars().collect();
    let mut events = vec!["kept".to_string()];
    assert!(!append_sse_events(&chars, &mut events));
    assert_eq!(events, vec!["kept"]);
}

#[test]
fn new_events_join_the_earlier_ones() {
    let chars: Vec<char> = "b\n\nc".chars().collect();
    let mut events = vec!["a".to_string()];
    assert!(append_sse_events(&chars, &mut events));
    assert_eq!(events, vec!["a", "b", "c"]);
}

#[test]
fn events_agree_with_split_and_trim() {
    for text in ["x\n\n\n\ny\n", "\n\n\nz", "p\n \n\nq\n\n", "\u{a0}a\u{a0}\n\n\u{2003}"] {
        let expected: Vec<String> = text
            .split("\n\n")
            .map(|e| e.trim())
            .filter(|e| !e.is_empty())
            .map(|e| e.to_string())
            .collect();
        assert_eq!(events_of(text), expected);
    }
}

#[test]
fn numbers_are_written_in_decimal() {
    assert_eq!(decimal(0), "0");
    assert_eq!(decimal(7), "7");
    assert_eq!(decimal(10), "10");
    assert_eq!(decimal(204), "204");
    assert_eq!(decimal(65535), "65535");
    assert_eq!(decimal(usize::MAX), usize::MAX.to_string());
}

#[test]
fn decimal_is_appended_to_what_is_there() {
    let mut out = String::from("n=");
    push_decimal(&mut out, 120);
    assert_eq!(out, "n=120");
}

#[test]
fn characters_are_read_and_written_in_order() {
    let chars = chars_of("a▶é\n");
    assert_eq!(chars, vec!['a', '▶', 'é', '\n']);
    let mut out = String::from(">");
    push_chars(&mut out, &chars, 1, 3);
    assert_eq!(out, ">▶é");
    push_chars(&mut out, &chars, 2, 2);
    assert_eq!(out, ">▶é");
}
