use rutils::text::content_of;
use rutils::text::contents_of;
use rutils::text::is_space;
use rutils::text::join_lines;
use rutils::text::push_chars;
use rutils::text::push_decimal;
use rutils::text::push_line;
use rutils::text::push_number;
use rutils::text::push_right_aligned;
use rutils::text::same_text;
use rutils::text::to_chars;
use rutils::text::write_lines;

fn strings(items: &[&str]) -> Vec<String> {
    items.iter().map(|s| s.to_string()).collect()
}

#[test]
fn whitespace_is_the_unicode_property() {
    let mut code: u32 = 0;
    while code <= 0x10FFFF {
        if let Some(c) = char::from_u32(code) {
            assert_eq!(is_space(c), c.is_whitespace(), "U+{:04X}", code);
        }
        code += 1;
    }
}

#[test]
fn whitespace_examples() {
    assert!(is_space(' '));
    assert!(is_space('\n'));
    assert!(is_space('\t'));
    assert!(is_space('\u{3000}'));
    assert!(!is_space('a'));
    assert!(!is_space('\u{200B}'));
}

#[test]
fn to_chars_keeps_every_character() {
    assert_eq!(to_chars("a\u{e9}\u{1F600}"), vec!['a', '\u{e9}', '\u{1F600}']);
    assert_eq!(to_chars(""), Vec::<char>::new());
}

#[test]
fn push_chars_appends_the_range() {
    let chars = vec!['a', 'b', 'c', 'd'];
    let mut out = String::from("x");
    push_chars(&mut out, &chars, 1, 3);
    assert_eq!(out, "xbc");
    push_chars(&mut out, &chars, 2, 2);
    assert_eq!(out, "xbc");
}

#[test]
fn same_text_compares_characters() {
    assert!(same_text("abc", "abc"));
    assert!(same_text("", ""));
    assert!(!same_text("abc", "abd"));
    assert!(!same_text("abc", "ab"));
    assert!(!same_text("a ", "a"));
}

#[test]
fn content_of_strips_one_terminator() {
    assert_eq!(content_of("abc\n"), "abc");
    assert_eq!(content_of("abc\r\n"), "abc");
    assert_eq!(content_of("abc"), "abc");
    assert_eq!(content_of("abc\r"), "abc\r");
    assert_eq!(content_of("abc\n\n"), "abc\n");
    assert_eq!(content_of("abc \n"), "abc ");
    assert_eq!(content_of("\n"), "");
    assert_eq!(content_of(""), "");
}

#[test]
fn contents_of_strips_every_line() {
    assert_eq!(contents_of(&strings(&["a\n", "b\r\n", "c"])), strings(&["a", "b", "c"]));
}

#[test]
fn decimal_numerals() {
    for n in [0usize, 7, 10, 42, 100, 999, 1000, 65535, usize::MAX] {
        let mut out = String::new();
        push_decimal(&mut out, n);
        assert_eq!(out, n.to_string());
    }
    let mut out = String::from("n=");
    push_decimal(&mut out, 305);
    assert_eq!(out, "n=305");
}

#[test]
fn right_alignment_pads_on_the_left() {
    let mut out = String::new();
    push_right_aligned(&mut out, "ab", 5);
    assert_eq!(out, "   ab");
    let mut out = String::new();
    push_right_aligned(&mut out, "abcdef", 3);
    assert_eq!(out, "abcdef");
    let mut out = String::new();
    push_right_aligned(&mut out, "abc", 3);
    assert_eq!(out, "abc");
    let mut out = String::new();
    push_right_aligned(&mut out, "\u{e9}", 3);
    assert_eq!(out, "  \u{e9}");
}

#[test]
fn numbers_in_fields() {
    for (n, width) in [(1usize, 6usize), (123456, 6), (1234567, 6), (12, 8), (0, 1), (5, 0)] {
        let mut out = String::new();
        push_number(&mut out, n, width);
        assert_eq!(out, format!("{:>width$}", n, width = width));
    }
}

#[test]
fn push_line_adds_a_line_feed() {
    let mut out = String::from("a\n");
    push_line(&mut out, "b");
    assert_eq!(out, "a\nb\n");
}

#[test]
fn join_and_write_lines() {
    assert_eq!(join_lines(&strings(&[])), "");
    assert_eq!(join_lines(&strings(&["a"])), "a");
    assert_eq!(join_lines(&strings(&["a", "", "b"])), "a\n\nb");
    assert_eq!(write_lines(&strings(&[])), "");
    assert_eq!(write_lines(&strings(&["a", "", "b"])), "a\n\nb\n");
}
