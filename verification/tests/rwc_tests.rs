use rutils::input::Input;
use rutils::input::Stream;
use rutils::rwc::count;
use rutils::rwc::count_words;
use rutils::rwc::format_row;
use rutils::rwc::report;
use rutils::rwc::run;
use rutils::rwc::tally_lines;
use rutils::rwc::Config;
use rutils::rwc::FileInfo;
use rutils::rwc::Selection;

fn strings(items: &[&str]) -> Vec<String> {
    items.iter().map(|s| s.to_string()).collect()
}

fn stream(text: &str) -> Stream {
    Stream { bytes: text.as_bytes().to_vec(), failure: None }
}

fn opened(path: &str, text: &str) -> Input {
    Input { path: path.to_string(), opened: Ok(stream(text)) }
}

fn info(num_lines: usize, num_words: usize, num_bytes: usize, num_chars: usize) -> FileInfo {
    FileInfo { num_lines, num_words, num_bytes, num_chars }
}

fn selection(lines: bool, words: bool, bytes: bool, chars: bool) -> Selection {
    Selection { lines, words, bytes, chars }
}

#[test]
fn nothing_selected_means_lines_words_bytes() {
    let config = Config::new(strings(&["a"]), false, false, false, false);
    assert_eq!(config.selection(), selection(true, true, true, false));
    assert_eq!(config.files(), &strings(&["a"]));
}

#[test]
fn a_selection_is_kept() {
    for bits in 1..16u8 {
        let (l, w, b, c) = (bits & 1 != 0, bits & 2 != 0, bits & 4 != 0, bits & 8 != 0);
        let config = Config::new(strings(&["a"]), l, w, b, c);
        assert_eq!(config.selection(), selection(l, w, b, c));
    }
}

#[test]
fn count_of_two_lines() {
    assert_eq!(count(&stream("foo bar\nbaz\n")), Ok(info(2, 3, 12, 12)));
}

#[test]
fn count_default_row() {
    let config = Config::new(strings(&["f"]), false, false, false, false);
    let outcome = run(&config, &vec![opened("f", "foo bar\nbaz\n")]);
    assert_eq!(outcome.stdout, "       2       3      12 f\n");
}

#[test]
fn count_of_nothing() {
    assert_eq!(count(&stream("")), Ok(info(0, 0, 0, 0)));
}

#[test]
fn count_without_final_terminator() {
    assert_eq!(count(&stream("one two")), Ok(info(1, 2, 7, 7)));
    assert_eq!(count(&stream("a\n\nb")), Ok(info(3, 2, 4, 4)));
}

#[test]
fn count_tells_bytes_from_characters() {
    assert_eq!(count(&stream("h\u{e9}llo w\u{f6}rld\n\u{1F600}\n")), Ok(info(2, 3, 19, 14)));
}

#[test]
fn count_agrees_with_the_standard_library() {
    let text = "  lead\ttabs\u{a0}nbsp\u{3000}wide \r\n\n x\u{2028}y \u{200b}z\nlast";
    let expected = info(
        text.split_inclusive('\n').count(),
        text.split_whitespace().count(),
        text.len(),
        text.chars().count(),
    );
    assert_eq!(count(&stream(text)), Ok(expected));
}

#[test]
fn count_fails_where_reading_stopped() {
    assert_eq!(
        count(&Stream { bytes: b"a\n\xff\n".to_vec(), failure: None }),
        Err("stream did not contain valid UTF-8".to_string())
    );
    assert_eq!(
        count(&Stream { bytes: b"a\n".to_vec(), failure: Some("gone".to_string()) }),
        Err("gone".to_string())
    );
}

#[test]
fn counting_twice_gives_the_same() {
    let s = stream("a b\nc\n\u{e9}\n");
    assert_eq!(count(&s), count(&s));
}

#[test]
fn words_are_runs_without_whitespace() {
    assert_eq!(count_words(""), 0);
    assert_eq!(count_words("   "), 0);
    assert_eq!(count_words("a"), 1);
    assert_eq!(count_words(" a  b\tc\n"), 3);
    assert_eq!(count_words("a\u{a0}b\u{3000}c"), 3);
    assert_eq!(count_words("a\u{200b}b"), 1);
    assert_eq!(count_words("foo-bar, baz."), 2);
}

#[test]
fn tally_sums_over_the_lines() {
    assert_eq!(tally_lines(&strings(&["a b\n", "", "\u{e9}\n"])), info(3, 3, 7, 6));
    assert_eq!(tally_lines(&strings(&[])), info(0, 0, 0, 0));
}

#[test]
fn rows_show_the_selected_columns() {
    let i = info(1, 22, 333, 4444);
    assert_eq!(format_row(selection(true, true, true, false), &i, "f"), "       1      22     333 f");
    assert_eq!(
        format_row(selection(true, true, true, true), &i, "f"),
        "       1      22     333    4444 f"
    );
    assert_eq!(format_row(selection(false, false, false, true), &i, "f"), "    4444 f");
    assert_eq!(format_row(selection(false, true, false, true), &i, "f"), "      22    4444 f");
    assert_eq!(format_row(selection(false, false, false, false), &i, "f"), " f");
}

#[test]
fn wide_counts_keep_all_digits() {
    let i = info(123456789, 1, 1, 1);
    assert_eq!(format_row(selection(true, true, false, false), &i, "f"), "123456789       1 f");
}

#[test]
fn unopened_input_is_complained_about() {
    let input = Input { path: "gone".to_string(), opened: Err("No such file".to_string()) };
    let outcome = report(selection(true, true, true, false), &input);
    assert_eq!(outcome.stdout, "");
    assert_eq!(outcome.stderr, "Cannot open file: No such file\n");
    assert_eq!(outcome.failure, None);
}

#[test]
fn unreadable_input_is_left_out_silently() {
    let config = Config::new(strings(&["a", "b", "c"]), true, false, false, false);
    let inputs = vec![
        opened("a", "x\n"),
        Input {
            path: "b".to_string(),
            opened: Ok(Stream { bytes: b"y\n".to_vec(), failure: Some("gone".to_string()) }),
        },
        Input { path: "c".to_string(), opened: Ok(Stream { bytes: b"\xc3(".to_vec(), failure: None }) },
        Input { path: "d".to_string(), opened: Err("denied".to_string()) },
        opened("e", "1\n2\n"),
    ];
    let outcome = run(&config, &inputs);
    assert_eq!(outcome.stdout, "       1 a\n       2 e\n");
    assert_eq!(outcome.stderr, "Cannot open file: denied\n");
    assert_eq!(outcome.failure, None);
}

#[test]
fn running_twice_gives_the_same() {
    let config = Config::new(strings(&["a"]), true, true, true, true);
    let inputs = vec![opened("a", "x y\nz\n"), opened("b", "")];
    let first = run(&config, &inputs);
    let second = run(&config, &inputs);
    assert_eq!(first.stdout, second.stdout);
    assert_eq!(first.stdout, "       2       3       6       6 a\n       0       0       0       0 b\n");
}
