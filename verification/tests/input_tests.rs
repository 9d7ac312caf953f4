use rutils::input::read_lines;
use rutils::input::record_end;
use rutils::input::resolve;
use rutils::input::whole_end;
use rutils::input::Source;
use rutils::input::Stream;

fn stream(bytes: &[u8]) -> Stream {
    Stream { bytes: bytes.to_vec(), failure: None }
}

#[test]
fn hyphen_is_standard_input() {
    assert!(matches!(resolve("-"), Source::Stdin));
}

#[test]
fn other_tokens_are_files() {
    for token in ["a.txt", "--", "", "-x", "./-"] {
        match resolve(token) {
            Source::File(path) => assert_eq!(path, token),
            Source::Stdin => panic!("{} is no standard input", token),
        }
    }
}

#[test]
fn record_ends_after_the_line_feed() {
    let bytes = b"ab\ncd\n\nef";
    assert_eq!(record_end(bytes, 0), 3);
    assert_eq!(record_end(bytes, 1), 3);
    assert_eq!(record_end(bytes, 2), 3);
    assert_eq!(record_end(bytes, 3), 6);
    assert_eq!(record_end(bytes, 6), 7);
    assert_eq!(record_end(bytes, 7), 9);
}

#[test]
fn lines_keep_their_terminators() {
    let reading = read_lines(&stream(b"ab\ncd\r\n\nef"));
    assert_eq!(reading.lines, vec!["ab\n", "cd\r\n", "\n", "ef"]);
    assert_eq!(reading.failure, None);
}

#[test]
fn lines_rebuild_the_input() {
    let text = "one\ntwo\n\n\u{e9}t\u{e9}\nlast";
    let reading = read_lines(&stream(text.as_bytes()));
    assert_eq!(reading.lines.concat(), text);
}

#[test]
fn empty_stream_has_no_lines() {
    let reading = read_lines(&stream(b""));
    assert!(reading.lines.is_empty());
    assert_eq!(reading.failure, None);
}

#[test]
fn reading_stops_at_invalid_utf8() {
    let reading = read_lines(&stream(b"ok\nb\xffd\nnever\n"));
    assert_eq!(reading.lines, vec!["ok\n"]);
    assert_eq!(reading.failure, Some("stream did not contain valid UTF-8".to_string()));
}

#[test]
fn truncated_sequence_is_invalid() {
    let reading = read_lines(&stream(b"a\n\xc3"));
    assert_eq!(reading.lines, vec!["a\n"]);
    assert_eq!(reading.failure, Some("stream did not contain valid UTF-8".to_string()));
}

#[test]
fn multibyte_text_is_decoded() {
    let reading = read_lines(&stream("h\u{e9}\n\u{1F600}\n".as_bytes()));
    assert_eq!(reading.lines, vec!["h\u{e9}\n", "\u{1F600}\n"]);
}

#[test]
fn failure_after_the_bytes_is_reported_last() {
    let broken = Stream { bytes: b"a\nb\n".to_vec(), failure: Some("disk gone".to_string()) };
    let reading = read_lines(&broken);
    assert_eq!(reading.lines, vec!["a\n", "b\n"]);
    assert_eq!(reading.failure, Some("disk gone".to_string()));
}

#[test]
fn invalid_data_comes_before_a_later_failure() {
    let broken = Stream { bytes: b"a\n\xff\n".to_vec(), failure: Some("disk gone".to_string()) };
    let reading = read_lines(&broken);
    assert_eq!(reading.lines, vec!["a\n"]);
    assert_eq!(reading.failure, Some("stream did not contain valid UTF-8".to_string()));
}

#[test]
fn whole_lines_end_after_the_last_line_feed() {
    assert_eq!(whole_end(b"a\nbc\nde"), 5);
    assert_eq!(whole_end(b"a\nbc\n"), 5);
    assert_eq!(whole_end(b"abc"), 0);
    assert_eq!(whole_end(b""), 0);
    assert_eq!(whole_end(b"\n"), 1);
}

#[test]
fn a_failed_stream_delivers_whole_lines_only() {
    let broken = Stream { bytes: b"a\nb\npart".to_vec(), failure: Some("gone".to_string()) };
    let reading = read_lines(&broken);
    assert_eq!(reading.lines, vec!["a\n", "b\n"]);
    assert_eq!(reading.failure, Some("gone".to_string()));
    let broken = Stream { bytes: b"part".to_vec(), failure: Some("gone".to_string()) };
    let reading = read_lines(&broken);
    assert!(reading.lines.is_empty());
    assert_eq!(reading.failure, Some("gone".to_string()));
}

#[test]
fn a_failed_stream_hides_an_invalid_partial_line() {
    let broken = Stream { bytes: b"a\n\xffpart".to_vec(), failure: Some("gone".to_string()) };
    let reading = read_lines(&broken);
    assert_eq!(reading.lines, vec!["a\n"]);
    assert_eq!(reading.failure, Some("gone".to_string()));
}

#[test]
fn a_complete_stream_delivers_its_last_line() {
    let reading = read_lines(&stream(b"a\npart"));
    assert_eq!(reading.lines, vec!["a\n", "part"]);
    assert_eq!(reading.failure, None);
}
