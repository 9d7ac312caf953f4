//! Input paths, what was read from them, and how bytes become lines.
//!
//! The caller opens and reads; this module decides what a path token stands
//! for and turns the bytes that were read into line records.

use crate::text::to_chars;
use vstd::prelude::*;
use vstd::slice::slice_subrange;
use vstd::string::StringExecFns;
use vstd::utf8::decode_utf8;
use vstd::utf8::encode_utf8;
use vstd::utf8::valid_utf8;

verus! {

/// What a path token stands for.
pub enum Source {
    /// The standard input of the process.
    Stdin,
    /// The file at this path.
    File(String),
}

/// The token reserved for standard input is a single hyphen.
pub open spec fn is_stdin_token(token: Seq<char>) -> bool {
    token == seq!['-']
}

/// Resolves a path token: the reserved token is standard input, every other
/// token is the path of a file.
pub fn resolve(token: &str) -> (source: Source)
    ensures
        source is Stdin <==> is_stdin_token(token@),
        source matches Source::File(path) ==> path@ == token@,
{
    let chars = to_chars(token);
    if chars.len() == 1 && chars[0] == '-' {
        assert(token@ =~= seq!['-']);
        Source::Stdin
    } else {
        Source::File(token.to_owned())
    }
}

/// The bytes read from an opened input, and the cause of the read failure
/// that ended the reading, if one did.
pub struct Stream {
    pub bytes: Vec<u8>,
    pub failure: Option<String>,
}

/// One input path and what became of it: the stream that was read, or the
/// cause for which it could not be opened.
pub struct Input {
    pub path: String,
    pub opened: Result<Stream, String>,
}

/// The lines delivered by a stream before reading stopped, each with its
/// terminator, and the cause for which reading stopped early.
pub struct Reading {
    pub lines: Vec<String>,
    pub failure: Option<String>,
}

/// The text of an optional string.
pub open spec fn opt_text(o: Option<String>) -> Option<Seq<char>> {
    match o {
        Some(s) => Some(s@),
        None => None,
    }
}

/// The number of bytes in the first record of `bytes`: up to and including
/// the first line feed, or all of them where there is no line feed.
pub open spec fn record_len(bytes: Seq<u8>) -> nat
    decreases bytes.len(),
{
    if bytes.len() == 0 {
        0
    } else if bytes[0] == 10u8 {
        1
    } else {
        1 + record_len(bytes.drop_first())
    }
}

/// The first record is never longer than the bytes, and never empty unless
/// the bytes are.
pub proof fn lemma_record_len_bounds(bytes: Seq<u8>)
    ensures
        record_len(bytes) <= bytes.len(),
        bytes.len() > 0 ==> record_len(bytes) >= 1,
    decreases bytes.len(),
{
    if bytes.len() > 0 && bytes[0] != 10u8 {
        lemma_record_len_bounds(bytes.drop_first());
    }
}

/// The records of `bytes`: the bytes cut after every line feed.
pub open spec fn byte_records(bytes: Seq<u8>) -> Seq<Seq<u8>>
    decreases bytes.len(),
{
    if bytes.len() == 0 {
        Seq::empty()
    } else {
        let n = record_len(bytes) as int;
        proof {
            lemma_record_len_bounds(bytes);
        }
        seq![bytes.take(n)] + byte_records(bytes.skip(n))
    }
}

/// There are records exactly where there are bytes.
pub proof fn lemma_records_nonempty(bytes: Seq<u8>)
    ensures
        byte_records(bytes).len() > 0 <==> bytes.len() > 0,
{
}

/// The first record holds no line feed before its last byte, and ends in one
/// unless it reaches the end of the bytes.
pub proof fn lemma_first_record(bytes: Seq<u8>)
    ensures
        forall|j: int| 0 <= j < record_len(bytes) - 1 ==> bytes[j] != 10u8,
        0 < record_len(bytes) < bytes.len() ==> bytes[record_len(bytes) - 1] == 10u8,
    decreases bytes.len(),
{
    if bytes.len() > 0 && bytes[0] != 10u8 {
        let rest = bytes.drop_first();
        lemma_first_record(rest);
        lemma_record_len_bounds(rest);
        assert forall|j: int| 0 <= j < record_len(bytes) - 1 implies bytes[j] != 10u8 by {
            if j > 0 {
                assert(bytes[j] == rest[j - 1]);
            }
        }
        if 0 < record_len(bytes) < bytes.len() {
            assert(bytes[record_len(bytes) - 1] == rest[record_len(rest) - 1]);
        }
    }
}

/// The records, one after the other, are the bytes: nothing is lost and
/// nothing is added.
pub proof fn lemma_records_rebuild(bytes: Seq<u8>)
    ensures
        byte_records(bytes).flatten() == bytes,
    decreases bytes.len(),
{
    if bytes.len() > 0 {
        let n = record_len(bytes) as int;
        lemma_record_len_bounds(bytes);
        lemma_records_rebuild(bytes.skip(n));
        assert(byte_records(bytes).first() == bytes.take(n));
        assert(byte_records(bytes).drop_first() =~= byte_records(bytes.skip(n)));
        assert(bytes.take(n) + bytes.skip(n) =~= bytes);
    } else {
        assert(byte_records(bytes).flatten() =~= bytes);
    }
}

/// The shape of a record: it is not empty, it holds no line feed before its
/// last byte, and it ends in a line feed unless it is the last record.
pub proof fn lemma_record_shape(bytes: Seq<u8>, k: int)
    requires
        0 <= k < byte_records(bytes).len(),
    ensures
        byte_records(bytes)[k].len() > 0,
        forall|j: int|
            0 <= j < byte_records(bytes)[k].len() - 1 ==> byte_records(bytes)[k][j] != 10u8,
        k < byte_records(bytes).len() - 1 ==> byte_records(bytes)[k].last() == 10u8,
    decreases bytes.len(),
{
    let n = record_len(bytes) as int;
    let rest = bytes.skip(n);
    lemma_record_len_bounds(bytes);
    lemma_first_record(bytes);
    lemma_records_nonempty(rest);
    if k == 0 {
        assert(byte_records(bytes)[0] == bytes.take(n));
    } else {
        assert(byte_records(bytes)[k] == byte_records(rest)[k - 1]);
        lemma_record_shape(rest, k - 1);
    }
}

/// The number of leading records that are valid UTF-8.
pub open spec fn valid_count(records: Seq<Seq<u8>>) -> nat
    decreases records.len(),
{
    if records.len() == 0 || !valid_utf8(records[0]) {
        0
    } else {
        1 + valid_count(records.drop_first())
    }
}

/// What a reader reports for a line that is not valid UTF-8.
pub open spec fn invalid_data() -> Seq<char> {
    "stream did not contain valid UTF-8"@
}

/// The lines that a stream of `bytes` delivers: its records, decoded, up to
/// the first one that is not valid UTF-8.
pub open spec fn lines_of(bytes: Seq<u8>) -> Seq<Seq<char>> {
    let records = byte_records(bytes);
    Seq::new(valid_count(records), |i: int| decode_utf8(records[i]))
}

/// The cause for which reading a stream stops early: a record that is not
/// valid UTF-8, else the failure that followed the bytes.
pub open spec fn failure_of(bytes: Seq<u8>, failure: Option<Seq<char>>) -> Option<Seq<char>> {
    let records = byte_records(bytes);
    if valid_count(records) < records.len() {
        Some(invalid_data())
    } else {
        failure
    }
}

/// The whole lines of `bytes`: the bytes up to and including the last line
/// feed.
pub open spec fn whole_lines(bytes: Seq<u8>) -> Seq<u8>
    decreases bytes.len(),
{
    if bytes.len() == 0 || bytes.last() == 10u8 {
        bytes
    } else {
        whole_lines(bytes.drop_last())
    }
}

/// The bytes that a stream delivers as lines: all of them, or, where the
/// reading failed, its whole lines, since the failure came in the middle of
/// what follows them.
pub open spec fn delivered(stream: Stream) -> Seq<u8> {
    if stream.failure is Some {
        whole_lines(stream.bytes@)
    } else {
        stream.bytes@
    }
}

/// The lines that a stream delivers.
pub open spec fn stream_lines(stream: Stream) -> Seq<Seq<char>> {
    lines_of(delivered(stream))
}

/// The cause for which reading a stream stops early.
pub open spec fn stream_failure(stream: Stream) -> Option<Seq<char>> {
    failure_of(delivered(stream), opt_text(stream.failure))
}

/// The number of bytes that the lines take in UTF-8.
pub open spec fn total_bytes(lines: Seq<Seq<char>>) -> nat
    decreases lines.len(),
{
    if lines.len() == 0 {
        0
    } else {
        total_bytes(lines.drop_last()) + encode_utf8(lines.last()).len()
    }
}

/// A record that starts with `k` bytes other than line feeds ends with the
/// line feed that follows them, or with the bytes.
proof fn lemma_record_len_scan(bytes: Seq<u8>, k: int)
    requires
        0 <= k <= bytes.len(),
        forall|i: int| 0 <= i < k ==> bytes[i] != 10u8,
        k < bytes.len() ==> bytes[k] == 10u8,
    ensures
        record_len(bytes) == if k < bytes.len() {
            k + 1
        } else {
            k
        },
    decreases k,
{
    if k > 0 {
        let rest = bytes.drop_first();
        assert forall|i: int| 0 <= i < k - 1 implies rest[i] != 10u8 by {
            assert(rest[i] == bytes[i + 1]);
        }
        lemma_record_len_scan(rest, k - 1);
    }
}

/// Where `k` records are valid and the next one, if any, is not, `k` is the
/// number of leading valid records.
proof fn lemma_valid_count(records: Seq<Seq<u8>>, k: int)
    requires
        0 <= k <= records.len(),
        forall|i: int| 0 <= i < k ==> valid_utf8(#[trigger] records[i]),
        k < records.len() ==> !valid_utf8(records[k]),
    ensures
        valid_count(records) == k,
    decreases k,
{
    if k > 0 {
        let rest = records.drop_first();
        assert forall|i: int| 0 <= i < k - 1 implies valid_utf8(#[trigger] rest[i]) by {
            assert(rest[i] == records[i + 1]);
        }
        lemma_valid_count(rest, k - 1);
    }
}

/// The end of the record that starts at `start`.
pub fn record_end(bytes: &[u8], start: usize) -> (end: usize)
    requires
        start < bytes@.len(),
    ensures
        start < end <= bytes@.len(),
        end - start == record_len(bytes@.skip(start as int)),
{
    let mut end: usize = start;
    while end < bytes.len() && bytes[end] != 10
        invariant
            start <= end <= bytes@.len(),
            forall|i: int| start <= i < end ==> bytes@[i] != 10u8,
        decreases bytes@.len() - end,
    {
        end += 1;
    }
    proof {
        lemma_record_len_scan(bytes@.skip(start as int), end - start);
    }
    if end < bytes.len() {
        end += 1;
    }
    end
}

/// `std::str::from_utf8` of the standard library: the bytes are accepted
/// exactly when they are valid UTF-8, and the text is then their decoding.
#[verifier::external_body]
fn decode<'a>(bytes: &'a [u8]) -> (text: Option<&'a str>)
    ensures
        text is Some <==> valid_utf8(bytes@),
        text matches Some(s) ==> s@ == decode_utf8(bytes@),
{
    std::str::from_utf8(bytes).ok()
}

/// Reads the lines of some bytes: the records in order, decoded, until one is
/// not valid UTF-8; the failure that followed the bytes is reported after the
/// last line.
fn read_records(bytes: &[u8], failure: &Option<String>) -> (reading: Reading)
    ensures
        reading.lines.deep_view() == lines_of(bytes@),
        opt_text(reading.failure) == failure_of(bytes@, opt_text(*failure)),
        total_bytes(reading.lines.deep_view()) <= bytes@.len(),
        failure_of(bytes@, None) is None ==> total_bytes(reading.lines.deep_view())
            == bytes@.len(),
{
    let mut lines: Vec<String> = Vec::new();
    let mut pos: usize = 0;
    let ghost mut done: Seq<Seq<u8>> = Seq::empty();
    assert(bytes@.skip(0) =~= bytes@);
    assert(lines.deep_view() =~= Seq::new(done.len(), |i: int| decode_utf8(done[i])));
    while pos < bytes.len()
        invariant
            pos <= bytes@.len(),
            byte_records(bytes@) == done + byte_records(bytes@.skip(pos as int)),
            forall|i: int| 0 <= i < done.len() ==> valid_utf8(#[trigger] done[i]),
            lines.deep_view() == Seq::new(done.len(), |i: int| decode_utf8(done[i])),
            total_bytes(lines.deep_view()) == pos,
        decreases bytes@.len() - pos,
    {
        let end = record_end(bytes, pos);
        let record = slice_subrange(bytes, pos, end);
        let ghost rest = bytes@.skip(pos as int);
        let ghost records = byte_records(bytes@);
        proof {
            assert(rest.take(end - pos) =~= record@);
            assert(rest.skip(end - pos) =~= bytes@.skip(end as int));
            assert(records =~= done.push(record@) + byte_records(bytes@.skip(end as int)));
            assert(records[done.len() as int] == record@);
        }
        match decode(record) {
            None => {
                proof {
                    lemma_valid_count(records, done.len() as int);
                    assert(lines.deep_view() =~= lines_of(bytes@));
                }
                return Reading {
                    lines,
                    failure: Some(String::from_str("stream did not contain valid UTF-8")),
                };
            },
            Some(text) => {
                let ghost before = lines.deep_view();
                lines.push(text.to_owned());
                proof {
                    vstd::utf8::decode_utf8_encode_utf8(record@);
                    done = done.push(record@);
                    assert(lines.deep_view() =~= before.push(text@));
                    assert(lines.deep_view().drop_last() =~= before);
                    assert(lines.deep_view() =~= Seq::new(
                        done.len(),
                        |i: int| decode_utf8(done[i]),
                    ));
                }
                pos = end;
            },
        }
    }
    proof {
        let records = byte_records(bytes@);
        assert(records =~= done);
        lemma_valid_count(records, done.len() as int);
        assert(lines.deep_view() =~= lines_of(bytes@));
    }
    let failure = match failure {
        Some(cause) => Some(cause.clone()),
        None => None,
    };
    Reading { lines, failure }
}

/// The end of the whole lines: the position after the last line feed.
pub fn whole_end(bytes: &[u8]) -> (end: usize)
    ensures
        end <= bytes@.len(),
        bytes@.take(end as int) == whole_lines(bytes@),
{
    let mut end: usize = bytes.len();
    assert(bytes@.take(end as int) =~= bytes@);
    while end > 0 && bytes[end - 1] != 10
        invariant
            end <= bytes@.len(),
            whole_lines(bytes@) == whole_lines(bytes@.take(end as int)),
        decreases end,
    {
        assert(bytes@.take(end as int).drop_last() =~= bytes@.take(end - 1));
        end -= 1;
    }
    end
}

/// Reads the lines of a stream: the records of what it delivers, in order,
/// decoded, until one is not valid UTF-8. Of a stream that failed, a last
/// line without its line feed is not delivered. The failure that followed
/// the bytes is reported after the last line.
pub fn read_lines(stream: &Stream) -> (reading: Reading)
    ensures
        reading.lines.deep_view() == stream_lines(*stream),
        opt_text(reading.failure) == stream_failure(*stream),
        total_bytes(reading.lines.deep_view()) <= stream.bytes@.len(),
        stream_failure(*stream) is None ==> total_bytes(reading.lines.deep_view())
            == stream.bytes@.len(),
{
    let bytes = stream.bytes.as_slice();
    let end = if stream.failure.is_some() {
        whole_end(bytes)
    } else {
        bytes.len()
    };
    assert(bytes@.take(end as int) =~= delivered(*stream));
    read_records(slice_subrange(bytes, 0, end), &stream.failure)
}

} // verus!
