//! The counter: lines, words, bytes and characters of each input, with
//! selectable columns.

use crate::input::read_lines;
use crate::input::stream_failure;
use crate::input::stream_lines;
use crate::input::total_bytes;
use crate::input::Input;
use crate::input::Stream;
use crate::report::combine;
use crate::report::Outcome;
use crate::report::OutcomeView;
use crate::text::decimal;
use crate::text::is_space;
use crate::text::is_whitespace;
use crate::text::lemma_chars_within_bytes;
use crate::text::push_number;
use crate::text::right_aligned;
use crate::text::to_chars;
use vstd::prelude::*;
use vstd::string::StringExecFns;
use vstd::string::StringSliceAdditionalSpecFns;
use vstd::utf8::encode_utf8;

verus! {

/// Which counts are shown.
#[derive(Clone, Copy, Debug, PartialEq, Eq, Structural)]
pub struct Selection {
    pub lines: bool,
    pub words: bool,
    pub bytes: bool,
    pub chars: bool,
}

/// The selection in force: with nothing selected, lines, words and bytes are
/// shown; else what was selected.
pub open spec fn effective_selection(asked: Selection) -> Selection {
    if !asked.lines && !asked.words && !asked.bytes && !asked.chars {
        Selection { lines: true, words: true, bytes: true, chars: false }
    } else {
        asked
    }
}

/// The inputs to count and the counts to show.
pub struct Config {
    file: Vec<String>,
    lines: bool,
    words: bool,
    bytes: bool,
    chars: bool,
}

impl Config {
    /// The input paths, in order.
    pub closed spec fn file_texts(&self) -> Seq<Seq<char>> {
        self.file.deep_view()
    }

    /// The counts that are shown.
    pub closed spec fn shown(&self) -> Selection {
        Selection { lines: self.lines, words: self.words, bytes: self.bytes, chars: self.chars }
    }

    /// Builds the configuration from the input paths and the four selectors
    /// of the command line.
    pub fn new(file: Vec<String>, lines: bool, words: bool, bytes: bool, chars: bool) -> (config:
        Config)
        ensures
            config.file_texts() == file.deep_view(),
            config.shown() == effective_selection(Selection { lines, words, bytes, chars }),
    {
        if !lines && !words && !bytes && !chars {
            Config { file, lines: true, words: true, bytes: true, chars: false }
        } else {
            Config { file, lines, words, bytes, chars }
        }
    }

    /// The input paths, in order.
    pub fn files(&self) -> (file: &Vec<String>)
        ensures
            file.deep_view() == self.file_texts(),
    {
        &self.file
    }

    /// The counts that are shown.
    pub fn selection(&self) -> (selection: Selection)
        ensures
            selection == self.shown(),
    {
        Selection { lines: self.lines, words: self.words, bytes: self.bytes, chars: self.chars }
    }
}

/// The four counts of one input.
#[derive(Clone, Copy, Debug, PartialEq, Eq, Structural)]
pub struct FileInfo {
    pub num_lines: usize,
    pub num_words: usize,
    pub num_bytes: usize,
    pub num_chars: usize,
}

/// The four counts as natural numbers.
pub struct Tally {
    pub lines: nat,
    pub words: nat,
    pub bytes: nat,
    pub chars: nat,
}

impl View for FileInfo {
    type V = Tally;

    open spec fn view(&self) -> Tally {
        Tally {
            lines: self.num_lines as nat,
            words: self.num_words as nat,
            bytes: self.num_bytes as nat,
            chars: self.num_chars as nat,
        }
    }
}

/// A word starts at a character that is no whitespace and that stands first
/// or after whitespace.
pub open spec fn is_word_start(text: Seq<char>, i: int) -> bool {
    !is_whitespace(text[i]) && (i == 0 || is_whitespace(text[i - 1]))
}

/// The number of words that start among the first `n` characters.
pub open spec fn word_starts(text: Seq<char>, n: nat) -> nat
    decreases n,
{
    if n == 0 {
        0
    } else {
        word_starts(text, (n - 1) as nat) + if is_word_start(text, n - 1) {
            1nat
        } else {
            0nat
        }
    }
}

/// The number of words in `text`: its maximal runs of characters that are no
/// whitespace.
pub open spec fn word_count(text: Seq<char>) -> nat {
    word_starts(text, text.len())
}

/// The counts of the given lines: one line each, and the sums of their
/// words, of their bytes in UTF-8, and of their characters.
pub open spec fn tally(lines: Seq<Seq<char>>) -> Tally
    decreases lines.len(),
{
    if lines.len() == 0 {
        Tally { lines: 0, words: 0, bytes: 0, chars: 0 }
    } else {
        let before = tally(lines.drop_last());
        let line = lines.last();
        Tally {
            lines: before.lines + 1,
            words: before.words + word_count(line),
            bytes: before.bytes + encode_utf8(line).len(),
            chars: before.chars + line.len(),
        }
    }
}

/// No more words start than there are characters.
pub proof fn lemma_word_starts_bound(text: Seq<char>, n: nat)
    ensures
        word_starts(text, n) <= n,
    decreases n,
{
    if n > 0 {
        lemma_word_starts_bound(text, (n - 1) as nat);
    }
}

/// The counts are ordered: words within characters, characters within
/// bytes, and the bytes are those of the lines.
pub proof fn lemma_tally_bounds(lines: Seq<Seq<char>>)
    ensures
        tally(lines).lines == lines.len(),
        tally(lines).words <= tally(lines).chars,
        tally(lines).chars <= tally(lines).bytes,
        tally(lines).bytes == total_bytes(lines),
    decreases lines.len(),
{
    if lines.len() > 0 {
        lemma_tally_bounds(lines.drop_last());
        lemma_word_starts_bound(lines.last(), lines.last().len());
        lemma_chars_within_bytes(lines.last());
    }
}

/// The first lines take no more bytes than all of them.
proof fn lemma_total_bytes_prefix(lines: Seq<Seq<char>>, n: int)
    requires
        0 <= n <= lines.len(),
    ensures
        total_bytes(lines.take(n)) <= total_bytes(lines),
    decreases lines.len(),
{
    if n == lines.len() {
        assert(lines.take(n) =~= lines);
    } else {
        assert(lines.drop_last().take(n) =~= lines.take(n));
        lemma_total_bytes_prefix(lines.drop_last(), n);
    }
}

/// Counts the words of `text`.
pub fn count_words(text: &str) -> (words: usize)
    ensures
        words == word_count(text@),
{
    let chars = to_chars(text);
    let mut words: usize = 0;
    let mut after_space = true;
    let mut i: usize = 0;
    while i < chars.len()
        invariant
            i <= chars.len(),
            chars@ == text@,
            words == word_starts(text@, i as nat),
            words <= i,
            after_space == (i == 0 || is_whitespace(text@[i - 1])),
        decreases chars.len() - i,
    {
        let space = is_space(chars[i]);
        if !space && after_space {
            words += 1;
        }
        after_space = space;
        i += 1;
    }
    words
}

/// Counts the given lines.
pub fn tally_lines(lines: &Vec<String>) -> (info: FileInfo)
    requires
        total_bytes(lines.deep_view()) <= usize::MAX,
    ensures
        info@ == tally(lines.deep_view()),
{
    let ghost all = lines.deep_view();
    let mut info = FileInfo { num_lines: 0, num_words: 0, num_bytes: 0, num_chars: 0 };
    let mut i: usize = 0;
    while i < lines.len()
        invariant
            i <= lines.len(),
            all == lines.deep_view(),
            total_bytes(all) <= usize::MAX,
            info@ == tally(all.take(i as int)),
        decreases lines.len() - i,
    {
        let ghost before = all.take(i as int);
        let ghost after = all.take(i + 1);
        let line = lines[i].as_str();
        proof {
            assert(after.drop_last() =~= before);
            assert(after.last() == line@);
            lemma_total_bytes_prefix(all, i + 1);
            lemma_tally_bounds(after);
        }
        let words = count_words(line);
        let bytes = line.as_bytes().len();
        let chars = line.unicode_len();
        info = FileInfo {
            num_lines: info.num_lines + 1,
            num_words: info.num_words + words,
            num_bytes: info.num_bytes + bytes,
            num_chars: info.num_chars + chars,
        };
        i += 1;
    }
    assert(all.take(i as int) =~= all);
    info
}

/// What counting a stream gives: the counts of its lines, or the
/// cause for which reading stopped early.
pub open spec fn counted(stream: Stream) -> Result<Tally, Seq<char>> {
    match stream_failure(stream) {
        Some(cause) => Err(cause),
        None => Ok(tally(stream_lines(stream))),
    }
}

/// Counts the lines, words, bytes and characters of a stream. A stream whose
/// reading stopped early has no counts.
pub fn count(stream: &Stream) -> (result: Result<FileInfo, String>)
    ensures
        match result {
            Ok(info) => counted(*stream) == Ok::<
                Tally,
                Seq<char>,
            >(info@),
            Err(cause) => counted(*stream) == Err::<
                Tally,
                Seq<char>,
            >(cause@),
        },
        result matches Ok(info) ==> info.num_bytes == stream.bytes@.len(),
{
    let reading = read_lines(stream);
    match reading.failure {
        Some(cause) => Err(cause),
        None => {
            assert(stream.bytes@.len() <= usize::MAX) by {
                vstd::std_specs::vec::axiom_spec_len(&stream.bytes);
            }
            proof {
                lemma_tally_bounds(reading.lines.deep_view());
            }
            Ok(tally_lines(&reading.lines))
        },
    }
}

/// One column of a row: the count in a field of eight characters where it
/// is shown, nothing where it is not.
pub open spec fn column(shown: bool, value: nat) -> Seq<char> {
    if shown {
        right_aligned(decimal(value), 8)
    } else {
        Seq::empty()
    }
}

/// The row for one input: the shown counts in the order lines, words,
/// bytes, characters, then a space and the input's name.
pub open spec fn row(shown: Selection, counts: Tally, name: Seq<char>) -> Seq<char> {
    column(shown.lines, counts.lines) + column(shown.words, counts.words) + column(
        shown.bytes,
        counts.bytes,
    ) + column(shown.chars, counts.chars) + seq![' '] + name
}

/// The row for one input.
pub fn format_row(shown: Selection, info: &FileInfo, name: &str) -> (text: String)
    ensures
        text@ == row(shown, info@, name@),
{
    let mut text = String::new();
    if shown.lines {
        push_number(&mut text, info.num_lines, 8);
    }
    if shown.words {
        push_number(&mut text, info.num_words, 8);
    }
    if shown.bytes {
        push_number(&mut text, info.num_bytes, 8);
    }
    if shown.chars {
        push_number(&mut text, info.num_chars, 8);
    }
    text.push(' ');
    text.append(name);
    assert(text@ =~= row(shown, info@, name@));
    text
}

/// What one input contributes: a complaint where it could not be opened,
/// its row where it was counted, nothing where its reading stopped early.
pub open spec fn file_outcome(shown: Selection, input: Input) -> OutcomeView {
    match input.opened {
        Err(cause) => OutcomeView {
            stdout: Seq::empty(),
            stderr: "Cannot open file: "@ + cause@.push('\n'),
            failure: None,
        },
        Ok(stream) => match counted(stream) {
            Ok(counts) => OutcomeView {
                stdout: row(shown, counts, input.path@).push('\n'),
                stderr: Seq::empty(),
                failure: None,
            },
            Err(_) => OutcomeView::empty(),
        },
    }
}

/// What a run over the inputs writes.
pub open spec fn run_outcome(shown: Selection, inputs: Seq<Input>) -> OutcomeView {
    combine(Seq::new(inputs.len(), |i: int| file_outcome(shown, inputs[i])))
}

/// Reports on one input.
pub fn report(shown: Selection, input: &Input) -> (outcome: Outcome)
    ensures
        outcome@ == file_outcome(shown, *input),
{
    let mut outcome = Outcome::new();
    match &input.opened {
        Err(cause) => {
            outcome.stderr.append("Cannot open file: ");
            outcome.stderr.append(cause.as_str());
            outcome.stderr.push('\n');
            assert(outcome.stderr@ =~= "Cannot open file: "@ + cause@.push('\n'));
        },
        Ok(stream) => {
            match count(stream) {
                Ok(info) => {
                    let line = format_row(shown, &info, input.path.as_str());
                    outcome.stdout.append(line.as_str());
                    outcome.stdout.push('\n');
                    assert(outcome.stdout@ =~= line@.push('\n'));
                },
                Err(_) => {},
            }
        },
    }
    outcome
}

/// Counts every input, in order. An input that could not be opened is
/// reported on the diagnostic channel and skipped; one whose reading stopped
/// early is left out without a word. Nothing ends the run.
pub fn run(config: &Config, inputs: &Vec<Input>) -> (outcome: Outcome)
    ensures
        outcome@ == run_outcome(config.shown(), inputs@),
        outcome.failure is None,
{
    let shown = config.selection();
    let ghost parts = Seq::new(inputs.len() as nat, |i: int| file_outcome(shown, inputs[i]));
    let mut outcome = Outcome::new();
    let mut i: usize = 0;
    assert(parts.take(0) =~= Seq::empty());
    while i < inputs.len()
        invariant
            i <= inputs.len(),
            parts == Seq::new(inputs.len() as nat, |i: int| file_outcome(shown, inputs[i])),
            outcome@ == combine(parts.take(i as int)),
            outcome.failure is None,
        decreases inputs.len() - i,
    {
        let part = report(shown, &inputs[i]);
        assert(parts.take(i + 1).drop_last() =~= parts.take(i as int));
        assert(parts.take(i + 1).last() == part@);
        outcome.absorb(part);
        i += 1;
    }
    assert(parts.take(i as int) =~= parts);
    outcome
}

/// Counting is repeatable: the counts depend on what the stream holds, and
/// on nothing else.
pub proof fn lemma_count_repeatable(
    stream: Stream,
    first: Result<FileInfo, String>,
    second: Result<FileInfo, String>,
)
    requires
        first matches Ok(info) ==> counted(stream) == Ok::<
            Tally,
            Seq<char>,
        >(info@),
        first matches Err(cause) ==> counted(stream) == Err::<
            Tally,
            Seq<char>,
        >(cause@),
        second matches Ok(info) ==> counted(stream) == Ok::<
            Tally,
            Seq<char>,
        >(info@),
        second matches Err(cause) ==> counted(stream) == Err::<
            Tally,
            Seq<char>,
        >(cause@),
    ensures
        first is Ok <==> second is Ok,
        first matches Ok(a) ==> second matches Ok(b) && a == b,
        first matches Err(a) ==> second matches Err(b) && a@ == b@,
{
}

} // verus!
