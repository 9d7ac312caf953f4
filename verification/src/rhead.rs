//! The bounded head reader: of each input, the first lines up to a limit, or
//! the first bytes up to a limit.

use crate::error::ConfigError;
use crate::input::opt_text;
use crate::input::read_lines;
use crate::input::stream_failure;
use crate::input::stream_lines;
use crate::input::Input;
use crate::input::Stream;
use crate::report::combine;
use crate::report::Outcome;
use crate::report::OutcomeView;
use crate::text::concat;
use crate::text::to_chars;
use vstd::prelude::*;
use vstd::slice::slice_subrange;
use vstd::string::StringExecFns;
use vstd::utf8::decode_utf8;
use vstd::utf8::encode_utf8;
use vstd::utf8::valid_utf8;

verus! {

/// The decimal digits.
pub open spec fn is_digit(c: char) -> bool {
    48 <= c as u32 <= 57
}

/// The value of a decimal digit.
pub open spec fn digit_value(c: char) -> nat {
    (c as u32 - 48) as nat
}

/// The value of a run of decimal digits.
pub open spec fn digits_value(digits: Seq<char>) -> nat
    decreases digits.len(),
{
    if digits.len() == 0 {
        0
    } else {
        digits_value(digits.drop_last()) * 10 + digit_value(digits.last())
    }
}

/// Every character is a decimal digit.
pub open spec fn all_digits(digits: Seq<char>) -> bool {
    forall|i: int| 0 <= i < digits.len() ==> is_digit(#[trigger] digits[i])
}

/// The digits of a numeral: the text without the plus sign that may lead it.
pub open spec fn numeral_digits(text: Seq<char>) -> Seq<char> {
    if text.len() > 0 && text[0] == '+' {
        text.drop_first()
    } else {
        text
    }
}

/// The positive integer that `text` denotes: one or more decimal digits,
/// after an optional plus sign, with a value above zero that a `usize`
/// holds.
pub open spec fn positive_int(text: Seq<char>) -> Option<nat> {
    let digits = numeral_digits(text);
    if digits.len() > 0 && all_digits(digits) && 0 < digits_value(digits) <= usize::MAX {
        Some(digits_value(digits))
    } else {
        None
    }
}

/// The value of the first digits is no more than the value of all.
proof fn lemma_value_grows(digits: Seq<char>, k: int)
    requires
        0 <= k <= digits.len(),
    ensures
        digits_value(digits.take(k)) <= digits_value(digits),
    decreases digits.len() - k,
{
    if k == digits.len() {
        assert(digits.take(k) =~= digits);
    } else {
        assert(digits.take(k + 1).drop_last() =~= digits.take(k));
        lemma_value_grows(digits, k + 1);
    }
}

/// Reads a positive integer. Any other text is handed back as the error.
pub fn parse_positive_int(val: &str) -> (parsed: Result<usize, String>)
    ensures
        match parsed {
            Ok(n) => positive_int(val@) == Some(n as nat),
            Err(refused) => positive_int(val@) is None && refused@ == val@,
        },
{
    let chars = to_chars(val);
    let start: usize = if chars.len() > 0 && chars[0] == '+' {
        1
    } else {
        0
    };
    let ghost digits = numeral_digits(val@);
    assert(digits =~= chars@.skip(start as int));
    let mut n: usize = 0;
    let mut i: usize = start;
    assert(digits.take(0) =~= Seq::empty());
    while i < chars.len()
        invariant
            start <= i <= chars.len(),
            chars@ == val@,
            digits == numeral_digits(val@),
            digits == chars@.skip(start as int),
            all_digits(digits.take(i - start)),
            n == digits_value(digits.take(i - start)),
        decreases chars.len() - i,
    {
        let ghost k = i - start;
        let u: u32 = chars[i] as u32;
        assert(digits[k] == chars[i as int]);
        if u < 48 || u > 57 {
            assert(!is_digit(digits[k]));
            return Err(val.to_owned());
        }
        let digit: usize = (u - 48) as usize;
        proof {
            assert(digits.take(k + 1).drop_last() =~= digits.take(k));
            assert(digits.take(k + 1).last() == digits[k]);
            assert(digits_value(digits.take(k + 1)) == n * 10 + digit);
            lemma_value_grows(digits, k + 1);
        }
        let grown = match n.checked_mul(10) {
            Some(tens) => tens.checked_add(digit),
            None => None,
        };
        match grown {
            Some(value) => {
                n = value;
            },
            None => {
                return Err(val.to_owned());
            },
        }
        i += 1;
    }
    assert(digits.take(i - start) =~= digits);
    if n == 0 {
        Err(val.to_owned())
    } else {
        Ok(n)
    }
}

/// The text of an optional string slice.
pub open spec fn text_of(o: Option<&str>) -> Option<Seq<char>> {
    match o {
        Some(s) => Some(s@),
        None => None,
    }
}

/// The line limit where none is given.
pub const DEFAULT_LINES: usize = 10;

/// The line limit that the text of the command line sets: the default where
/// no text is given.
pub open spec fn line_limit_of(lines: Option<Seq<char>>) -> Option<nat> {
    match lines {
        Some(text) => positive_int(text),
        None => Some(DEFAULT_LINES as nat),
    }
}

/// The inputs to read and the limit: the byte limit where there is one,
/// else the line limit.
pub struct Config {
    files: Vec<String>,
    lines: usize,
    bytes: Option<usize>,
}

impl Config {
    #[verifier::type_invariant]
    spec fn well_formed(&self) -> bool {
        self.lines > 0 && (self.bytes matches Some(n) ==> n > 0)
    }

    /// The input paths, in order.
    pub closed spec fn file_texts(&self) -> Seq<Seq<char>> {
        self.files.deep_view()
    }

    /// The line limit.
    pub closed spec fn line_limit(&self) -> nat {
        self.lines as nat
    }

    /// The byte limit, where there is one.
    pub closed spec fn byte_limit(&self) -> Option<nat> {
        match self.bytes {
            Some(n) => Some(n as nat),
            None => None,
        }
    }

    /// Builds the configuration from the input paths and the texts of the
    /// two limits of the command line. Without a line count the line limit
    /// is ten. A line count that is no positive integer is refused; with the
    /// line count accepted, a byte count that is no positive integer is
    /// refused.
    pub fn new(files: Vec<String>, lines: Option<&str>, bytes: Option<&str>) -> (made: Result<
        Config,
        ConfigError,
    >)
        ensures
            match made {
                Ok(config) => {
                    &&& config.file_texts() == files.deep_view()
                    &&& line_limit_of(text_of(lines)) == Some(config.line_limit())
                    &&& match bytes {
                        Some(text) => config.byte_limit() is Some && positive_int(text@)
                            == config.byte_limit(),
                        None => config.byte_limit() is None,
                    }
                },
                Err(error) => if line_limit_of(text_of(lines)) is None {
                    lines matches Some(text) && error.is_illegal_line_count(text@)
                } else {
                    bytes matches Some(text) && positive_int(text@) is None
                        && error.is_illegal_byte_count(text@)
                },
            },
    {
        let line_limit = match lines {
            Some(text) => match parse_positive_int(text) {
                Ok(n) => n,
                Err(refused) => {
                    return Err(ConfigError::IllegalLineCount(refused));
                },
            },
            None => DEFAULT_LINES,
        };
        let byte_limit = match bytes {
            Some(text) => match parse_positive_int(text) {
                Ok(n) => Some(n),
                Err(refused) => {
                    return Err(ConfigError::IllegalByteCount(refused));
                },
            },
            None => None,
        };
        Ok(Config { files, lines: line_limit, bytes: byte_limit })
    }

    /// The input paths, in order.
    pub fn files(&self) -> (files: &Vec<String>)
        ensures
            files.deep_view() == self.file_texts(),
    {
        &self.files
    }

    /// The line limit, which is positive.
    pub fn lines(&self) -> (limit: usize)
        ensures
            limit == self.line_limit(),
            limit > 0,
    {
        proof {
            use_type_invariant(self);
        }
        self.lines
    }

    /// The byte limit, which is positive, where there is one.
    pub fn bytes(&self) -> (limit: Option<usize>)
        ensures
            self.byte_limit() == match limit {
                Some(n) => Some(n as nat),
                None => None,
            },
            limit matches Some(n) ==> n > 0,
    {
        proof {
            use_type_invariant(self);
        }
        self.bytes
    }
}

/// The header of an input: its name between arrows, after an empty line
/// where it is not the first header.
pub open spec fn header(name: Seq<char>, separated: bool) -> Seq<char> {
    (if separated {
        seq!['\n']
    } else {
        Seq::empty()
    }) + "==> "@ + name + " <=="@ + seq!['\n']
}

/// The header of an input.
pub fn format_header(name: &str, separated: bool) -> (text: String)
    ensures
        text@ == header(name@, separated),
{
    let mut text = String::new();
    if separated {
        text.push('\n');
    }
    text.append("==> ");
    text.append(name);
    text.append(" <==");
    text.push('\n');
    assert(text@ =~= header(name@, separated));
    text
}

/// The smaller of the limit and the length.
pub open spec fn within(limit: nat, len: nat) -> int {
    if limit < len {
        limit as int
    } else {
        len as int
    }
}

/// The first lines, up to `limit` of them.
pub fn first_lines(lines: &Vec<String>, limit: usize) -> (taken: Vec<String>)
    ensures
        taken.deep_view() == lines.deep_view().take(within(limit as nat, lines.len() as nat)),
        taken.len() <= limit,
{
    let end = if limit < lines.len() {
        limit
    } else {
        lines.len()
    };
    let mut taken: Vec<String> = Vec::new();
    let mut i: usize = 0;
    while i < end
        invariant
            i <= end <= lines.len(),
            taken.len() == i,
            forall|j: int| 0 <= j < i ==> (#[trigger] taken[j])@ == lines[j]@,
        decreases end - i,
    {
        taken.push(lines[i].clone());
        i += 1;
    }
    assert(taken.deep_view() =~= lines.deep_view().take(end as int));
    taken
}

/// The first bytes, up to `limit` of them.
pub fn first_bytes(bytes: &[u8], limit: usize) -> (chunk: &[u8])
    ensures
        chunk@ == bytes@.take(within(limit as nat, bytes@.len())),
        chunk@.len() <= limit,
{
    let end = if limit < bytes.len() {
        limit
    } else {
        bytes.len()
    };
    slice_subrange(bytes, 0, end)
}

/// What `String::from_utf8_lossy` makes of `bytes`.
pub uninterp spec fn utf8_lossy(bytes: Seq<u8>) -> Seq<char>;

/// `String::from_utf8_lossy` of the standard library: the text depends on
/// the bytes alone, and valid UTF-8 is decoded as it is.
#[verifier::external_body]
fn decode_lossy(bytes: &[u8]) -> (text: String)
    ensures
        text@ == utf8_lossy(bytes@),
        valid_utf8(bytes@) ==> text@ == decode_utf8(bytes@),
{
    String::from_utf8_lossy(bytes).into_owned()
}

/// The lenient decoding of `bytes`: valid UTF-8 is decoded as it is, and
/// anything else is what `String::from_utf8_lossy` makes of it.
pub open spec fn lenient(bytes: Seq<u8>) -> Seq<char> {
    if valid_utf8(bytes) {
        decode_utf8(bytes)
    } else {
        utf8_lossy(bytes)
    }
}

/// The text of the first bytes, up to `limit` of them, decoded leniently.
pub fn chunk_text(bytes: &[u8], limit: usize) -> (text: String)
    ensures
        text@ == lenient(bytes@.take(within(limit as nat, bytes@.len()))),
{
    decode_lossy(first_bytes(bytes, limit))
}

/// Lines one after the other, with nothing between them.
pub fn write_raw(lines: &Vec<String>) -> (text: String)
    ensures
        text@ == concat(lines.deep_view()),
{
    let mut text = String::new();
    let mut i: usize = 0;
    while i < lines.len()
        invariant
            i <= lines.len(),
            text@ == concat(lines.deep_view().take(i as int)),
        decreases lines.len() - i,
    {
        let ghost after = lines.deep_view().take(i + 1);
        assert(after.drop_last() =~= lines.deep_view().take(i as int));
        assert(after.last() == lines[i as int]@);
        text.append(lines[i].as_str());
        i += 1;
    }
    assert(lines.deep_view().take(i as int) =~= lines.deep_view());
    text
}

/// What is printed of an opened input, after its header. With a byte limit:
/// the first bytes as one chunk, decoded leniently, and nothing after them;
/// a stream that failed before it gave a byte ends the run. Without: the
/// first lines as they were read; a read failure met before the limit ends
/// the run, after the lines that were read.
pub open spec fn head_outcome(line_limit: nat, byte_limit: Option<nat>, stream: Stream)
    -> OutcomeView {
    match byte_limit {
        Some(limit) => if stream.bytes@.len() == 0 && stream.failure is Some {
            OutcomeView {
                stdout: Seq::empty(),
                stderr: Seq::empty(),
                failure: opt_text(stream.failure),
            }
        } else {
            OutcomeView {
                stdout: lenient(stream.bytes@.take(within(limit, stream.bytes@.len()))),
                stderr: Seq::empty(),
                failure: None,
            }
        },
        None => {
            let lines = stream_lines(stream);
            OutcomeView {
                stdout: concat(lines.take(within(line_limit, lines.len()))),
                stderr: Seq::empty(),
                failure: if lines.len() < line_limit {
                    stream_failure(stream)
                } else {
                    None
                },
            }
        },
    }
}

/// The head of an input stays within the limit. With a line limit, what is
/// printed is the first lines of the input, no more of them than the limit.
/// With a byte limit, what is printed is the first bytes of the input, no
/// more of them than the limit, wherever those bytes are valid UTF-8.
pub proof fn lemma_head_within_limit(line_limit: nat, byte_limit: Option<nat>, stream: Stream)
    ensures
        match byte_limit {
            Some(limit) => {
                let chunk = stream.bytes@.take(within(limit, stream.bytes@.len()));
                let printed = head_outcome(line_limit, byte_limit, stream).stdout;
                valid_utf8(chunk) ==> encode_utf8(printed).len() <= limit && (printed.len() > 0
                    ==> encode_utf8(printed) == chunk)
            },
            None => exists|k: int|
                0 <= k <= line_limit && head_outcome(line_limit, byte_limit, stream).stdout
                    == concat(#[trigger] stream_lines(stream).take(k)),
        },
{
    match byte_limit {
        Some(limit) => {
            let chunk = stream.bytes@.take(within(limit, stream.bytes@.len()));
            if valid_utf8(chunk) {
                vstd::utf8::decode_utf8_encode_utf8(chunk);
            }
        },
        None => {
            let lines = stream_lines(stream);
            let k = within(line_limit, lines.len());
            assert(head_outcome(line_limit, byte_limit, stream).stdout == concat(lines.take(k)));
        },
    }
}

/// What one input contributes: a complaint where it could not be opened;
/// else its header, where there are `several` inputs, and its head. The
/// header stands apart from what was printed before where an earlier input
/// was `headed`.
pub open spec fn input_outcome(
    line_limit: nat,
    byte_limit: Option<nat>,
    input: Input,
    several: bool,
    headed: bool,
) -> OutcomeView {
    match input.opened {
        Err(cause) => OutcomeView {
            stdout: Seq::empty(),
            stderr: "Could not read from "@ + input.path@ + ": "@ + cause@.push('\n'),
            failure: None,
        },
        Ok(stream) => {
            let head = head_outcome(line_limit, byte_limit, stream);
            OutcomeView {
                stdout: (if several {
                    header(input.path@, headed)
                } else {
                    Seq::empty()
                }) + head.stdout,
                stderr: head.stderr,
                failure: head.failure,
            }
        },
    }
}

/// Whether one of the first `i` inputs was opened.
pub open spec fn opened_before(inputs: Seq<Input>, i: int) -> bool {
    exists|j: int| 0 <= j < i && (#[trigger] inputs[j]).opened is Ok
}

/// What input `i` of a run contributes.
pub open spec fn file_outcome(
    line_limit: nat,
    byte_limit: Option<nat>,
    inputs: Seq<Input>,
    i: int,
) -> OutcomeView {
    input_outcome(line_limit, byte_limit, inputs[i], inputs.len() > 1, opened_before(inputs, i))
}

/// What a run over the inputs writes.
pub open spec fn run_outcome(line_limit: nat, byte_limit: Option<nat>, inputs: Seq<Input>)
    -> OutcomeView {
    combine(
        Seq::new(inputs.len(), |i: int| file_outcome(line_limit, byte_limit, inputs, i)),
    )
}

/// Prints the head of an opened input.
pub fn head(config: &Config, stream: &Stream) -> (outcome: Outcome)
    ensures
        outcome@ == head_outcome(config.line_limit(), config.byte_limit(), *stream),
{
    match config.bytes {
        Some(limit) => {
            if stream.bytes.len() == 0 && stream.failure.is_some() {
                let failure = match &stream.failure {
                    Some(cause) => Some(cause.clone()),
                    None => None,
                };
                Outcome { stdout: String::new(), stderr: String::new(), failure }
            } else {
                let stdout = chunk_text(stream.bytes.as_slice(), limit);
                Outcome { stdout, stderr: String::new(), failure: None }
            }
        },
        None => {
            let reading = read_lines(stream);
            let taken = first_lines(&reading.lines, config.lines);
            let failure = if reading.lines.len() < config.lines {
                reading.failure
            } else {
                None
            };
            Outcome { stdout: write_raw(&taken), stderr: String::new(), failure }
        },
    }
}

/// How far a run has come: whether it has several inputs, and whether one of
/// those it has seen was opened, so that a header has been printed.
pub struct Progress {
    several: bool,
    headed: bool,
}

impl Progress {
    /// Whether the run has several inputs.
    pub closed spec fn several(&self) -> bool {
        self.several
    }

    /// Whether a header has been printed.
    pub closed spec fn headed(&self) -> bool {
        self.headed
    }

    /// The start of a run over `inputs` inputs.
    pub fn new(inputs: usize) -> (progress: Progress)
        ensures
            progress.several() == (inputs > 1),
            !progress.headed(),
    {
        Progress { several: inputs > 1, headed: false }
    }

    /// Prints the next input of the run.
    pub fn report(&mut self, config: &Config, input: &Input) -> (outcome: Outcome)
        ensures
            outcome@ == input_outcome(
                config.line_limit(),
                config.byte_limit(),
                *input,
                old(self).several(),
                old(self).headed(),
            ),
            final(self).several() == old(self).several(),
            final(self).headed() == (old(self).headed() || input.opened is Ok),
    {
        let mut outcome = Outcome::new();
        match &input.opened {
            Err(cause) => {
                outcome.stderr.append("Could not read from ");
                outcome.stderr.append(input.path.as_str());
                outcome.stderr.append(": ");
                outcome.stderr.append(cause.as_str());
                outcome.stderr.push('\n');
                assert(outcome.stderr@ =~= "Could not read from "@ + input.path@ + ": "@
                    + cause@.push('\n'));
            },
            Ok(stream) => {
                if self.several {
                    outcome.stdout = format_header(input.path.as_str(), self.headed);
                }
                let body = head(config, stream);
                outcome.stdout.append(body.stdout.as_str());
                outcome.stderr = body.stderr;
                outcome.failure = body.failure;
                self.headed = true;
            },
        }
        outcome
    }
}

/// Prints the head of every input, in order, each under a header where there
/// are several. An input that could not be opened is reported on the
/// diagnostic channel and skipped. A read failure ends the run.
pub fn run(config: &Config, inputs: &Vec<Input>) -> (outcome: Outcome)
    ensures
        outcome@ == run_outcome(config.line_limit(), config.byte_limit(), inputs@),
{
    let ghost line_limit = config.line_limit();
    let ghost byte_limit = config.byte_limit();
    let ghost parts = Seq::new(
        inputs.len() as nat,
        |i: int| file_outcome(line_limit, byte_limit, inputs@, i),
    );
    let mut outcome = Outcome::new();
    let mut progress = Progress::new(inputs.len());
    let mut i: usize = 0;
    assert(parts.take(0) =~= Seq::empty());
    while i < inputs.len()
        invariant
            i <= inputs.len(),
            line_limit == config.line_limit(),
            byte_limit == config.byte_limit(),
            parts == Seq::new(
                inputs.len() as nat,
                |i: int| file_outcome(line_limit, byte_limit, inputs@, i),
            ),
            outcome@ == combine(parts.take(i as int)),
            progress.several() == (inputs.len() > 1),
            progress.headed() == opened_before(inputs@, i as int),
        decreases inputs.len() - i,
    {
        assert(parts.take(i + 1).drop_last() =~= parts.take(i as int));
        assert(parts.take(i + 1).last() == file_outcome(line_limit, byte_limit, inputs@, i as int));
        assert(opened_before(inputs@, i + 1) == (opened_before(inputs@, i as int)
            || inputs@[i as int].opened is Ok)) by {
            if opened_before(inputs@, i + 1) {
                let j = choose|j: int| 0 <= j < i + 1 && (#[trigger] inputs@[j]).opened is Ok;
                if j < i {
                    assert(opened_before(inputs@, i as int));
                }
            }
        }
        let part = progress.report(config, &inputs[i]);
        outcome.absorb(part);
        i += 1;
    }
    assert(parts.take(i as int) =~= parts);
    outcome
}

} // verus!
