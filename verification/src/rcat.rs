//! The line numbering printer: every line of every input, as it is, or with
//! a running number in front of every line, or of every line that is not
//! blank.

use crate::error::ConfigError;
use crate::input::read_lines;
use crate::input::stream_failure;
use crate::input::stream_lines;
use crate::input::Input;
use crate::report::combine;
use crate::report::Outcome;
use crate::report::OutcomeView;
use crate::text::concat;
use crate::text::contents_of;
use crate::text::decimal;
use crate::text::push_number;
use crate::text::right_aligned;
use crate::text::strip_terminator;
use crate::text::stripped;
use crate::text::unlines;
use crate::text::write_lines;
use vstd::prelude::*;
use vstd::string::StringExecFns;

verus! {

/// Which lines get a number.
#[derive(Clone, Copy, Debug, PartialEq, Eq, Structural)]
pub enum Numbering {
    /// No line: each is printed as it is.
    Off,
    /// Every line.
    All,
    /// Every line that is not empty.
    NonBlank,
}

/// The inputs to print and how to number their lines.
pub struct Config {
    files: Vec<String>,
    number_lines: bool,
    number_nonblank_lines: bool,
}

impl Config {
    #[verifier::type_invariant]
    spec fn well_formed(&self) -> bool {
        !(self.number_lines && self.number_nonblank_lines)
    }

    /// The input paths, in order.
    pub closed spec fn file_texts(&self) -> Seq<Seq<char>> {
        self.files.deep_view()
    }

    /// Which lines get a number.
    pub closed spec fn numbering(&self) -> Numbering {
        if self.number_lines {
            Numbering::All
        } else if self.number_nonblank_lines {
            Numbering::NonBlank
        } else {
            Numbering::Off
        }
    }

    /// Builds the configuration from the input paths and the two numbering
    /// options of the command line, which exclude each other.
    pub fn new(files: Vec<String>, number_lines: bool, number_nonblank_lines: bool) -> (made:
        Result<Config, ConfigError>)
        ensures
            made is Ok <==> !(number_lines && number_nonblank_lines),
            made matches Ok(config) ==> config.file_texts() == files.deep_view()
                && config.numbering() == (if number_lines {
                Numbering::All
            } else if number_nonblank_lines {
                Numbering::NonBlank
            } else {
                Numbering::Off
            }),
            made matches Err(error) ==> error.is_conflict("--number"@, "--number-nonblank"@),
    {
        if number_lines && number_nonblank_lines {
            Err(
                ConfigError::Conflict(
                    String::from_str("--number"),
                    String::from_str("--number-nonblank"),
                ),
            )
        } else {
            Ok(Config { files, number_lines, number_nonblank_lines })
        }
    }

    /// The input paths, in order.
    pub fn files(&self) -> (files: &Vec<String>)
        ensures
            files.deep_view() == self.file_texts(),
    {
        &self.files
    }

    /// Which lines get a number.
    pub fn mode(&self) -> (mode: Numbering)
        ensures
            mode == self.numbering(),
    {
        if self.number_lines {
            Numbering::All
        } else if self.number_nonblank_lines {
            Numbering::NonBlank
        } else {
            Numbering::Off
        }
    }
}

/// A numbered line: the number at the right end of a field of six
/// characters, a tab, and the line.
pub open spec fn numbered(number: nat, line: Seq<char>) -> Seq<char> {
    right_aligned(decimal(number), 6) + seq!['\t'] + line
}

/// The number of lines that are not empty among the first `n`.
pub open spec fn nonblank_upto(lines: Seq<Seq<char>>, n: nat) -> nat
    decreases n,
{
    if n == 0 {
        0
    } else {
        nonblank_upto(lines, (n - 1) as nat) + if lines[n - 1].len() == 0 {
            0nat
        } else {
            1nat
        }
    }
}

/// What is printed for line `i` of an input.
pub open spec fn shown_line(mode: Numbering, lines: Seq<Seq<char>>, i: int) -> Seq<char> {
    match mode {
        Numbering::Off => lines[i],
        Numbering::All => numbered((i + 1) as nat, lines[i]),
        Numbering::NonBlank => if lines[i].len() == 0 {
            Seq::empty()
        } else {
            numbered(nonblank_upto(lines, (i + 1) as nat), lines[i])
        },
    }
}

/// What is printed for the lines of an input, line by line.
pub open spec fn shown_lines(mode: Numbering, lines: Seq<Seq<char>>) -> Seq<Seq<char>> {
    Seq::new(lines.len(), |i: int| shown_line(mode, lines, i))
}

/// With numbering off, the lines are printed as they are.
pub proof fn lemma_plain_keeps_lines(lines: Seq<Seq<char>>)
    ensures
        shown_lines(Numbering::Off, lines) == lines,
{
    assert(shown_lines(Numbering::Off, lines) =~= lines);
}

/// With numbering off, the printed text is the text that was read: where
/// every line read ends in a line feed with no carriage return before it,
/// what is printed is those lines one after the other.
pub proof fn lemma_plain_reproduces_text(lines: Seq<Seq<char>>)
    requires
        forall|i: int|
            0 <= i < lines.len() ==> (#[trigger] lines[i]).len() > 0 && lines[i].last() == '\n',
        forall|i: int|
            0 <= i < lines.len() && (#[trigger] lines[i]).len() > 1 ==> lines[i][lines[i].len() - 2]
                != '\r',
    ensures
        unlines(shown_lines(Numbering::Off, stripped(lines))) == concat(lines),
    decreases lines.len(),
{
    lemma_plain_keeps_lines(stripped(lines));
    if lines.len() > 0 {
        let init = lines.drop_last();
        let line = lines.last();
        lemma_plain_reproduces_text(init);
        lemma_plain_keeps_lines(stripped(init));
        assert(stripped(lines).drop_last() =~= stripped(init));
        assert(stripped(lines).last() == strip_terminator(line));
        assert(strip_terminator(line).push('\n') =~= line);
    }
}

/// With only the lines that are not blank numbered, an empty line is printed
/// empty and leaves the counter as it is, and a line that is not empty gets
/// the counter's next value.
pub proof fn lemma_nonblank_counter(lines: Seq<Seq<char>>, i: int)
    requires
        0 <= i < lines.len(),
    ensures
        lines[i].len() == 0 ==> nonblank_upto(lines, (i + 1) as nat) == nonblank_upto(
            lines,
            i as nat,
        ) && shown_line(Numbering::NonBlank, lines, i) == Seq::<char>::empty(),
        lines[i].len() > 0 ==> nonblank_upto(lines, (i + 1) as nat) == nonblank_upto(
            lines,
            i as nat,
        ) + 1 && shown_line(Numbering::NonBlank, lines, i) == numbered(
            nonblank_upto(lines, i as nat) + 1,
            lines[i],
        ),
{
}

/// What is printed for the lines of an input, line by line. The lines come
/// without their terminators.
pub fn number_lines(mode: Numbering, lines: &Vec<String>) -> (shown: Vec<String>)
    ensures
        shown.deep_view() == shown_lines(mode, lines.deep_view()),
{
    let ghost all = lines.deep_view();
    let mut shown: Vec<String> = Vec::new();
    let mut counter: usize = 0;
    let mut i: usize = 0;
    while i < lines.len()
        invariant
            i <= lines.len(),
            all == lines.deep_view(),
            counter == nonblank_upto(all, i as nat),
            counter <= i,
            shown.len() == i,
            forall|j: int| 0 <= j < i ==> (#[trigger] shown[j])@ == shown_line(mode, all, j),
        decreases lines.len() - i,
    {
        let line = lines[i].as_str();
        assert(all[i as int] == line@);
        let blank = line.is_empty();
        if !blank {
            counter += 1;
        }
        let mut text = String::new();
        match mode {
            Numbering::Off => {
                text.append(line);
            },
            Numbering::All => {
                push_number(&mut text, i + 1, 6);
                text.push('\t');
                text.append(line);
            },
            Numbering::NonBlank => {
                if !blank {
                    push_number(&mut text, counter, 6);
                    text.push('\t');
                    text.append(line);
                }
            },
        }
        assert(text@ =~= shown_line(mode, all, i as int));
        shown.push(text);
        i += 1;
    }
    assert(shown.deep_view() =~= shown_lines(mode, all));
    shown
}

/// What one input contributes: a complaint where it could not be opened;
/// else its lines as they are printed, and the failure that ended its
/// reading, which ends the run.
pub open spec fn file_outcome(mode: Numbering, input: Input) -> OutcomeView {
    match input.opened {
        Err(cause) => OutcomeView {
            stdout: Seq::empty(),
            stderr: "Failed to open "@ + input.path@ + ": "@ + cause@.push('\n'),
            failure: None,
        },
        Ok(stream) => OutcomeView {
            stdout: unlines(shown_lines(mode, stripped(stream_lines(stream)))),
            stderr: Seq::empty(),
            failure: stream_failure(stream),
        },
    }
}

/// What a run over the inputs writes.
pub open spec fn run_outcome(mode: Numbering, inputs: Seq<Input>) -> OutcomeView {
    combine(Seq::new(inputs.len(), |i: int| file_outcome(mode, inputs[i])))
}

/// Prints one input.
pub fn report(mode: Numbering, input: &Input) -> (outcome: Outcome)
    ensures
        outcome@ == file_outcome(mode, *input),
{
    match &input.opened {
        Err(cause) => {
            let mut stderr = String::from_str("Failed to open ");
            stderr.append(input.path.as_str());
            stderr.append(": ");
            stderr.append(cause.as_str());
            stderr.push('\n');
            assert(stderr@ =~= "Failed to open "@ + input.path@ + ": "@ + cause@.push('\n'));
            Outcome { stdout: String::new(), stderr, failure: None }
        },
        Ok(stream) => {
            let reading = read_lines(stream);
            let contents = contents_of(&reading.lines);
            let shown = number_lines(mode, &contents);
            Outcome { stdout: write_lines(&shown), stderr: String::new(), failure: reading.failure }
        },
    }
}

/// Prints every input, in order. An input that could not be opened is
/// reported on the diagnostic channel and skipped. A read failure ends the
/// run, after the lines that were read before it.
pub fn run(config: &Config, inputs: &Vec<Input>) -> (outcome: Outcome)
    ensures
        outcome@ == run_outcome(config.numbering(), inputs@),
{
    let mode = config.mode();
    let ghost parts = Seq::new(inputs.len() as nat, |i: int| file_outcome(mode, inputs[i]));
    let mut outcome = Outcome::new();
    let mut i: usize = 0;
    assert(parts.take(0) =~= Seq::empty());
    while i < inputs.len()
        invariant
            i <= inputs.len(),
            parts == Seq::new(inputs.len() as nat, |i: int| file_outcome(mode, inputs[i])),
            outcome@ == combine(parts.take(i as int)),
        decreases inputs.len() - i,
    {
        assert(parts.take(i + 1).drop_last() =~= parts.take(i as int));
        assert(parts.take(i + 1).last() == file_outcome(mode, inputs[i as int]));
        if outcome.failure.is_none() {
            let part = report(mode, &inputs[i]);
            outcome.absorb(part);
        }
        i += 1;
    }
    assert(parts.take(i as int) =~= parts);
    outcome
}

} // verus!
