//! The adjacent duplicate grouper: consecutive equal lines of the input
//! collapse into one output line, with the number of occurrences in front
//! where that is asked for.

use crate::input::opt_text;
use crate::input::read_lines;
use crate::input::stream_failure;
use crate::input::stream_lines;
use crate::input::Stream;
use crate::report::Outcome;
use crate::report::OutcomeView;
use crate::text::contents_of;
use crate::text::decimal;
use crate::text::push_number;
use crate::text::right_aligned;
use crate::text::same_text;
use crate::text::stripped;
use crate::text::unlines;
use crate::text::write_lines;
use vstd::prelude::*;
use vstd::string::StringExecFns;

verus! {

/// The width of the field that holds the number of occurrences.
pub const COUNT_WIDTH: usize = 2;

/// The input to group, the output path, and whether occurrences are counted.
pub struct Config {
    in_file: String,
    out_file: Option<String>,
    count: bool,
}

impl Config {
    /// The input path.
    pub closed spec fn input_text(&self) -> Seq<char> {
        self.in_file@
    }

    /// The output path, where one was given.
    pub closed spec fn output_text(&self) -> Option<Seq<char>> {
        opt_text(self.out_file)
    }

    /// Whether the number of occurrences is shown.
    pub closed spec fn counts(&self) -> bool {
        self.count
    }

    /// Builds the configuration from the arguments of the command line.
    pub fn new(in_file: String, out_file: Option<String>, count: bool) -> (config: Config)
        ensures
            config.input_text() == in_file@,
            config.output_text() == opt_text(out_file),
            config.counts() == count,
    {
        Config { in_file, out_file, count }
    }

    /// The input path.
    pub fn in_file(&self) -> (path: &str)
        ensures
            path@ == self.input_text(),
    {
        self.in_file.as_str()
    }

    /// The output path, where one was given.
    pub fn out_file(&self) -> (path: &Option<String>)
        ensures
            opt_text(*path) == self.output_text(),
    {
        &self.out_file
    }

    /// Whether the number of occurrences is shown.
    pub fn count(&self) -> (count: bool)
        ensures
            count == self.counts(),
    {
        self.count
    }
}

/// A run of equal lines: the line, and how often it occurs in a row.
pub struct Group {
    pub count: usize,
    pub text: String,
}

/// The mathematical content of a [`Group`].
pub struct GroupView {
    pub count: nat,
    pub text: Seq<char>,
}

impl View for Group {
    type V = GroupView;

    open spec fn view(&self) -> GroupView {
        GroupView { count: self.count as nat, text: self.text@ }
    }
}

/// The mathematical contents of the groups.
pub open spec fn group_views(groups: Seq<Group>) -> Seq<GroupView> {
    Seq::new(groups.len(), |i: int| groups[i]@)
}

/// The runs of the given lines: each maximal stretch of consecutive equal
/// lines, as the line and the length of the stretch.
pub open spec fn groups(lines: Seq<Seq<char>>) -> Seq<GroupView>
    decreases lines.len(),
{
    if lines.len() == 0 {
        Seq::empty()
    } else {
        let before = groups(lines.drop_last());
        let line = lines.last();
        if before.len() > 0 && before.last().text == line {
            before.drop_last().push(GroupView { count: before.last().count + 1, text: line })
        } else {
            before.push(GroupView { count: 1, text: line })
        }
    }
}

/// The lines that the groups stand for: each line as often as it occurs.
pub open spec fn expanded(groups: Seq<GroupView>) -> Seq<Seq<char>>
    decreases groups.len(),
{
    if groups.len() == 0 {
        Seq::empty()
    } else {
        expanded(groups.drop_last()) + Seq::new(groups.last().count, |i: int| groups.last().text)
    }
}

/// What the runs of some lines are: no run is empty, neighbouring runs hold
/// different lines, and the runs, written out, are the lines.
pub proof fn lemma_groups_are_runs(lines: Seq<Seq<char>>)
    ensures
        forall|k: int| 0 <= k < groups(lines).len() ==> (#[trigger] groups(lines)[k]).count >= 1,
        forall|k: int|
            0 <= k < groups(lines).len() - 1 ==> (#[trigger] groups(lines)[k]).text != groups(
                lines,
            )[k + 1].text,
        expanded(groups(lines)) == lines,
        lines.len() > 0 ==> groups(lines).len() > 0 && groups(lines).last().text == lines.last(),
    decreases lines.len(),
{
    if lines.len() > 0 {
        let before = groups(lines.drop_last());
        let line = lines.last();
        let after = groups(lines);
        lemma_groups_are_runs(lines.drop_last());
        if before.len() > 0 && before.last().text == line {
            let last = before.last();
            let grown = GroupView { count: last.count + 1, text: line };
            assert(after.drop_last() =~= before.drop_last());
            assert(Seq::new(grown.count, |i: int| grown.text) =~= Seq::new(
                last.count,
                |i: int| last.text,
            ).push(line));
            assert(expanded(after) =~= expanded(before).push(line));
            assert(expanded(before).push(line) =~= lines);
            assert forall|k: int| 0 <= k < after.len() - 1 implies (#[trigger] after[k]).text
                != after[k + 1].text by {
                assert(after[k] == before[k]);
                assert(after[k + 1].text == before[k + 1].text);
            }
        } else {
            let fresh = GroupView { count: 1, text: line };
            assert(after.drop_last() =~= before);
            assert(Seq::new(fresh.count, |i: int| fresh.text) =~= seq![line]);
            assert(expanded(after) =~= expanded(before).push(line));
            assert(expanded(before).push(line) =~= lines);
            assert forall|k: int| 0 <= k < after.len() - 1 implies (#[trigger] after[k]).text
                != after[k + 1].text by {
                assert(after[k] == before[k]);
                if k + 1 < before.len() {
                    assert(after[k + 1] == before[k + 1]);
                }
            }
        }
    }
}

/// One step of the grouper: the run in progress and the run that is
/// complete, once `line` has come in after the run `pending`.
pub open spec fn step(pending: Option<GroupView>, line: Seq<char>) -> (
    Option<GroupView>,
    Option<GroupView>,
) {
    match pending {
        Some(run) => if run.text == line {
            (Some(GroupView { count: run.count + 1, text: run.text }), None)
        } else {
            (Some(GroupView { count: 1, text: line }), pending)
        },
        None => (Some(GroupView { count: 1, text: line }), None),
    }
}

/// The state of the grouper: the line of the run in progress and the length
/// of that run. It starts out empty, with no run in progress.
pub struct Grouper {
    current: String,
    length: usize,
}

impl Grouper {
    /// The run in progress, if there is one.
    pub closed spec fn pending(&self) -> Option<GroupView> {
        if self.length == 0 {
            None
        } else {
            Some(GroupView { count: self.length as nat, text: self.current@ })
        }
    }

    /// The empty grouper.
    pub fn new() -> (grouper: Grouper)
        ensures
            grouper.pending() is None,
    {
        Grouper { current: String::new(), length: 0 }
    }

    /// The length of the run in progress, zero where there is none.
    pub fn length(&self) -> (length: usize)
        ensures
            match self.pending() {
                Some(run) => length == run.count,
                None => length == 0,
            },
    {
        self.length
    }

    /// Takes the next line, without its terminator. A line equal to that of
    /// the run in progress makes the run longer. Another line completes the
    /// run, which is handed out, and starts a run of its own.
    pub fn feed(&mut self, line: &str) -> (flushed: Option<Group>)
        requires
            old(self).pending() matches Some(run) ==> run.count < usize::MAX,
        ensures
            final(self).pending() == step(old(self).pending(), line@).0,
            match flushed {
                Some(group) => step(old(self).pending(), line@).1 == Some(group@),
                None => step(old(self).pending(), line@).1 is None,
            },
    {
        if same_text(line, self.current.as_str()) {
            self.length += 1;
            None
        } else {
            let flushed = if self.length > 0 {
                Some(Group { count: self.length, text: self.current.clone() })
            } else {
                None
            };
            self.current = line.to_owned();
            self.length = 1;
            flushed
        }
    }

    /// Ends the input: the run in progress is complete and handed out.
    pub fn finish(self) -> (flushed: Option<Group>)
        ensures
            match flushed {
                Some(group) => self.pending() == Some(group@),
                None => self.pending() is None,
            },
    {
        if self.length > 0 {
            Some(Group { count: self.length, text: self.current })
        } else {
            None
        }
    }
}

/// Groups the given lines, which come without their terminators.
pub fn group(lines: &Vec<String>) -> (found: Vec<Group>)
    ensures
        group_views(found@) == groups(lines.deep_view()),
{
    let ghost all = lines.deep_view();
    let mut found: Vec<Group> = Vec::new();
    let mut grouper = Grouper::new();
    let mut i: usize = 0;
    assert(all.take(0) =~= Seq::empty());
    while i < lines.len()
        invariant
            i <= lines.len(),
            all == lines.deep_view(),
            match grouper.pending() {
                Some(run) => groups(all.take(i as int)) == group_views(found@).push(run)
                    && run.count <= i,
                None => i == 0 && found.len() == 0,
            },
        decreases lines.len() - i,
    {
        let ghost before = all.take(i as int);
        let ghost after = all.take(i + 1);
        let ghost listed = group_views(found@);
        let ghost pending = grouper.pending();
        assert(after.drop_last() =~= before);
        assert(after.last() == lines[i as int]@);
        proof {
            if pending is Some {
                assert(listed.push(pending->0).drop_last() =~= listed);
                assert(listed.push(pending->0).last() == pending->0);
            } else {
                assert(groups(before) =~= Seq::empty());
            }
        }
        match grouper.feed(lines[i].as_str()) {
            Some(done) => {
                found.push(done);
                assert(group_views(found@) =~= listed.push(done@));
            },
            None => {
                assert(group_views(found@) =~= listed);
            },
        }
        i += 1;
    }
    assert(all.take(i as int) =~= all);
    let ghost listed = group_views(found@);
    match grouper.finish() {
        Some(last) => {
            found.push(last);
            assert(group_views(found@) =~= listed.push(last@));
        },
        None => {
            assert(group_views(found@) =~= groups(all));
        },
    }
    found
}

/// The output line for a run: the line alone, or the number of occurrences
/// at the right end of its field, a space, and the line.
pub open spec fn shown_group(show_count: bool, group: GroupView) -> Seq<char> {
    if show_count {
        right_aligned(decimal(group.count), COUNT_WIDTH as nat) + seq![' '] + group.text
    } else {
        group.text
    }
}

/// The output lines for the runs.
pub open spec fn shown_groups(show_count: bool, groups: Seq<GroupView>) -> Seq<Seq<char>> {
    Seq::new(groups.len(), |i: int| shown_group(show_count, groups[i]))
}

/// The output line for a run.
pub fn format_group(show_count: bool, group: &Group) -> (text: String)
    ensures
        text@ == shown_group(show_count, group@),
{
    let mut text = String::new();
    if show_count {
        push_number(&mut text, group.count, COUNT_WIDTH);
        text.push(' ');
    }
    text.append(group.text.as_str());
    assert(text@ =~= shown_group(show_count, group@));
    text
}

/// The runs that are complete when reading stops early: all but the one in
/// progress.
pub open spec fn completed(groups: Seq<GroupView>) -> Seq<GroupView> {
    if groups.len() > 0 {
        groups.drop_last()
    } else {
        groups
    }
}

/// What a run over the input writes. An input that could not be opened ends
/// the run with a message that names it. A read failure ends the run after
/// the runs that were complete before it.
pub open spec fn run_outcome(
    path: Seq<char>,
    show_count: bool,
    opened: Result<Stream, String>,
) -> OutcomeView {
    match opened {
        Err(cause) => OutcomeView {
            stdout: Seq::empty(),
            stderr: Seq::empty(),
            failure: Some(path + ": "@ + cause@),
        },
        Ok(stream) => {
            let found = groups(stripped(stream_lines(stream)));
            match stream_failure(stream) {
                None => OutcomeView {
                    stdout: unlines(shown_groups(show_count, found)),
                    stderr: Seq::empty(),
                    failure: None,
                },
                Some(cause) => OutcomeView {
                    stdout: unlines(shown_groups(show_count, completed(found))),
                    stderr: Seq::empty(),
                    failure: Some(cause),
                },
            }
        },
    }
}

/// Groups the input of the configuration, given what became of opening it.
pub fn run(config: &Config, opened: &Result<Stream, String>) -> (outcome: Outcome)
    ensures
        outcome@ == run_outcome(config.input_text(), config.counts(), *opened),
{
    match opened {
        Err(cause) => {
            let mut message = config.in_file.clone();
            message.append(": ");
            message.append(cause.as_str());
            assert(message@ =~= config.input_text() + ": "@ + cause@);
            Outcome { stdout: String::new(), stderr: String::new(), failure: Some(message) }
        },
        Ok(stream) => {
            let reading = read_lines(stream);
            let contents = contents_of(&reading.lines);
            let mut found = group(&contents);
            let ghost all = group_views(found@);
            if reading.failure.is_some() {
                found.pop();
                assert(group_views(found@) =~= completed(all));
            }
            let ghost kept = group_views(found@);
            let mut shown: Vec<String> = Vec::new();
            let mut i: usize = 0;
            while i < found.len()
                invariant
                    i <= found.len(),
                    kept == group_views(found@),
                    shown.len() == i,
                    forall|j: int|
                        0 <= j < i ==> (#[trigger] shown[j])@ == shown_group(
                            config.counts(),
                            kept[j],
                        ),
                decreases found.len() - i,
            {
                shown.push(format_group(config.count, &found[i]));
                i += 1;
            }
            assert(shown.deep_view() =~= shown_groups(config.counts(), kept));
            Outcome { stdout: write_lines(&shown), stderr: String::new(), failure: reading.failure }
        },
    }
}

} // verus!
