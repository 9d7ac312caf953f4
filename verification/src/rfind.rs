//! The filtered filesystem walker: of the entries found under each root,
//! those are listed that pass a filter on the entry's type and a filter on
//! its base name.
//!
//! The caller walks the filesystem and hands over what it visited; which
//! entries are listed is decided here.

use crate::error::ConfigError;
use crate::report::combine;
use crate::report::Outcome;
use crate::report::OutcomeView;
use crate::text::join_lines;
use crate::text::joined;
use crate::text::to_chars;
use regex::Regex;
use vstd::prelude::*;
use vstd::string::StringExecFns;

verus! {

/// The types of entry that can be asked for.
#[derive(Clone, Copy, Debug, PartialEq, Eq, Structural)]
pub enum EntryType {
    File,
    Dir,
    Link,
}

/// The entry type that a tag of the command line names: `f`, `d` or `l`.
pub open spec fn tag_type(tag: Seq<char>) -> Option<EntryType> {
    if tag == seq!['f'] {
        Some(EntryType::File)
    } else if tag == seq!['d'] {
        Some(EntryType::Dir)
    } else if tag == seq!['l'] {
        Some(EntryType::Link)
    } else {
        None
    }
}

impl EntryType {
    /// The entry type that `tag` names, if it names one.
    pub fn from_tag(tag: &str) -> (entry_type: Option<EntryType>)
        ensures
            entry_type == tag_type(tag@),
    {
        let chars = to_chars(tag);
        if chars.len() != 1 {
            return None;
        }
        let c = chars[0];
        assert(tag@ =~= seq![c]);
        if c == 'f' {
            Some(EntryType::File)
        } else if c == 'd' {
            Some(EntryType::Dir)
        } else if c == 'l' {
            Some(EntryType::Link)
        } else {
            None
        }
    }
}

/// Whether `regex::Regex::new` accepts `pattern`.
pub uninterp spec fn regex_compiles(pattern: Seq<char>) -> bool;

/// Whether the regular expression compiled from `pattern` by
/// `regex::Regex::new` has a match anywhere in `text`.
pub uninterp spec fn regex_matches(pattern: Seq<char>, text: Seq<char>) -> bool;

/// `regex::Regex::new`: tells whether the pattern compiles, which depends on
/// the pattern alone.
#[verifier::external_body]
fn compiles(pattern: &str) -> (ok: bool)
    ensures
        ok == regex_compiles(pattern@),
{
    Regex::new(pattern).is_ok()
}

/// `regex::Regex::is_match` of the regular expression that
/// `regex::Regex::new` compiles from `pattern`: whether it matches somewhere
/// in `text`, which depends on the two strings alone. The pattern is compiled
/// at every call.
#[verifier::external_body]
fn is_match(pattern: &str, text: &str) -> (hit: bool)
    requires
        regex_compiles(pattern@),
    ensures
        hit == regex_matches(pattern@, text@),
{
    match Regex::new(pattern) {
        Ok(regex) => regex.is_match(text),
        Err(_) => false,
    }
}

/// A name pattern: the source of a regular expression that compiles.
pub struct NamePattern {
    source: String,
}

impl View for NamePattern {
    type V = Seq<char>;

    closed spec fn view(&self) -> Seq<char> {
        self.source@
    }
}

impl NamePattern {
    #[verifier::type_invariant]
    spec fn well_formed(&self) -> bool {
        regex_compiles(self.source@)
    }

    /// The pattern with this source, unless the source does not compile.
    pub fn new(source: &str) -> (made: Result<NamePattern, ConfigError>)
        ensures
            made is Ok <==> regex_compiles(source@),
            made matches Ok(pattern) ==> pattern@ == source@,
            made matches Err(error) ==> error.is_invalid_name(source@),
    {
        if compiles(source) {
            Ok(NamePattern { source: source.to_owned() })
        } else {
            Err(ConfigError::InvalidName(source.to_owned()))
        }
    }

    /// The source of the pattern.
    pub fn as_str(&self) -> (source: &str)
        ensures
            source@ == self@,
    {
        self.source.as_str()
    }

    /// Tells whether the pattern matches somewhere in `text`.
    pub fn is_match(&self, text: &str) -> (hit: bool)
        ensures
            hit == regex_matches(self@, text@),
    {
        proof {
            use_type_invariant(self);
        }
        is_match(self.source.as_str(), text)
    }
}

/// The sources of the patterns.
pub open spec fn pattern_texts(names: Seq<NamePattern>) -> Seq<Seq<char>> {
    Seq::new(names.len(), |i: int| names[i]@)
}

/// An entry met while walking: its path, its base name, and its type where
/// it is a file, a directory or a symbolic link.
pub struct Entry {
    pub path: String,
    pub file_name: String,
    pub kind: Option<EntryType>,
}

/// One step of a walk: an entry, or the message of a traversal error.
pub enum Visit {
    Found(Entry),
    Failed(String),
}

/// The type filter: passed where no type is asked for, or where the entry's
/// type is one of those asked for.
pub open spec fn type_passes(kind: Option<EntryType>, types: Seq<EntryType>) -> bool {
    types.len() == 0 || exists|i: int| 0 <= i < types.len() && kind == Some(#[trigger] types[i])
}

/// The name filter: passed where there is no pattern, or where one of the
/// patterns matches the base name.
pub open spec fn name_passes(name: Seq<char>, patterns: Seq<Seq<char>>) -> bool {
    patterns.len() == 0 || exists|i: int|
        0 <= i < patterns.len() && regex_matches(#[trigger] patterns[i], name)
}

/// An entry is listed where it passes both filters.
pub open spec fn passes(
    kind: Option<EntryType>,
    name: Seq<char>,
    types: Seq<EntryType>,
    patterns: Seq<Seq<char>>,
) -> bool {
    type_passes(kind, types) && name_passes(name, patterns)
}

/// The name filter over the results of the single patterns: passed where
/// there is no pattern, or where one of them matched.
pub open spec fn any_hit(hits: Seq<bool>) -> bool {
    hits.len() == 0 || exists|i: int| 0 <= i < hits.len() && #[trigger] hits[i]
}

/// Decides whether an entry of type `kind` is listed, given the types asked
/// for and, for each name pattern, whether it matched the entry's base name.
pub fn keeps(kind: Option<EntryType>, types: &Vec<EntryType>, hits: &Vec<bool>) -> (kept: bool)
    ensures
        kept == (type_passes(kind, types@) && any_hit(hits@)),
{
    let mut type_ok = types.len() == 0;
    let mut i: usize = 0;
    while i < types.len()
        invariant
            i <= types.len(),
            type_ok == (types.len() == 0 || exists|j: int|
                0 <= j < i && kind == Some(#[trigger] types@[j])),
        decreases types.len() - i,
    {
        let asked = types[i];
        let same = match kind {
            Some(k) => k == asked,
            None => false,
        };
        if same {
            type_ok = true;
        }
        i += 1;
    }
    let mut name_ok = hits.len() == 0;
    let mut i: usize = 0;
    while i < hits.len()
        invariant
            i <= hits.len(),
            name_ok == (hits.len() == 0 || exists|j: int| 0 <= j < i && #[trigger] hits@[j]),
        decreases hits.len() - i,
    {
        if hits[i] {
            name_ok = true;
        }
        i += 1;
    }
    type_ok && name_ok
}

/// The first name that does not compile.
pub open spec fn first_bad_name(names: Seq<Seq<char>>) -> Option<Seq<char>>
    decreases names.len(),
{
    if names.len() == 0 {
        None
    } else if !regex_compiles(names[0]) {
        Some(names[0])
    } else {
        first_bad_name(names.drop_first())
    }
}

/// The first tag that names no entry type.
pub open spec fn first_bad_tag(tags: Seq<Seq<char>>) -> Option<Seq<char>>
    decreases tags.len(),
{
    if tags.len() == 0 {
        None
    } else if tag_type(tags[0]) is None {
        Some(tags[0])
    } else {
        first_bad_tag(tags.drop_first())
    }
}

/// What to look for: the roots, the name patterns and the entry types.
pub struct Config {
    paths: Vec<String>,
    names: Vec<NamePattern>,
    entry_types: Vec<EntryType>,
}

impl Config {
    /// The roots, in order.
    pub closed spec fn path_texts(&self) -> Seq<Seq<char>> {
        self.paths.deep_view()
    }

    /// The sources of the name patterns, in order.
    pub closed spec fn name_texts(&self) -> Seq<Seq<char>> {
        pattern_texts(self.names@)
    }

    /// The entry types asked for, in order.
    pub closed spec fn type_tags(&self) -> Seq<EntryType> {
        self.entry_types@
    }

    /// Builds the configuration from the roots, the name patterns and the
    /// type tags of the command line. The first name that is no regular
    /// expression is refused; with all names accepted, the first tag that
    /// names no entry type is refused.
    pub fn new(paths: Vec<String>, names: &Vec<String>, types: &Vec<String>) -> (made: Result<
        Config,
        ConfigError,
    >)
        ensures
            match made {
                Ok(config) => {
                    &&& first_bad_name(names.deep_view()) is None
                    &&& first_bad_tag(types.deep_view()) is None
                    &&& config.path_texts() == paths.deep_view()
                    &&& config.name_texts() == names.deep_view()
                    &&& config.type_tags().len() == types.len()
                    &&& forall|i: int|
                        0 <= i < types.len() ==> tag_type(#[trigger] types[i]@) == Some(
                            config.type_tags()[i],
                        )
                },
                Err(error) => match first_bad_name(names.deep_view()) {
                    Some(name) => error.is_invalid_name(name),
                    None => first_bad_tag(types.deep_view()) matches Some(tag)
                        && error.is_invalid_type(tag),
                },
            },
    {
        let ghost all_names = names.deep_view();
        let mut patterns: Vec<NamePattern> = Vec::new();
        let mut i: usize = 0;
        assert(all_names.skip(0) =~= all_names);
        while i < names.len()
            invariant
                i <= names.len(),
                all_names == names.deep_view(),
                first_bad_name(all_names) == first_bad_name(all_names.skip(i as int)),
                patterns.len() == i,
                forall|j: int| 0 <= j < i ==> (#[trigger] patterns[j])@ == names[j]@,
            decreases names.len() - i,
        {
            let ghost rest = all_names.skip(i as int);
            assert(rest[0] == names[i as int]@);
            assert(rest.drop_first() =~= all_names.skip(i + 1));
            match NamePattern::new(names[i].as_str()) {
                Ok(pattern) => {
                    patterns.push(pattern);
                },
                Err(error) => {
                    return Err(error);
                },
            }
            i += 1;
        }
        assert(all_names.skip(i as int) =~= Seq::empty());
        let ghost all_tags = types.deep_view();
        let mut entry_types: Vec<EntryType> = Vec::new();
        let mut i: usize = 0;
        assert(all_tags.skip(0) =~= all_tags);
        while i < types.len()
            invariant
                i <= types.len(),
                all_tags == types.deep_view(),
                first_bad_name(names.deep_view()) is None,
                first_bad_tag(all_tags) == first_bad_tag(all_tags.skip(i as int)),
                entry_types.len() == i,
                forall|j: int| 0 <= j < i ==> tag_type(#[trigger] types[j]@) == Some(entry_types[j]),
            decreases types.len() - i,
        {
            let ghost rest = all_tags.skip(i as int);
            assert(rest[0] == types[i as int]@);
            assert(rest.drop_first() =~= all_tags.skip(i + 1));
            match EntryType::from_tag(types[i].as_str()) {
                Some(entry_type) => {
                    entry_types.push(entry_type);
                },
                None => {
                    return Err(ConfigError::InvalidType(types[i].clone()));
                },
            }
            i += 1;
        }
        assert(pattern_texts(patterns@) =~= names.deep_view());
        Ok(Config { paths, names: patterns, entry_types })
    }

    /// The roots, in order.
    pub fn paths(&self) -> (paths: &Vec<String>)
        ensures
            paths.deep_view() == self.path_texts(),
    {
        &self.paths
    }

    /// The name patterns, in order.
    pub fn names(&self) -> (names: &Vec<NamePattern>)
        ensures
            pattern_texts(names@) == self.name_texts(),
    {
        &self.names
    }

    /// The entry types asked for, in order.
    pub fn entry_types(&self) -> (entry_types: &Vec<EntryType>)
        ensures
            entry_types@ == self.type_tags(),
    {
        &self.entry_types
    }

    /// Tells whether `entry` is listed: it passes the type filter and the
    /// name filter.
    pub fn accepts(&self, entry: &Entry) -> (kept: bool)
        ensures
            kept == passes(entry.kind, entry.file_name@, self.type_tags(), self.name_texts()),
    {
        let ghost name = entry.file_name@;
        let ghost patterns = pattern_texts(self.names@);
        let mut hits: Vec<bool> = Vec::new();
        let mut i: usize = 0;
        while i < self.names.len()
            invariant
                i <= self.names.len(),
                hits.len() == i,
                name == entry.file_name@,
                patterns == pattern_texts(self.names@),
                forall|j: int| 0 <= j < i ==> #[trigger] hits[j] == regex_matches(patterns[j], name),
            decreases self.names.len() - i,
        {
            let hit = self.names[i].is_match(entry.file_name.as_str());
            hits.push(hit);
            i += 1;
        }
        proof {
            if any_hit(hits@) && hits.len() > 0 {
                let j = choose|j: int| 0 <= j < hits.len() && #[trigger] hits[j];
                assert(regex_matches(patterns[j], name));
            }
            if name_passes(name, patterns) && patterns.len() > 0 {
                let j = choose|j: int|
                    0 <= j < patterns.len() && regex_matches(#[trigger] patterns[j], name);
                assert(hits[j]);
            }
        }
        keeps(entry.kind, &self.entry_types, &hits)
    }
}

/// The path that a visit contributes to the listing: that of an entry that
/// passes both filters.
pub open spec fn kept_path(types: Seq<EntryType>, patterns: Seq<Seq<char>>, visit: Visit) -> Option<
    Seq<char>,
> {
    match visit {
        Visit::Found(entry) => if passes(entry.kind, entry.file_name@, types, patterns) {
            Some(entry.path@)
        } else {
            None
        },
        Visit::Failed(_) => None,
    }
}

/// The paths listed for a walk, in the order of the walk.
pub open spec fn kept_paths(
    types: Seq<EntryType>,
    patterns: Seq<Seq<char>>,
    visits: Seq<Visit>,
) -> Seq<Seq<char>> {
    visits.filter_map(|visit: Visit| kept_path(types, patterns, visit))
}

/// The messages of the traversal errors of a walk, one after the other.
pub open spec fn diagnostics(visits: Seq<Visit>) -> Seq<char>
    decreases visits.len(),
{
    if visits.len() == 0 {
        Seq::empty()
    } else {
        diagnostics(visits.drop_last()) + match visits.last() {
            Visit::Found(_) => Seq::empty(),
            Visit::Failed(message) => message@,
        }
    }
}

/// What one root contributes: its listed paths as one block, joined by line
/// feeds and closed by one, and the messages of its traversal errors.
pub open spec fn walk_outcome(
    types: Seq<EntryType>,
    patterns: Seq<Seq<char>>,
    visits: Seq<Visit>,
) -> OutcomeView {
    OutcomeView {
        stdout: joined(kept_paths(types, patterns, visits)).push('\n'),
        stderr: diagnostics(visits),
        failure: None,
    }
}

/// What a run over the walks of all roots writes.
pub open spec fn run_outcome(
    types: Seq<EntryType>,
    patterns: Seq<Seq<char>>,
    walks: Seq<Vec<Visit>>,
) -> OutcomeView {
    combine(Seq::new(walks.len(), |i: int| walk_outcome(types, patterns, walks[i]@)))
}

/// Lists one walk.
pub fn list_walk(config: &Config, visits: &Vec<Visit>) -> (outcome: Outcome)
    ensures
        outcome@ == walk_outcome(config.type_tags(), config.name_texts(), visits@),
{
    let ghost types = config.type_tags();
    let ghost patterns = config.name_texts();
    let ghost pick = |visit: Visit| kept_path(types, patterns, visit);
    let mut paths: Vec<String> = Vec::new();
    let mut stderr = String::new();
    let mut i: usize = 0;
    assert(paths.deep_view() =~= visits@.take(0).filter_map(pick));
    while i < visits.len()
        invariant
            i <= visits.len(),
            types == config.type_tags(),
            patterns == config.name_texts(),
            pick == |visit: Visit| kept_path(types, patterns, visit),
            paths.deep_view() == visits@.take(i as int).filter_map(pick),
            stderr@ == diagnostics(visits@.take(i as int)),
        decreases visits.len() - i,
    {
        let ghost before = visits@.take(i as int);
        let ghost after = visits@.take(i + 1);
        let ghost listed = paths.deep_view();
        assert(after.drop_last() =~= before);
        assert(after.last() == visits@[i as int]);
        match &visits[i] {
            Visit::Found(entry) => {
                if config.accepts(entry) {
                    paths.push(entry.path.clone());
                    assert(paths.deep_view() =~= listed + seq![entry.path@]);
                }
            },
            Visit::Failed(message) => {
                stderr.append(message.as_str());
            },
        }
        assert(stderr@ =~= diagnostics(after));
        i += 1;
    }
    assert(visits@.take(i as int) =~= visits@);
    let mut stdout = join_lines(&paths);
    stdout.push('\n');
    Outcome { stdout, stderr, failure: None }
}

/// Lists the walks of all roots, in order: one block of paths per root on
/// standard output, the traversal errors on the diagnostic channel. A
/// traversal error never ends the run.
pub fn run(config: &Config, walks: &Vec<Vec<Visit>>) -> (outcome: Outcome)
    ensures
        outcome@ == run_outcome(config.type_tags(), config.name_texts(), walks@),
        outcome.failure is None,
{
    let ghost types = config.type_tags();
    let ghost patterns = config.name_texts();
    let ghost parts = Seq::new(walks.len() as nat, |i: int| walk_outcome(types, patterns, walks[i]@));
    let mut outcome = Outcome::new();
    let mut i: usize = 0;
    assert(parts.take(0) =~= Seq::empty());
    while i < walks.len()
        invariant
            i <= walks.len(),
            types == config.type_tags(),
            patterns == config.name_texts(),
            parts == Seq::new(walks.len() as nat, |i: int| walk_outcome(types, patterns, walks[i]@)),
            outcome@ == combine(parts.take(i as int)),
            outcome.failure is None,
        decreases walks.len() - i,
    {
        let part = list_walk(config, &walks[i]);
        assert(parts.take(i + 1).drop_last() =~= parts.take(i as int));
        assert(parts.take(i + 1).last() == part@);
        outcome.absorb(part);
        i += 1;
    }
    assert(parts.take(i as int) =~= parts);
    outcome
}

/// Every item of a filtered and mapped sequence comes from an item of the
/// sequence.
proof fn lemma_filter_map_origin<A, B>(s: Seq<A>, f: spec_fn(A) -> Option<B>, k: int)
    requires
        0 <= k < s.filter_map(f).len(),
    ensures
        exists|i: int| 0 <= i < s.len() && f(#[trigger] s[i]) == Some(s.filter_map(f)[k]),
    decreases s.len(),
{
    let init = s.drop_last();
    if f(s.last()) is Some && k == init.filter_map(f).len() {
        assert(f(s[s.len() - 1]) == Some(s.filter_map(f)[k]));
    } else {
        lemma_filter_map_origin(init, f, k);
        let i = choose|i: int|
            0 <= i < init.len() && f(#[trigger] init[i]) == Some(init.filter_map(f)[k]);
        assert(f(s[i]) == Some(s.filter_map(f)[k]));
    }
}

/// Every item of a sequence that the map keeps is in the filtered and mapped
/// sequence.
proof fn lemma_filter_map_covers<A, B>(s: Seq<A>, f: spec_fn(A) -> Option<B>, i: int)
    requires
        0 <= i < s.len(),
        f(s[i]) is Some,
    ensures
        s.filter_map(f).contains(f(s[i])->0),
    decreases s.len(),
{
    let init = s.drop_last();
    if i == s.len() - 1 {
        let k = init.filter_map(f).len() as int;
        assert(s.filter_map(f)[k] == f(s[i])->0);
    } else {
        lemma_filter_map_covers(init, f, i);
        let k = choose|k: int|
            0 <= k < init.filter_map(f).len() && init.filter_map(f)[k] == f(init[i])->0;
        assert(s.filter_map(f)[k] == f(s[i])->0);
    }
}

/// Every listed path is the path of a visited entry that passes the type
/// filter and the name filter.
pub proof fn lemma_listed_pass_both(
    types: Seq<EntryType>,
    patterns: Seq<Seq<char>>,
    visits: Seq<Visit>,
    k: int,
)
    requires
        0 <= k < kept_paths(types, patterns, visits).len(),
    ensures
        exists|i: int|
            0 <= i < visits.len() && (#[trigger] visits[i] matches Visit::Found(entry)
                && entry.path@ == kept_paths(types, patterns, visits)[k] && type_passes(
                entry.kind,
                types,
            ) && name_passes(entry.file_name@, patterns)),
{
    let pick = |visit: Visit| kept_path(types, patterns, visit);
    lemma_filter_map_origin(visits, pick, k);
    let i = choose|i: int|
        0 <= i < visits.len() && pick(#[trigger] visits[i]) == Some(visits.filter_map(pick)[k]);
    assert(visits[i] is Found);
}

/// Every visited entry that passes both filters is listed.
pub proof fn lemma_passing_are_listed(
    types: Seq<EntryType>,
    patterns: Seq<Seq<char>>,
    visits: Seq<Visit>,
    i: int,
)
    requires
        0 <= i < visits.len(),
        visits[i] matches Visit::Found(entry) && passes(
            entry.kind,
            entry.file_name@,
            types,
            patterns,
        ),
    ensures
        visits[i] matches Visit::Found(entry) && kept_paths(types, patterns, visits).contains(
            entry.path@,
        ),
{
    let pick = |visit: Visit| kept_path(types, patterns, visit);
    lemma_filter_map_covers(visits, pick, i);
}

/// With a single entry type asked for, every listed path is the path of a
/// visited entry of that type.
pub proof fn lemma_single_type_lists_that_type(
    asked: EntryType,
    patterns: Seq<Seq<char>>,
    visits: Seq<Visit>,
    k: int,
)
    requires
        0 <= k < kept_paths(seq![asked], patterns, visits).len(),
    ensures
        exists|i: int|
            0 <= i < visits.len() && (#[trigger] visits[i] matches Visit::Found(entry)
                && entry.path@ == kept_paths(seq![asked], patterns, visits)[k] && entry.kind
                == Some(asked)),
{
    lemma_listed_pass_both(seq![asked], patterns, visits, k);
}

/// The paths of all visited entries, in the order of the walk.
pub open spec fn found_paths(visits: Seq<Visit>) -> Seq<Seq<char>> {
    visits.filter_map(
        |visit: Visit|
            match visit {
                Visit::Found(entry) => Some(entry.path@),
                Visit::Failed(_) => None,
            },
    )
}

/// With no type asked for and no name pattern, every visited entry is
/// listed, whatever its type.
pub proof fn lemma_no_filter_lists_all(visits: Seq<Visit>)
    ensures
        kept_paths(Seq::empty(), Seq::empty(), visits) == found_paths(visits),
    decreases visits.len(),
{
    if visits.len() > 0 {
        lemma_no_filter_lists_all(visits.drop_last());
    }
}

/// Listing is repeatable: what is written depends on the configuration and
/// on what was visited, and on nothing else.
pub proof fn lemma_run_repeatable(config: Config, walks: Seq<Vec<Visit>>, first: Outcome, second: Outcome)
    requires
        first@ == run_outcome(config.type_tags(), config.name_texts(), walks),
        second@ == run_outcome(config.type_tags(), config.name_texts(), walks),
    ensures
        first@ == second@,
{
}

} // verus!
