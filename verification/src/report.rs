//! What a tool writes: the text for standard output, the text for the
//! diagnostic channel, and the fatal error that ended the run, if any.

use vstd::prelude::*;
use vstd::string::StringExecFns;

verus! {

/// The result of a run, or of one input's share of it.
pub struct Outcome {
    /// The text written to standard output.
    pub stdout: String,
    /// The text written to the diagnostic channel.
    pub stderr: String,
    /// The message of the fatal error that ended the run.
    pub failure: Option<String>,
}

/// The mathematical content of an [`Outcome`].
pub struct OutcomeView {
    pub stdout: Seq<char>,
    pub stderr: Seq<char>,
    pub failure: Option<Seq<char>>,
}

impl View for Outcome {
    type V = OutcomeView;

    open spec fn view(&self) -> OutcomeView {
        OutcomeView {
            stdout: self.stdout@,
            stderr: self.stderr@,
            failure: match self.failure {
                Some(message) => Some(message@),
                None => None,
            },
        }
    }
}

impl OutcomeView {
    /// Nothing written, no failure.
    pub open spec fn empty() -> OutcomeView {
        OutcomeView { stdout: Seq::empty(), stderr: Seq::empty(), failure: None }
    }

    /// This outcome followed by `next`: a failed run takes nothing more.
    pub open spec fn followed_by(self, next: OutcomeView) -> OutcomeView {
        if self.failure is Some {
            self
        } else {
            OutcomeView {
                stdout: self.stdout + next.stdout,
                stderr: self.stderr + next.stderr,
                failure: next.failure,
            }
        }
    }
}

/// The outcome of a run whose inputs, in order, have the outcomes `parts`:
/// everything up to and including the first failure.
pub open spec fn combine(parts: Seq<OutcomeView>) -> OutcomeView
    decreases parts.len(),
{
    if parts.len() == 0 {
        OutcomeView::empty()
    } else {
        combine(parts.drop_last()).followed_by(parts.last())
    }
}

/// A run fails exactly when one of its parts does, and then with the
/// message of the first part that failed.
pub proof fn lemma_combine_failure(parts: Seq<OutcomeView>)
    ensures
        combine(parts).failure is Some <==> exists|i: int|
            0 <= i < parts.len() && (#[trigger] parts[i]).failure is Some,
        forall|i: int|
            0 <= i < parts.len() && (#[trigger] parts[i]).failure is Some && (forall|j: int|
                0 <= j < i ==> (#[trigger] parts[j]).failure is None) ==> combine(parts).failure
                == parts[i].failure,
    decreases parts.len(),
{
    if parts.len() > 0 {
        let init = parts.drop_last();
        lemma_combine_failure(init);
        assert forall|i: int| 0 <= i < init.len() implies init[i] == parts[i] by {}
        if combine(init).failure is Some {
            let i = choose|i: int| 0 <= i < init.len() && (#[trigger] init[i]).failure is Some;
            assert(parts[i].failure is Some);
        }
        assert forall|i: int|
            0 <= i < parts.len() && (#[trigger] parts[i]).failure is Some && (forall|j: int|
                0 <= j < i ==> (#[trigger] parts[j]).failure is None) implies combine(
            parts,
        ).failure == parts[i].failure by {
            if i < init.len() {
                assert(init[i].failure is Some);
                assert forall|j: int| 0 <= j < i implies (#[trigger] init[j]).failure is None by {
                    assert(parts[j].failure is None);
                }
            } else {
                if combine(init).failure is Some {
                    let k = choose|k: int|
                        0 <= k < init.len() && (#[trigger] init[k]).failure is Some;
                    assert(parts[k].failure is None);
                }
            }
        }
    }
}

impl Outcome {
    /// An outcome with nothing written and no failure.
    pub fn new() -> (outcome: Outcome)
        ensures
            outcome@ == OutcomeView::empty(),
    {
        Outcome { stdout: String::new(), stderr: String::new(), failure: None }
    }

    /// Takes the outcome of the next input, unless the run has failed.
    pub fn absorb(&mut self, next: Outcome)
        ensures
            final(self)@ == old(self)@.followed_by(next@),
    {
        if self.failure.is_none() {
            self.stdout.append(next.stdout.as_str());
            self.stderr.append(next.stderr.as_str());
            self.failure = next.failure;
        }
    }
}

} // verus!
