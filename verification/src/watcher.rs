//! The decisions of a watch session.
//!
//! The session itself (waiting for the next change, asking which paths are
//! directories, writing the flag) is the caller's business. What is decided
//! here is which paths of a change get their flag touched, and how.

use vstd::prelude::*;

verus! {

/// What a rule set wants for one path.
#[derive(PartialEq, Eq, Structural, Clone, Copy, Debug)]
pub enum IgnoreDecision {
    /// No rule concerns the path: its flag stays as it is.
    Untouched,
    /// The path should carry the exclusion flag.
    Ignore,
    /// The path should not carry the exclusion flag.
    Unignore,
}

/// A filesystem change, with the decision taken for every path it names.
pub enum Change {
    /// Paths were created; one decision per path, in the order of the event.
    Create(Vec<IgnoreDecision>),
    /// A path was moved and both ends are known.
    Rename { from: IgnoreDecision, to: IgnoreDecision },
    /// Any other kind of change.
    Other,
}

/// The index, among the paths of a change, of the path to act on, and what to
/// do to it.
#[derive(PartialEq, Eq, Structural, Clone, Copy, Debug)]
pub struct Dispatch {
    pub path: usize,
    pub decision: IgnoreDecision,
}

/// A call on the store that keeps the flags.
#[derive(PartialEq, Eq, Structural, Clone, Copy, Debug)]
pub enum FlagCall {
    /// Put the flag on the path.
    Mark,
    /// Take the flag off the path.
    Unmark,
}

/// What can go wrong while a session runs.
#[derive(PartialEq, Eq, Structural, Clone, Copy, Debug)]
pub enum Failure {
    /// The source of changes could not be read.
    Read,
    /// A call on the store that keeps the flags failed.
    Store,
}

/// How a session proceeds.
#[derive(PartialEq, Eq, Structural, Clone, Copy, Debug)]
pub enum Course {
    /// The failure is reported and the next change is taken.
    GoOn,
    /// The session ends with the failure.
    Stop,
}

/// How a session proceeds after a failure: a store call that failed costs
/// one flag and no more, a source that cannot be read leaves nothing to do.
pub open spec fn course_after(failure: Failure) -> Course {
    match failure {
        Failure::Read => Course::Stop,
        Failure::Store => Course::GoOn,
    }
}

/// What a rename dispatches to its destination: nothing when both ends were
/// decided alike, else the destination's own decision.
pub open spec fn rename_outcome(from: IgnoreDecision, to: IgnoreDecision) -> Option<IgnoreDecision> {
    if from == to {
        None
    } else {
        Some(to)
    }
}

/// The dispatches a change calls for, in order.
pub open spec fn reaction(change: Change) -> Seq<Dispatch> {
    match change {
        Change::Create(decisions) => Seq::new(
            decisions@.len(),
            |i: int| Dispatch { path: i as usize, decision: decisions@[i] },
        ),
        Change::Rename { from, to } => match rename_outcome(from, to) {
            Some(decision) => seq![Dispatch { path: 1, decision }],
            None => Seq::empty(),
        },
        Change::Other => Seq::empty(),
    }
}

/// The store call a decision leads to, given whether the path carries the
/// flag now. Taking the flag off a path that has none is no call at all.
pub open spec fn store_call(decision: IgnoreDecision, flagged: bool) -> Option<FlagCall> {
    match decision {
        IgnoreDecision::Untouched => None,
        IgnoreDecision::Ignore => Some(FlagCall::Mark),
        IgnoreDecision::Unignore => if flagged {
            Some(FlagCall::Unmark)
        } else {
            None
        },
    }
}

/// Decides what a rename does to its destination.
pub fn rename_dispatch(from: IgnoreDecision, to: IgnoreDecision) -> (r: Option<IgnoreDecision>)
    ensures
        r == rename_outcome(from, to),
{
    if from == to {
        None
    } else {
        Some(to)
    }
}

/// Lists the dispatches that `change` calls for.
pub fn react(change: &Change) -> (r: Vec<Dispatch>)
    ensures
        r@ == reaction(*change),
{
    let mut out: Vec<Dispatch> = Vec::new();
    match change {
        Change::Create(decisions) => {
            let mut i: usize = 0;
            while i < decisions.len()
                invariant
                    i <= decisions.len(),
                    out@ == reaction(*change).take(i as int),
                    *change == Change::Create(*decisions),
                decreases decisions.len() - i,
            {
                out.push(Dispatch { path: i, decision: decisions[i] });
                i += 1;
            }
        },
        Change::Rename { from, to } => {
            match rename_dispatch(*from, *to) {
                Some(decision) => {
                    out.push(Dispatch { path: 1, decision });
                },
                None => {},
            }
        },
        Change::Other => {},
    }
    out
}

/// Picks the store call for a decision; `flagged` says whether the path
/// carries the flag now and is only looked at for `Unignore`.
pub fn flag_call(decision: IgnoreDecision, flagged: bool) -> (r: Option<FlagCall>)
    ensures
        r == store_call(decision, flagged),
{
    match decision {
        IgnoreDecision::Untouched => None,
        IgnoreDecision::Ignore => Some(FlagCall::Mark),
        IgnoreDecision::Unignore => if flagged {
            Some(FlagCall::Unmark)
        } else {
            None
        },
    }
}

/// Decides how a session proceeds after a failure.
pub fn on_failure(failure: Failure) -> (course: Course)
    ensures
        course == course_after(failure),
{
    match failure {
        Failure::Read => Course::Stop,
        Failure::Store => Course::GoOn,
    }
}

/// No failure of the store ends a session, and every failure to read does.
pub proof fn lemma_only_reading_ends_a_session(failure: Failure)
    ensures
        course_after(failure) == Course::Stop <==> failure == Failure::Read,
{
}

/// A rename whose two ends were decided alike dispatches nothing, so the
/// store is called for neither path.
pub proof fn lemma_rename_between_equals_is_silent(decision: IgnoreDecision)
    ensures
        reaction(Change::Rename { from: decision, to: decision }).len() == 0,
{
}

/// A rename whose two ends were decided differently dispatches once: the
/// destination's decision, to the destination. The source is left alone.
pub proof fn lemma_rename_dispatches_destination(from: IgnoreDecision, to: IgnoreDecision)
    requires
        from != to,
    ensures
        reaction(Change::Rename { from, to }) == seq![Dispatch { path: 1, decision: to }],
{
}

/// A path that moves from where it should not carry the flag to where it
/// should gets the flag, in one call, whatever it carried before.
pub proof fn lemma_rename_into_ignored_marks_destination(flagged: bool)
    ensures
        reaction(Change::Rename { from: IgnoreDecision::Unignore, to: IgnoreDecision::Ignore })
            == seq![Dispatch { path: 1, decision: IgnoreDecision::Ignore }],
        store_call(IgnoreDecision::Ignore, flagged) == Some(FlagCall::Mark),
{
}

/// A path that no rule concerns never leads to a call on the store, and
/// neither does taking the flag off a path that has none.
pub proof fn lemma_no_call_without_need(flagged: bool)
    ensures
        store_call(IgnoreDecision::Untouched, flagged) is None,
        store_call(IgnoreDecision::Unignore, false) is None,
{
}

} // verus!
