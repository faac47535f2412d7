//! A set of matchers, asked as one.

use crate::ignorefile::MatchLine;
use crate::watcher::IgnoreDecision;
use vstd::prelude::*;

verus! {

/// The matchers of one session. A path is selected as soon as one of them
/// accepts it; their order changes nothing.
pub struct MatcherSet {
    matchers: Vec<MatchLine>,
}

impl View for MatcherSet {
    type V = Seq<MatchLine>;

    closed spec fn view(&self) -> Seq<MatchLine> {
        self.matchers@
    }
}

impl MatcherSet {
    /// Whether some matcher of the set accepts the candidate.
    pub open spec fn selects(&self, candidate: Option<&str>, is_dir: bool) -> bool {
        exists|i: int| 0 <= i < self@.len() && #[trigger] self@[i].accepts(candidate, is_dir)
    }

    /// What the set wants for the candidate: the flag where a matcher accepts
    /// it, else nothing.
    pub open spec fn decision(&self, candidate: Option<&str>, is_dir: bool) -> IgnoreDecision {
        if self.selects(candidate, is_dir) {
            IgnoreDecision::Ignore
        } else {
            IgnoreDecision::Untouched
        }
    }

    /// Whether some matcher of the set asks for a directory.
    pub open spec fn has_directory_rule(&self) -> bool {
        exists|i: int| 0 <= i < self@.len() && #[trigger] self@[i].directory_only()
    }

    /// Makes a set of the given matchers.
    pub fn new(matchers: Vec<MatchLine>) -> (set: MatcherSet)
        ensures
            set@ == matchers@,
    {
        MatcherSet { matchers }
    }

    /// The number of matchers.
    pub fn len(&self) -> (n: usize)
        ensures
            n == self@.len(),
    {
        self.matchers.len()
    }

    /// Whether the set holds no matcher, and so selects nothing.
    pub fn is_empty(&self) -> (b: bool)
        ensures
            b == (self@.len() == 0),
    {
        self.matchers.len() == 0
    }

    /// Tells whether some matcher accepts `candidate`: the path as text, if it
    /// has a text form. `is_dir` says whether the path is a directory now.
    pub fn matches(&self, candidate: Option<&str>, is_dir: bool) -> (b: bool)
        ensures
            b == self.selects(candidate, is_dir),
    {
        let mut idx: usize = 0;
        while idx < self.matchers.len()
            invariant
                idx <= self.matchers.len(),
                forall|i: int| 0 <= i < idx ==> !(#[trigger] self@[i].accepts(candidate, is_dir)),
            decreases self.matchers.len() - idx,
        {
            if self.matchers[idx].matches(candidate, is_dir) {
                assert(self@[idx as int].accepts(candidate, is_dir));
                return true;
            }
            idx += 1;
        }
        false
    }

    /// Tells whether some matcher asks for a directory. Where none does, the
    /// answers of the set do not depend on what is a directory.
    pub fn asks_for_directory(&self) -> (b: bool)
        ensures
            b == self.has_directory_rule(),
    {
        let mut idx: usize = 0;
        while idx < self.matchers.len()
            invariant
                idx <= self.matchers.len(),
                forall|i: int| 0 <= i < idx ==> !(#[trigger] self@[i].directory_only()),
            decreases self.matchers.len() - idx,
        {
            if self.matchers[idx].dir_only() {
                assert(self@[idx as int].directory_only());
                return true;
            }
            idx += 1;
        }
        false
    }

    /// Decides what the flag of `candidate` should be.
    pub fn evaluate(&self, candidate: Option<&str>, is_dir: bool) -> (d: IgnoreDecision)
        ensures
            d == self.decision(candidate, is_dir),
    {
        if self.matches(candidate, is_dir) {
            IgnoreDecision::Ignore
        } else {
            IgnoreDecision::Untouched
        }
    }
}

/// A set without a rule that asks for a directory decides the same whether
/// a path is a directory or not.
pub proof fn lemma_directories_matter_to_directory_rules_only(
    set: MatcherSet,
    candidate: Option<&str>,
)
    requires
        !set.has_directory_rule(),
    ensures
        set.selects(candidate, false) == set.selects(candidate, true),
        set.decision(candidate, false) == set.decision(candidate, true),
{
    if set.selects(candidate, false) {
        let i = choose|i: int| 0 <= i < set@.len() && #[trigger] set@[i].accepts(candidate, false);
        assert(!set@[i].directory_only());
        assert(set@[i].accepts(candidate, true));
    }
    if set.selects(candidate, true) {
        let i = choose|i: int| 0 <= i < set@.len() && #[trigger] set@[i].accepts(candidate, true);
        assert(!set@[i].directory_only());
        assert(set@[i].accepts(candidate, false));
    }
}

/// A path that is a directory is selected wherever the same path, were it
/// none, would be.
pub proof fn lemma_directories_are_selected_no_less(set: MatcherSet, candidate: Option<&str>)
    ensures
        set.selects(candidate, false) ==> set.selects(candidate, true),
{
    if set.selects(candidate, false) {
        let i = choose|i: int| 0 <= i < set@.len() && #[trigger] set@[i].accepts(candidate, false);
        assert(set@[i].accepts(candidate, true));
    }
}

/// The order of the matchers changes nothing: two sets that hold the same
/// matchers select the same paths.
pub proof fn lemma_order_changes_nothing(
    first: MatcherSet,
    second: MatcherSet,
    candidate: Option<&str>,
    is_dir: bool,
)
    requires
        first@.to_multiset() == second@.to_multiset(),
    ensures
        first.selects(candidate, is_dir) == second.selects(candidate, is_dir),
{
    broadcast use vstd::seq_lib::group_to_multiset_ensures;

    if first.selects(candidate, is_dir) {
        let i = choose|i: int|
            0 <= i < first@.len() && #[trigger] first@[i].accepts(candidate, is_dir);
        assert(first@.contains(first@[i]));
        assert(second@.to_multiset().count(first@[i]) > 0);
        assert(second@.contains(first@[i]));
        let j = choose|j: int| 0 <= j < second@.len() && second@[j] == first@[i];
        assert(second@[j].accepts(candidate, is_dir));
    }
    if second.selects(candidate, is_dir) {
        let i = choose|i: int|
            0 <= i < second@.len() && #[trigger] second@[i].accepts(candidate, is_dir);
        assert(second@.contains(second@[i]));
        assert(first@.to_multiset().count(second@[i]) > 0);
        assert(first@.contains(second@[i]));
        let j = choose|j: int| 0 <= j < first@.len() && first@[j] == second@[i];
        assert(first@[j].accepts(candidate, is_dir));
    }
}

} // verus!
