use dropboxignore::ignorefile::lines::compile_lines;
use dropboxignore::ignorefile::set::MatcherSet;
use dropboxignore::watcher::{
    flag_call, on_failure, react, rename_dispatch, Change, Course, Dispatch, Failure, FlagCall,
    IgnoreDecision,
};

const ALL: [IgnoreDecision; 3] =
    [IgnoreDecision::Untouched, IgnoreDecision::Ignore, IgnoreDecision::Unignore];

#[test]
fn created_paths_get_their_own_decisions() {
    let change = Change::Create(vec![
        IgnoreDecision::Ignore,
        IgnoreDecision::Untouched,
        IgnoreDecision::Unignore,
    ]);
    assert_eq!(
        react(&change),
        vec![
            Dispatch { path: 0, decision: IgnoreDecision::Ignore },
            Dispatch { path: 1, decision: IgnoreDecision::Untouched },
            Dispatch { path: 2, decision: IgnoreDecision::Unignore },
        ]
    );
    assert_eq!(react(&Change::Create(Vec::new())), Vec::new());
}

#[test]
fn rename_between_equal_decisions_does_nothing() {
    for decision in ALL {
        assert_eq!(react(&Change::Rename { from: decision, to: decision }), Vec::new());
        assert_eq!(rename_dispatch(decision, decision), None);
    }
}

#[test]
fn rename_into_an_ignored_place_marks_the_destination_once() {
    let dispatches =
        react(&Change::Rename { from: IgnoreDecision::Unignore, to: IgnoreDecision::Ignore });
    assert_eq!(dispatches, vec![Dispatch { path: 1, decision: IgnoreDecision::Ignore }]);
    let calls: Vec<Option<FlagCall>> =
        dispatches.iter().map(|d| flag_call(d.decision, false)).collect();
    assert_eq!(calls, vec![Some(FlagCall::Mark)]);
}

#[test]
fn rename_between_different_decisions_dispatches_the_destination() {
    for from in ALL {
        for to in ALL {
            if from != to {
                assert_eq!(
                    react(&Change::Rename { from, to }),
                    vec![Dispatch { path: 1, decision: to }]
                );
                assert_eq!(rename_dispatch(from, to), Some(to));
            }
        }
    }
}

#[test]
fn other_changes_do_nothing() {
    assert_eq!(react(&Change::Other), Vec::new());
}

#[test]
fn store_calls() {
    assert_eq!(flag_call(IgnoreDecision::Untouched, false), None);
    assert_eq!(flag_call(IgnoreDecision::Untouched, true), None);
    assert_eq!(flag_call(IgnoreDecision::Ignore, false), Some(FlagCall::Mark));
    assert_eq!(flag_call(IgnoreDecision::Ignore, true), Some(FlagCall::Mark));
    assert_eq!(flag_call(IgnoreDecision::Unignore, true), Some(FlagCall::Unmark));
    assert_eq!(flag_call(IgnoreDecision::Unignore, false), None);
}

#[test]
fn set_decides_by_any_matcher() {
    let lines = vec!["node_modules".to_string(), "/build/".to_string()];
    let set = compile_lines(Some("/base"), &lines).matchers;
    assert_eq!(set.len(), 2);
    assert_eq!(set.evaluate(Some("/base/a/node_modules"), false), IgnoreDecision::Ignore);
    assert_eq!(set.evaluate(Some("/base/build"), true), IgnoreDecision::Ignore);
    assert_eq!(set.evaluate(Some("/base/build"), false), IgnoreDecision::Untouched);
    assert_eq!(set.evaluate(Some("/base/src"), true), IgnoreDecision::Untouched);
    assert_eq!(set.evaluate(None, true), IgnoreDecision::Untouched);
}

#[test]
fn empty_set_selects_nothing() {
    let set = MatcherSet::new(Vec::new());
    assert!(set.is_empty());
    assert_eq!(set.len(), 0);
    assert!(!set.matches(Some("/base/a"), true));
    assert_eq!(set.evaluate(Some("/base/a"), true), IgnoreDecision::Untouched);
}

#[test]
fn set_knows_whether_directories_matter() {
    let with = compile_lines(Some("/base"), &vec!["a".to_string(), "b/".to_string()]).matchers;
    assert!(with.asks_for_directory());
    let without = compile_lines(Some("/base"), &vec!["a".to_string(), "/b/c".to_string()]).matchers;
    assert!(!without.asks_for_directory());
    for sample in ["/base/a", "/base/b/c", "/base/x"] {
        assert_eq!(without.matches(Some(sample), false), without.matches(Some(sample), true));
    }
    assert!(!MatcherSet::new(Vec::new()).asks_for_directory());
}

#[test]
fn store_failure_does_not_end_the_session() {
    assert_eq!(on_failure(Failure::Store), Course::GoOn);
}

#[test]
fn read_failure_ends_the_session() {
    assert_eq!(on_failure(Failure::Read), Course::Stop);
}
