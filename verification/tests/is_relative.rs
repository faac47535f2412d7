use dropboxignore::ignorefile::parse::MatchRule;
use dropboxignore::ignorefile::MatchLine;

fn text(string: &str) -> MatchRule {
    MatchRule::Text(string.to_string())
}

#[test]
fn test_name_only() {
    assert!(MatchLine::is_relative(&[text("path")]))
}

#[test]
fn test_trailing_separator() {
    assert!(MatchLine::is_relative(&[text("path"), MatchRule::Separator]))
}

#[test]
fn mod_test_absolute() {
    assert!(!MatchLine::is_relative(&[MatchRule::Separator, text("path")]))
}

#[test]
fn no_rules_are_relative() {
    assert!(MatchLine::is_relative(&[]))
}

#[test]
fn lone_separator_is_relative() {
    assert!(MatchLine::is_relative(&[MatchRule::Separator]))
}

#[test]
fn inner_separator_is_not_relative() {
    assert!(!MatchLine::is_relative(&[text("a"), MatchRule::Separator, text("b")]));
    assert!(!MatchLine::is_relative(&[
        MatchRule::Separator,
        MatchRule::DoubleStar,
        MatchRule::Separator
    ]));
}

#[test]
fn wildcards_are_relative() {
    assert!(MatchLine::is_relative(&[
        MatchRule::SingleStar,
        MatchRule::QuestionMark,
        MatchRule::DoubleStar
    ]));
}

#[test]
fn relative_rules_are_anchored() {
    assert_eq!(
        MatchLine::transform_parsed_rules(vec![text("path")]),
        vec![MatchRule::Separator, MatchRule::DoubleStar, text("path")]
    );
    assert_eq!(
        MatchLine::transform_parsed_rules(vec![text("path"), MatchRule::Separator]),
        vec![MatchRule::Separator, MatchRule::DoubleStar, text("path"), MatchRule::Separator]
    );
    assert_eq!(
        MatchLine::transform_parsed_rules(vec![]),
        vec![MatchRule::Separator, MatchRule::DoubleStar]
    );
}

#[test]
fn rooted_rules_stay_as_they_are() {
    assert_eq!(
        MatchLine::transform_parsed_rules(vec![MatchRule::Separator, text("path")]),
        vec![MatchRule::Separator, text("path")]
    );
    assert_eq!(
        MatchLine::transform_parsed_rules(vec![text("a"), MatchRule::Separator, text("b")]),
        vec![text("a"), MatchRule::Separator, text("b")]
    );
    assert_eq!(
        MatchLine::transform_parsed_rules(vec![
            MatchRule::Separator,
            MatchRule::DoubleStar,
            MatchRule::Separator
        ]),
        vec![MatchRule::Separator, MatchRule::DoubleStar, MatchRule::Separator]
    );
    assert_eq!(
        MatchLine::transform_parsed_rules(vec![
            MatchRule::SingleStar,
            MatchRule::Separator,
            MatchRule::Separator
        ]),
        vec![MatchRule::SingleStar, MatchRule::Separator, MatchRule::Separator]
    );
}
