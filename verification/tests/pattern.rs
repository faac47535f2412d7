use dropboxignore::ignorefile::parse::MatchRule;
use dropboxignore::ignorefile::pattern::pattern_source;
use dropboxignore::text::decimal_text;

fn text(string: &str) -> MatchRule {
    MatchRule::Text(string.to_string())
}

#[test]
fn rooted_rule() {
    assert_eq!(
        pattern_source("/base", &[MatchRule::Separator, text("a"), MatchRule::Separator, text("b")], false, '/'),
        "/base/a/b$"
    );
}

#[test]
fn anchored_leaf_rule() {
    assert_eq!(
        pattern_source(
            "/base",
            &[MatchRule::Separator, MatchRule::DoubleStar, text("node_modules")],
            true,
            '/'
        ),
        r"/base[a-zA-Z0-9._\-/]*/[a-zA-Z0-9._\-\[\]/]*node_modules$"
    );
}

#[test]
fn last_separator_is_optional() {
    assert_eq!(
        pattern_source("/base", &[MatchRule::Separator, text("a"), MatchRule::Separator], false, '/'),
        "/base/a/?$"
    );
    assert_eq!(pattern_source("/base", &[MatchRule::Separator], false, '/'), "/base/?$");
}

#[test]
fn wildcards() {
    let separator = MatchRule::Separator;
    assert_eq!(
        pattern_source("", &[separator.clone(), MatchRule::SingleStar], false, '/'),
        r"/[a-zA-Z0-9._\-\[\]]*$"
    );
    assert_eq!(
        pattern_source("", &[separator.clone(), MatchRule::DoubleStar], false, '/'),
        r"/[a-zA-Z0-9._\-\[\]/]*$"
    );
    assert_eq!(
        pattern_source("", &[separator, MatchRule::QuestionMark], false, '/'),
        r"/[a-zA-Z0-9._\-\[\]]?$"
    );
}

#[test]
fn no_rules() {
    assert_eq!(pattern_source("/base", &[], false, '/'), "/base$");
    assert_eq!(pattern_source("/base", &[], true, '/'), r"/base[a-zA-Z0-9._\-/]*$");
}

#[test]
fn backslash_delimiter() {
    assert_eq!(
        pattern_source("C:", &[MatchRule::Separator, text("a"), MatchRule::Separator], false, '\\'),
        r"C:\\a\\?$"
    );
}

#[test]
fn any_other_delimiter_is_written_as_a_slash() {
    assert_eq!(pattern_source("", &[MatchRule::Separator, text("a")], false, ':'), "/a$");
}

#[test]
fn base_directory_is_a_literal() {
    assert_eq!(
        pattern_source("/b.se (1)/x+y", &[MatchRule::Separator, text("a")], false, '/'),
        r"/b\.se \(1\)/x\+y/a$"
    );
    assert_eq!(
        pattern_source(r"C:\dir[0]", &[MatchRule::Separator, text("a")], true, '\\'),
        r"C:\\dir\[0\][a-zA-Z0-9._\-/]*\\a$"
    );
    assert_eq!(
        pattern_source(r"\.+*?()|[]{}^$#&-~", &[], false, '/'),
        r"\\\.\+\*\?\(\)\|\[\]\{\}\^\$\#\&\-\~$"
    );
    assert_eq!(pattern_source("/a b/\u{e9}_%!", &[], false, '/'), "/a b/\u{e9}_%!$");
}

#[test]
fn text_is_a_literal() {
    let separator = MatchRule::Separator;
    assert_eq!(pattern_source("", &[separator.clone(), text("a.b")], false, '/'), r"/a\.b$");
    assert_eq!(
        pattern_source("", &[separator.clone(), text("(x)"), text("y*")], false, '/'),
        r"/\(x\)y\*$"
    );
    assert_eq!(pattern_source("", &[separator, text("plain_09")], false, '/'), "/plain_09$");
}

#[test]
fn rooted_rule_without_its_first_separator_gets_the_delimiter() {
    assert_eq!(
        pattern_source("/base", &[text("a"), MatchRule::Separator, text("b")], false, '/'),
        "/base/a/b$"
    );
    assert_eq!(
        pattern_source("C:", &[text("a"), MatchRule::Separator, text("b")], false, '\\'),
        r"C:\\a\\b$"
    );
    assert_eq!(
        pattern_source("/base", &[MatchRule::SingleStar, MatchRule::Separator, MatchRule::Separator], false, '/'),
        r"/base/[a-zA-Z0-9._\-\[\]]*//?$"
    );
    assert_eq!(pattern_source("/base", &[text("a")], false, '/'), "/base/a$");
}

#[test]
fn relative_rule_gets_the_wildcard_and_no_delimiter_of_its_own() {
    assert_eq!(pattern_source("/base", &[text("a")], true, '/'), r"/base[a-zA-Z0-9._\-/]*a$");
}

#[test]
fn decimal_numbers() {
    assert_eq!(decimal_text(0), "0");
    assert_eq!(decimal_text(7), "7");
    assert_eq!(decimal_text(10), "10");
    assert_eq!(decimal_text(1234567890), "1234567890");
    assert_eq!(decimal_text(usize::MAX), usize::MAX.to_string());
}
