use dropboxignore::ignorefile::parse::{parse_line, MatchRule};
use nom::branch::alt;
use nom::bytes::complete::{tag, take_while1};
use nom::character::is_alphanumeric;
use nom::combinator::{all_consuming, verify};
use nom::multi::{many0, many1_count};
use nom::{IResult, Parser};

fn combinators(line: &str) -> IResult<&str, Vec<MatchRule>> {
    let separator =
        verify(many1_count(tag("/")), |count| *count == 1).map(|_| MatchRule::Separator);
    let stars = many1_count(tag("*")).map(|count| {
        if count == 1 {
            return MatchRule::SingleStar;
        }
        MatchRule::DoubleStar
    });
    let question_mark = tag("?").map(|_| MatchRule::QuestionMark);
    let text = take_while1(|c| c == ('_') || is_alphanumeric(c as u8))
        .map(|text: &str| MatchRule::Text(text.to_string()));

    all_consuming(many0(alt((separator, stars, question_mark, text))))(line)
}

fn agree(line: &str) {
    match (parse_line(line), combinators(line)) {
        (Ok(ours), Ok(theirs)) => assert_eq!(ours, theirs, "on {:?}", line),
        (Err(_), Err(_)) => {}
        (ours, theirs) => panic!("on {:?}: {:?} against {:?}", line, ours, theirs),
    }
}

#[test]
fn grammar_agrees_with_combinators_on_samples() {
    for line in [
        "",
        "/",
        "//",
        "/**/node_modules/",
        "node_modules",
        "a/b",
        "a//b",
        "***",
        "*?*",
        "a?b*c**d/",
        "a.b",
        "a b",
        "_",
        "__a__",
        "#comment",
        "\u{e9}",
        "a-b",
        "A_z0/9",
        "/a/b/c/d/e/f",
        "?/?/?",
        "x/",
        "/x",
        "x//",
    ] {
        agree(line);
    }
}

#[test]
fn grammar_agrees_with_combinators_on_all_short_lines() {
    let alphabet = ['/', '*', '?', 'a', '_', '.', '9', 'Z'];
    let mut lines: Vec<String> = vec![String::new()];
    for _ in 0..5 {
        let mut longer = Vec::new();
        for line in &lines {
            for c in alphabet {
                let mut next = line.clone();
                next.push(c);
                longer.push(next);
            }
        }
        for line in &longer {
            agree(line);
        }
        lines = longer;
    }
}
