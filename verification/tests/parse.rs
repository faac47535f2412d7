use dropboxignore::ignorefile::parse::MatchRule::{
    DoubleStar, QuestionMark, Separator, SingleStar, Text,
};
use dropboxignore::ignorefile::parse::{chars_of, classify, parse_line, CharKind, ParseError};

#[test]
fn test_node_modules() {
    assert_eq!(
        parse_line("/**/node_modules/"),
        Ok((
            "",
            vec![
                Separator,
                DoubleStar,
                Separator,
                Text("node_modules".to_string()),
                Separator
            ]
        ))
    );
}

#[test]
fn test_empty() {
    assert_eq!(parse_line(""), Ok(("", vec![])));
}

#[test]
fn test_double_slash() {
    assert!(parse_line("//").is_err());
}

#[test]
fn double_slash_names_its_place() {
    assert_eq!(parse_line("//"), Err(ParseError::RepeatedSeparator { position: 0 }));
    assert_eq!(parse_line("ab//c"), Err(ParseError::RepeatedSeparator { position: 2 }));
    assert_eq!(parse_line("/a///"), Err(ParseError::RepeatedSeparator { position: 2 }));
}

#[test]
fn unsupported_character_names_its_place() {
    assert_eq!(parse_line("a-b"), Err(ParseError::UnsupportedCharacter { position: 1 }));
    assert_eq!(parse_line(" a"), Err(ParseError::UnsupportedCharacter { position: 0 }));
    assert_eq!(parse_line("/a/[b]"), Err(ParseError::UnsupportedCharacter { position: 3 }));
    assert_eq!(parse_line("!x"), Err(ParseError::UnsupportedCharacter { position: 0 }));
}

#[test]
fn first_error_wins() {
    assert_eq!(parse_line("a.b//"), Err(ParseError::UnsupportedCharacter { position: 1 }));
    assert_eq!(parse_line("a//b."), Err(ParseError::RepeatedSeparator { position: 1 }));
}

#[test]
fn positions_count_from_zero() {
    assert_eq!(parse_line("ab_9-"), Err(ParseError::UnsupportedCharacter { position: 4 }));
    assert_eq!(parse_line("a/b/\u{e9}"), Err(ParseError::UnsupportedCharacter { position: 4 }));
}

#[test]
fn stars() {
    assert_eq!(parse_line("*"), Ok(("", vec![SingleStar])));
    assert_eq!(parse_line("**"), Ok(("", vec![DoubleStar])));
    assert_eq!(parse_line("***"), Ok(("", vec![DoubleStar])));
    assert_eq!(parse_line("*****"), Ok(("", vec![DoubleStar])));
    assert_eq!(parse_line("*/**"), Ok(("", vec![SingleStar, Separator, DoubleStar])));
    assert_eq!(
        parse_line("a*b**"),
        Ok(("", vec![Text("a".to_string()), SingleStar, Text("b".to_string()), DoubleStar]))
    );
}

#[test]
fn question_marks_stand_alone() {
    assert_eq!(parse_line("?"), Ok(("", vec![QuestionMark])));
    assert_eq!(parse_line("??"), Ok(("", vec![QuestionMark, QuestionMark])));
    assert_eq!(
        parse_line("a?b"),
        Ok(("", vec![Text("a".to_string()), QuestionMark, Text("b".to_string())]))
    );
}

#[test]
fn text_runs_are_as_long_as_they_can_be() {
    assert_eq!(parse_line("abc_DEF_019"), Ok(("", vec![Text("abc_DEF_019".to_string())])));
    assert_eq!(
        parse_line("a/b"),
        Ok(("", vec![Text("a".to_string()), Separator, Text("b".to_string())]))
    );
    assert_eq!(parse_line("/"), Ok(("", vec![Separator])));
}

#[test]
fn text_is_ascii_letters_digits_and_underscore() {
    assert_eq!(parse_line("\u{161}"), Err(ParseError::UnsupportedCharacter { position: 0 }));
    assert_eq!(parse_line("\u{e9}"), Err(ParseError::UnsupportedCharacter { position: 0 }));
    assert_eq!(parse_line("a\u{2041}"), Err(ParseError::UnsupportedCharacter { position: 1 }));
    assert_eq!(parse_line("\u{2041}"), Err(ParseError::UnsupportedCharacter { position: 0 }));
    assert_eq!(parse_line("\u{661}"), Err(ParseError::UnsupportedCharacter { position: 0 }));
    for c in ['\u{130}', '\u{161}', '\u{15f}', '\u{2041}', '\u{e9}', '\u{3b1}', '\u{ff21}'] {
        assert_eq!(classify(c), CharKind::Other);
    }
}

#[test]
fn text_characters_are_exactly_the_ascii_word_characters() {
    for code in 0u32..0x11000 {
        if let Some(c) = char::from_u32(code) {
            let expected = c == '_' || c.is_ascii_alphanumeric();
            assert_eq!(classify(c) == CharKind::Text, expected);
        }
    }
}

#[test]
fn kinds_of_characters() {
    assert_eq!(classify('/'), CharKind::Separator);
    assert_eq!(classify('*'), CharKind::Star);
    assert_eq!(classify('?'), CharKind::Question);
    for c in ['a', 'z', 'A', 'Z', '0', '9', '_'] {
        assert_eq!(classify(c), CharKind::Text);
    }
    for c in ['.', '-', ' ', '\\', '[', '@', '`', '{', ':', '\n'] {
        assert_eq!(classify(c), CharKind::Other);
    }
}

#[test]
fn characters_are_handed_out_in_order() {
    assert_eq!(chars_of("a/\u{161}*"), vec!['a', '/', '\u{161}', '*']);
    assert_eq!(chars_of("\u{1f600}b"), vec!['\u{1f600}', 'b']);
    assert_eq!(chars_of(""), Vec::<char>::new());
}

#[test]
fn parse_error_messages() {
    assert_eq!(
        ParseError::RepeatedSeparator { position: 7 }.message(),
        "repeated separator at offset 7"
    );
    assert_eq!(
        ParseError::UnsupportedCharacter { position: 120 }.message(),
        "unsupported character at offset 120"
    );
}
