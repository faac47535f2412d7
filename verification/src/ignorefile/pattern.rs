//! The text of the regular expression that stands for a rule.
//!
//! A pattern is the base directory as a literal, then one fragment per token,
//! then the end anchor `$`. A rule that is relative to the base directory gets
//! a wildcard between the base directory and its fragments, so that it may sit
//! at any depth.

use crate::ignorefile::engine::escaped;
use crate::ignorefile::parse::{
    is_text_char,
    lemma_text_tokens,
    lex,
    tokens_of,
    MatchRule,
    Token,
};
use vstd::prelude::*;

verus! {

/// Zero or more characters of a path segment.
pub open spec fn segment_wildcard() -> Seq<char> {
    r"[a-zA-Z0-9._\-\[\]]*"@
}

/// Zero or more characters of a path, delimiters included.
pub open spec fn path_wildcard() -> Seq<char> {
    r"[a-zA-Z0-9._\-\[\]/]*"@
}

/// At most one character of a path segment.
pub open spec fn optional_character() -> Seq<char> {
    r"[a-zA-Z0-9._\-\[\]]?"@
}

/// The wildcard that lets a relative rule sit at any depth.
pub open spec fn relative_modifier() -> Seq<char> {
    r"[a-zA-Z0-9._\-/]*"@
}

/// The delimiter as a pattern: a backslash has to be escaped, and every other
/// delimiter is written `/`.
pub open spec fn delimiter_pattern(delimiter: char) -> Seq<char> {
    if delimiter == '\\' {
        r"\\"@
    } else {
        "/"@
    }
}

/// The pattern text of one token. Text stands for itself. A separator that
/// ends the rule is optional, since the path of a directory often comes
/// without a trailing delimiter.
pub open spec fn fragment(token: Token, last: bool, delimiter: char) -> Seq<char> {
    match token {
        Token::Text(text) => escaped(text),
        Token::QuestionMark => optional_character(),
        Token::DoubleStar => path_wildcard(),
        Token::SingleStar => segment_wildcard(),
        Token::Separator => if last {
            delimiter_pattern(delimiter) + "?"@
        } else {
            delimiter_pattern(delimiter)
        },
    }
}

/// The fragments of the first `count` tokens, one after the other.
pub open spec fn fragments(tokens: Seq<Token>, count: int, delimiter: char) -> Seq<char>
    decreases count,
{
    if count <= 0 {
        Seq::empty()
    } else {
        fragments(tokens, count - 1, delimiter) + fragment(
            tokens[count - 1],
            count == tokens.len(),
            delimiter,
        )
    }
}

/// Whether a rule names a leaf only: it holds no separator, or none but its
/// last token.
pub open spec fn leaf_only(tokens: Seq<Token>) -> bool {
    forall|i: int| 0 <= i < tokens.len() && tokens[i] is Separator ==> i == tokens.len() - 1
}

/// The rule as it is matched. One that names a leaf only gets a separator
/// and a double star before it, so that it reaches any depth below the base
/// directory. Any other rule is rooted and stays as it is.
pub open spec fn anchored(tokens: Seq<Token>) -> Seq<Token> {
    if leaf_only(tokens) {
        seq![Token::Separator, Token::DoubleStar] + tokens
    } else {
        tokens
    }
}

/// What stands between the base directory and the fragments of the rule: the
/// wildcard of a relative rule; for a rooted rule the delimiter, where the
/// rule does not begin with a separator of its own.
pub open spec fn lead(tokens: Seq<Token>, relative: bool, delimiter: char) -> Seq<char> {
    if relative {
        relative_modifier()
    } else if tokens.len() > 0 && !(tokens[0] is Separator) {
        delimiter_pattern(delimiter)
    } else {
        Seq::empty()
    }
}

/// Whether a rule asks for a directory: its last token is a separator.
pub open spec fn ends_with_separator(tokens: Seq<Token>) -> bool {
    tokens.len() > 0 && tokens.last() is Separator
}

/// The pattern for `tokens` under the base directory `base`, which is matched
/// as a literal. `relative` says that the rule named a leaf only.
pub open spec fn pattern_text(
    base: Seq<char>,
    tokens: Seq<Token>,
    relative: bool,
    delimiter: char,
) -> Seq<char> {
    escaped(base) + lead(tokens, relative, delimiter) + fragments(
        tokens,
        tokens.len() as int,
        delimiter,
    ) + "$"@
}

/// The pattern that the rule `tokens` compiles to under the base directory
/// `base`.
pub open spec fn rule_pattern(base: Seq<char>, tokens: Seq<Token>, delimiter: char) -> Seq<char> {
    pattern_text(base, anchored(tokens), leaf_only(tokens), delimiter)
}

/// Anchoring only ever puts tokens before a rule: the rule is still there, at
/// the end, and with it its last token.
pub proof fn lemma_anchoring_keeps_the_rule(tokens: Seq<Token>)
    ensures
        anchored(tokens).len() >= tokens.len(),
        anchored(tokens).skip(anchored(tokens).len() - tokens.len()) == tokens,
        tokens.len() > 0 ==> anchored(tokens).last() == tokens.last(),
        ends_with_separator(anchored(tokens)) == ends_with_separator(tokens),
{
    assert(anchored(tokens).skip(anchored(tokens).len() - tokens.len()) =~= tokens);
}

/// Text made of text characters is its own pattern.
pub proof fn lemma_text_needs_no_escape(text: Seq<char>)
    requires
        forall|i: int| 0 <= i < text.len() ==> is_text_char(#[trigger] text[i]),
    ensures
        escaped(text) == text,
    decreases text.len(),
{
    if text.len() > 0 {
        let front = text.drop_last();
        assert(is_text_char(text[text.len() - 1]));
        assert forall|i: int| 0 <= i < front.len() implies is_text_char(#[trigger] front[i]) by {
            assert(front[i] == text[i]);
        }
        lemma_text_needs_no_escape(front);
        assert(front.push(text.last()) =~= text);
    }
}

/// The text of a rule that was cut from a line needs no backslash: its
/// fragment is the text as it was written.
pub proof fn lemma_parsed_text_is_written_as_it_is(
    line: Seq<char>,
    i: int,
    last: bool,
    delimiter: char,
)
    requires
        lex(line) is Ok,
        0 <= i < lex(line)->Ok_0.len(),
        lex(line)->Ok_0[i] is Text,
    ensures
        fragment(lex(line)->Ok_0[i], last, delimiter) == lex(line)->Ok_0[i]->Text_0,
{
    lemma_text_tokens(line, 0, i);
    lemma_text_needs_no_escape(lex(line)->Ok_0[i]->Text_0);
}

/// Anchoring a leaf rule puts the delimiter and the path wildcard before its
/// own fragments and leaves those as they were.
pub proof fn lemma_fragments_of_anchored(tokens: Seq<Token>, count: int, delimiter: char)
    requires
        0 <= count <= tokens.len(),
    ensures
        fragments(seq![Token::Separator, Token::DoubleStar] + tokens, count + 2, delimiter)
            == delimiter_pattern(delimiter) + path_wildcard() + fragments(tokens, count, delimiter),
    decreases count,
{
    let whole = seq![Token::Separator, Token::DoubleStar] + tokens;
    if count == 0 {
        reveal_with_fuel(fragments, 3);
        assert(fragments(whole, 2, delimiter) =~= delimiter_pattern(delimiter) + path_wildcard());
        assert(delimiter_pattern(delimiter) + path_wildcard() + fragments(tokens, 0, delimiter)
            =~= delimiter_pattern(delimiter) + path_wildcard());
    } else {
        lemma_fragments_of_anchored(tokens, count - 1, delimiter);
        let piece = fragment(tokens[count - 1], count == tokens.len(), delimiter);
        assert(whole[count + 1] == tokens[count - 1]);
        assert(delimiter_pattern(delimiter) + path_wildcard() + fragments(
            tokens,
            count - 1,
            delimiter,
        ) + piece =~= delimiter_pattern(delimiter) + path_wildcard() + (fragments(
            tokens,
            count - 1,
            delimiter,
        ) + piece));
    }
}

/// The pattern of a rule that names a leaf only lets the leaf sit at any
/// depth: after the base directory come the wildcard for relative rules, a
/// delimiter and the path wildcard, and only then the rule's own fragments.
pub proof fn lemma_pattern_of_leaf_rule(base: Seq<char>, tokens: Seq<Token>, delimiter: char)
    requires
        leaf_only(tokens),
    ensures
        rule_pattern(base, tokens, delimiter) == escaped(base) + relative_modifier()
            + delimiter_pattern(delimiter) + path_wildcard() + fragments(
            tokens,
            tokens.len() as int,
            delimiter,
        ) + "$"@,
{
    lemma_fragments_of_anchored(tokens, tokens.len() as int, delimiter);
    let own = fragments(tokens, tokens.len() as int, delimiter);
    assert(escaped(base) + relative_modifier() + (delimiter_pattern(delimiter) + path_wildcard()
        + own) + "$"@ =~= escaped(base) + relative_modifier() + delimiter_pattern(delimiter)
        + path_wildcard() + own + "$"@);
}

/// The pattern of a rule with a separator inside is rooted: after the base
/// directory comes one delimiter, written in the rule or not, and then the
/// rest of the rule.
pub proof fn lemma_pattern_of_rooted_rule(base: Seq<char>, tokens: Seq<Token>, delimiter: char)
    requires
        !leaf_only(tokens),
    ensures
        tokens.len() > 0,
        tokens[0] is Separator ==> rule_pattern(base, tokens, delimiter) == escaped(base)
            + fragments(tokens, tokens.len() as int, delimiter) + "$"@,
        !(tokens[0] is Separator) ==> rule_pattern(base, tokens, delimiter) == escaped(base)
            + delimiter_pattern(delimiter) + fragments(tokens, tokens.len() as int, delimiter)
            + "$"@,
{
    assert(escaped(base) + Seq::<char>::empty() =~= escaped(base));
}

/// Writes the pattern for `rules` under the base directory `base`.
pub fn pattern_source(base: &str, rules: &[MatchRule], relative: bool, delimiter: char) -> (source:
    String)
    ensures
        source@ == pattern_text(base@, tokens_of(rules@), relative, delimiter),
{
    let separator: &str = if delimiter == '\\' {
        r"\\"
    } else {
        "/"
    };
    let ghost tokens = tokens_of(rules@);
    let mut source = regex::escape(base);
    if relative {
        source.append(r"[a-zA-Z0-9._\-/]*");
    } else if rules.len() > 0 && !matches!(rules[0], MatchRule::Separator) {
        assert(tokens[0] == rules@[0]@);
        source.append(separator);
    } else {
        assert(rules.len() > 0 ==> tokens[0] == rules@[0]@);
    }
    let ghost head = source@;
    assert(head =~= escaped(base@) + lead(tokens, relative, delimiter));
    assert(source@ =~= head + fragments(tokens, 0, delimiter));
    let mut idx: usize = 0;
    while idx < rules.len()
        invariant
            idx <= rules.len(),
            tokens == tokens_of(rules@),
            separator@ == delimiter_pattern(delimiter),
            source@ == head + fragments(tokens, idx as int, delimiter),
        decreases rules.len() - idx,
    {
        let ghost before = source@;
        match &rules[idx] {
            MatchRule::Text(text) => {
                source.append(regex::escape(text.as_str()).as_str());
            },
            MatchRule::QuestionMark => {
                source.append(r"[a-zA-Z0-9._\-\[\]]?");
            },
            MatchRule::DoubleStar => {
                source.append(r"[a-zA-Z0-9._\-\[\]/]*");
            },
            MatchRule::SingleStar => {
                source.append(r"[a-zA-Z0-9._\-\[\]]*");
            },
            MatchRule::Separator => {
                source.append(separator);
                if idx == rules.len() - 1 {
                    source.append("?");
                }
            },
        }
        proof {
            let piece = fragment(tokens[idx as int], idx + 1 == tokens.len(), delimiter);
            assert(tokens[idx as int] == rules@[idx as int]@);
            assert(source@ =~= before + piece);
            assert(head + fragments(tokens, idx as int, delimiter) + piece =~= head + (fragments(
                tokens,
                idx as int,
                delimiter,
            ) + piece));
        }
        idx += 1;
    }
    source.append("$");
    source
}

} // verus!
