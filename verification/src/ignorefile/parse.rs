//! The grammar of a rule line.
//!
//! A line is cut, left to right, into the longest runs of one kind: a single
//! `/`, one or more `*`, a `?`, or text. It has to be used up entirely.

use crate::text::{decimal, decimal_text};
use vstd::prelude::*;

verus! {

/// One unit of a rule line.
#[derive(Debug, Clone, PartialEq)]
pub enum MatchRule {
    /// Literal text.
    Text(String),
    /// Wildcard matching zero or more characters, none of them a separator.
    SingleStar,
    /// Wildcard matching zero or more characters, separators included.
    DoubleStar,
    /// Wildcard matching zero or one character, not a separator.
    QuestionMark,
    /// Literal `/` delimiting directories.
    Separator,
}

/// The mathematical value of a [`MatchRule`].
pub enum Token {
    Text(Seq<char>),
    SingleStar,
    DoubleStar,
    QuestionMark,
    Separator,
}

impl View for MatchRule {
    type V = Token;

    open spec fn view(&self) -> Token {
        match self {
            MatchRule::Text(text) => Token::Text(text@),
            MatchRule::SingleStar => Token::SingleStar,
            MatchRule::DoubleStar => Token::DoubleStar,
            MatchRule::QuestionMark => Token::QuestionMark,
            MatchRule::Separator => Token::Separator,
        }
    }
}

/// The tokens that a sequence of rules stands for.
pub open spec fn tokens_of(rules: Seq<MatchRule>) -> Seq<Token> {
    rules.map_values(|rule: MatchRule| rule@)
}

/// Why a line is no rule. `position` counts characters from the start of the
/// line, beginning at 0.
#[derive(Debug, Clone, Copy, PartialEq, Eq, Structural)]
pub enum ParseError {
    /// Two or more `/` in a row begin at `position`.
    RepeatedSeparator { position: usize },
    /// The character at `position` belongs to no token.
    UnsupportedCharacter { position: usize },
}

impl ParseError {
    /// The error in words.
    pub open spec fn message_text(self) -> Seq<char> {
        match self {
            ParseError::RepeatedSeparator { position } => "repeated separator at offset "@
                + decimal(position as nat),
            ParseError::UnsupportedCharacter { position } => "unsupported character at offset "@
                + decimal(position as nat),
        }
    }

    /// Writes the error in words.
    pub fn message(&self) -> (s: String)
        ensures
            s@ == self.message_text(),
    {
        match self {
            ParseError::RepeatedSeparator { position } => {
                let mut s = "repeated separator at offset ".to_owned();
                s.append(decimal_text(*position).as_str());
                s
            },
            ParseError::UnsupportedCharacter { position } => {
                let mut s = "unsupported character at offset ".to_owned();
                s.append(decimal_text(*position).as_str());
                s
            },
        }
    }
}

/// What a character can be part of.
#[derive(Debug, Clone, Copy, PartialEq, Eq, Structural)]
pub enum CharKind {
    Separator,
    Star,
    Question,
    Text,
    Other,
}

/// Whether `c` is text: an underscore, or an ASCII letter or digit.
pub open spec fn is_text_char(c: char) -> bool {
    let code = c as u32;
    ||| c == '_'
    ||| 0x30 <= code <= 0x39
    ||| 0x41 <= code <= 0x5A
    ||| 0x61 <= code <= 0x7A
}

/// The kind of `c`.
pub open spec fn kind_of(c: char) -> CharKind {
    if c == '/' {
        CharKind::Separator
    } else if c == '*' {
        CharKind::Star
    } else if c == '?' {
        CharKind::Question
    } else if is_text_char(c) {
        CharKind::Text
    } else {
        CharKind::Other
    }
}

/// Where the run of characters of kind `kind` that covers `from` ends: the
/// first index at or after `from` whose character is of another kind, or the
/// length of `s`.
pub open spec fn run_end(s: Seq<char>, from: int, kind: CharKind) -> int
    decreases s.len() - from,
{
    if 0 <= from < s.len() && kind_of(s[from]) == kind {
        run_end(s, from + 1, kind)
    } else {
        from
    }
}

/// `rest` with `prefix` put before its tokens; an error stays as it is.
pub open spec fn after(prefix: Seq<Token>, rest: Result<Seq<Token>, ParseError>) -> Result<
    Seq<Token>,
    ParseError,
> {
    match rest {
        Ok(tokens) => Ok(prefix + tokens),
        Err(e) => Err(e),
    }
}

/// Where the token that starts at `at` ends: a question mark is one
/// character, any other token is the whole run of its kind.
pub open spec fn token_end(s: Seq<char>, at: int) -> int {
    if kind_of(s[at]) == CharKind::Question {
        at + 1
    } else {
        run_end(s, at + 1, kind_of(s[at]))
    }
}

/// The token that the characters `at..end` of `s` make up.
pub open spec fn token_at(s: Seq<char>, at: int, end: int) -> Token {
    match kind_of(s[at]) {
        CharKind::Separator => Token::Separator,
        CharKind::Star => if end == at + 1 {
            Token::SingleStar
        } else {
            Token::DoubleStar
        },
        CharKind::Question => Token::QuestionMark,
        _ => Token::Text(s.subrange(at, end)),
    }
}

/// The tokens of `s` from index `at` on, or the first error.
pub open spec fn lex_from(s: Seq<char>, at: int) -> Result<Seq<Token>, ParseError>
    decreases s.len() - at,
    via lex_from_terminates
{
    if at < 0 || at >= s.len() {
        Ok(Seq::empty())
    } else if kind_of(s[at]) == CharKind::Other {
        Err(ParseError::UnsupportedCharacter { position: at as usize })
    } else if kind_of(s[at]) == CharKind::Separator && token_end(s, at) != at + 1 {
        Err(ParseError::RepeatedSeparator { position: at as usize })
    } else {
        after(seq![token_at(s, at, token_end(s, at))], lex_from(s, token_end(s, at)))
    }
}

#[via_fn]
proof fn lex_from_terminates(s: Seq<char>, at: int) {
    if 0 <= at < s.len() {
        lemma_run_end_bounds(s, at + 1, kind_of(s[at]));
    }
}

/// The tokens of a whole line, or the first error.
pub open spec fn lex(s: Seq<char>) -> Result<Seq<Token>, ParseError> {
    lex_from(s, 0)
}

/// A run ends after its start and within the sequence.
pub proof fn lemma_run_end_bounds(s: Seq<char>, from: int, kind: CharKind)
    requires
        0 <= from <= s.len(),
    ensures
        from <= run_end(s, from, kind) <= s.len(),
    decreases s.len() - from,
{
    if from < s.len() && kind_of(s[from]) == kind {
        lemma_run_end_bounds(s, from + 1, kind);
    }
}

/// Every character of a run is of the run's kind.
pub proof fn lemma_run_is_of_one_kind(s: Seq<char>, from: int, kind: CharKind, i: int)
    requires
        0 <= from <= i < run_end(s, from, kind),
    ensures
        i < s.len(),
        kind_of(s[i]) == kind,
    decreases s.len() - from,
{
    if from < s.len() && kind_of(s[from]) == kind {
        if i > from {
            lemma_run_is_of_one_kind(s, from + 1, kind, i);
        }
    }
}

/// The kind of character that a token is made of.
pub open spec fn token_kind(token: Token) -> CharKind {
    match token {
        Token::Text(_) => CharKind::Text,
        Token::SingleStar => CharKind::Star,
        Token::DoubleStar => CharKind::Star,
        Token::QuestionMark => CharKind::Question,
        Token::Separator => CharKind::Separator,
    }
}

/// A run stops at a character of another kind.
pub proof fn lemma_run_is_longest(s: Seq<char>, from: int, kind: CharKind)
    requires
        0 <= from <= s.len(),
    ensures
        run_end(s, from, kind) < s.len() ==> kind_of(s[run_end(s, from, kind)]) != kind,
    decreases s.len() - from,
{
    if from < s.len() && kind_of(s[from]) == kind {
        lemma_run_is_longest(s, from + 1, kind);
    }
}

/// What one step of cutting yields: where the text from `at` on has tokens,
/// they are the token at `at` and then the tokens from its end on.
pub proof fn lemma_lex_step(s: Seq<char>, at: int)
    requires
        0 <= at < s.len(),
        lex_from(s, at) is Ok,
    ensures
        at < token_end(s, at) <= s.len(),
        lex_from(s, token_end(s, at)) is Ok,
        lex_from(s, at)->Ok_0 == seq![token_at(s, at, token_end(s, at))] + lex_from(
            s,
            token_end(s, at),
        )->Ok_0,
        token_kind(token_at(s, at, token_end(s, at))) == kind_of(s[at]),
        token_end(s, at) < s.len() && kind_of(s[at]) != CharKind::Question ==> kind_of(
            s[token_end(s, at)],
        ) != kind_of(s[at]),
{
    let kind = kind_of(s[at]);
    lemma_run_end_bounds(s, at + 1, kind);
    lemma_run_is_longest(s, at + 1, kind);
}

/// The tokens of a text that is not empty are not empty either, and the last
/// of them is a separator exactly where the text ends in `/`.
pub proof fn lemma_last_token(s: Seq<char>, at: int)
    requires
        0 <= at < s.len(),
        lex_from(s, at) is Ok,
    ensures
        lex_from(s, at)->Ok_0.len() > 0,
        (lex_from(s, at)->Ok_0.last() is Separator) == (s.last() == '/'),
    decreases s.len() - at,
{
    lemma_lex_step(s, at);
    let end = token_end(s, at);
    if end < s.len() {
        lemma_last_token(s, end);
    } else if at < s.len() - 1 {
        lemma_run_is_of_one_kind(s, at + 1, kind_of(s[at]), s.len() - 1);
    }
}

/// The first token is of the kind of the first character.
pub proof fn lemma_first_token(s: Seq<char>, at: int)
    requires
        0 <= at < s.len(),
        lex_from(s, at) is Ok,
    ensures
        lex_from(s, at)->Ok_0.len() > 0,
        token_kind(lex_from(s, at)->Ok_0[0]) == kind_of(s[at]),
{
    lemma_lex_step(s, at);
}

/// Text is never empty and holds text characters only.
pub proof fn lemma_text_tokens(s: Seq<char>, at: int, i: int)
    requires
        0 <= at <= s.len(),
        lex_from(s, at) is Ok,
        0 <= i < lex_from(s, at)->Ok_0.len(),
        lex_from(s, at)->Ok_0[i] is Text,
    ensures
        lex_from(s, at)->Ok_0[i]->Text_0.len() > 0,
        forall|j: int|
            0 <= j < lex_from(s, at)->Ok_0[i]->Text_0.len() ==> is_text_char(
                #[trigger] lex_from(s, at)->Ok_0[i]->Text_0[j],
            ),
    decreases s.len() - at,
{
    lemma_lex_step(s, at);
    let end = token_end(s, at);
    if i == 0 {
        let text = s.subrange(at, end);
        assert forall|j: int| 0 <= j < text.len() implies is_text_char(#[trigger] text[j]) by {
            if j > 0 {
                lemma_run_is_of_one_kind(s, at + 1, kind_of(s[at]), at + j);
            }
        }
    } else {
        assert(lex_from(s, at)->Ok_0[i] == lex_from(s, end)->Ok_0[i - 1]);
        lemma_text_tokens(s, end, i - 1);
    }
}

/// Tokens are as long as they can be: of two tokens in a row only question
/// marks are of one kind. So no rule holds two separators, two runs of stars
/// or two texts side by side.
pub proof fn lemma_tokens_are_longest(s: Seq<char>, at: int, i: int)
    requires
        0 <= at <= s.len(),
        lex_from(s, at) is Ok,
        0 <= i < lex_from(s, at)->Ok_0.len() - 1,
        token_kind(lex_from(s, at)->Ok_0[i]) == token_kind(lex_from(s, at)->Ok_0[i + 1]),
    ensures
        lex_from(s, at)->Ok_0[i] is QuestionMark,
    decreases s.len() - at,
{
    lemma_lex_step(s, at);
    let end = token_end(s, at);
    let rest = lex_from(s, end)->Ok_0;
    assert(lex_from(s, at)->Ok_0[i + 1] == rest[i]);
    if i == 0 {
        lemma_first_token(s, end);
    } else {
        assert(lex_from(s, at)->Ok_0[i] == rest[i - 1]);
        lemma_tokens_are_longest(s, end, i - 1);
    }
}

/// Tells what `c` can be part of.
pub fn classify(c: char) -> (kind: CharKind)
    ensures
        kind == kind_of(c),
{
    if c == '/' {
        CharKind::Separator
    } else if c == '*' {
        CharKind::Star
    } else if c == '?' {
        CharKind::Question
    } else {
        let code: u32 = c as u32;
        if c == '_' || (0x30 <= code && code <= 0x39) || (0x41 <= code && code <= 0x5A) || (0x61
            <= code && code <= 0x7A) {
            CharKind::Text
        } else {
            CharKind::Other
        }
    }
}

/// The characters of `s`, in order.
pub fn chars_of(s: &str) -> (chars: Vec<char>)
    ensures
        chars@ == s@,
{
    let mut chars: Vec<char> = Vec::new();
    for c in it: s.chars()
        invariant
            it.seq() == s@,
            chars@ == it.seq().take(it.index()),
    {
        chars.push(c);
    }
    chars
}

/// Finds the end of the run of `kind` that covers `from`.
fn scan(chars: &Vec<char>, from: usize, kind: CharKind) -> (end: usize)
    requires
        from <= chars.len(),
    ensures
        end == run_end(chars@, from as int, kind),
        from <= end <= chars.len(),
{
    let mut end: usize = from;
    while end < chars.len() && classify(chars[end]) == kind
        invariant
            from <= end <= chars.len(),
            run_end(chars@, from as int, kind) == run_end(chars@, end as int, kind),
        decreases chars.len() - end,
    {
        end += 1;
    }
    end
}

/// Cuts `line` into rules. On success the line was used up, so the text
/// returned beside the rules is empty.
pub fn parse_line(line: &str) -> (r: Result<(&str, Vec<MatchRule>), ParseError>)
    ensures
        match lex(line@) {
            Ok(tokens) => r matches Ok((rest, rules)) && rest@.len() == 0 && tokens_of(rules@)
                == tokens,
            Err(e) => r == Err::<(&str, Vec<MatchRule>), ParseError>(e),
        },
{
    let chars = chars_of(line);
    let mut rules: Vec<MatchRule> = Vec::new();
    let mut at: usize = 0;
    assert(tokens_of(rules@) =~= Seq::<Token>::empty());
    assert(after(Seq::<Token>::empty(), lex_from(line@, 0)) == lex_from(line@, 0)) by {
        if let Ok(tokens) = lex_from(line@, 0) {
            assert(Seq::<Token>::empty() + tokens =~= tokens);
        }
    }
    while at < chars.len()
        invariant
            chars@ == line@,
            at <= chars.len(),
            lex(line@) == after(tokens_of(rules@), lex_from(line@, at as int)),
        decreases chars.len() - at,
    {
        let kind = classify(chars[at]);
        let end = if kind == CharKind::Question {
            at + 1
        } else {
            scan(&chars, at + 1, kind)
        };
        let ghost before = tokens_of(rules@);
        let rule = match kind {
            CharKind::Separator => {
                if end != at + 1 {
                    return Err(ParseError::RepeatedSeparator { position: at });
                }
                MatchRule::Separator
            },
            CharKind::Star => if end == at + 1 {
                MatchRule::SingleStar
            } else {
                MatchRule::DoubleStar
            },
            CharKind::Question => MatchRule::QuestionMark,
            CharKind::Text => MatchRule::Text(line.substring_char(at, end).to_owned()),
            CharKind::Other => {
                return Err(ParseError::UnsupportedCharacter { position: at });
            },
        };
        rules.push(rule);
        proof {
            let next = end as int;
            assert(tokens_of(rules@) =~= before.push(rule@));
            assert(next == token_end(line@, at as int));
            assert(rule@ == token_at(line@, at as int, next));
            assert(lex_from(line@, at as int) == after(seq![rule@], lex_from(line@, next)));
            if let Ok(tokens) = lex_from(line@, next) {
                assert(before + (seq![rule@] + tokens) =~= before.push(rule@) + tokens);
            }
        }
        at = end;
    }
    proof {
        reveal_strlit("");
        assert(tokens_of(rules@) + Seq::<Token>::empty() =~= tokens_of(rules@));
    }
    Ok(("", rules))
}

} // verus!
