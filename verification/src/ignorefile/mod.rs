//! Rule lines and the matchers compiled from them.

pub mod engine;
pub mod lines;
pub mod parse;
pub mod pattern;
pub mod set;

use crate::ignorefile::engine::{
    error_message,
    error_text,
    main_separator,
    pattern_accepts,
    regex_accepts,
};
use crate::ignorefile::parse::{
    lemma_last_token,
    lex,
    parse_line,
    tokens_of,
    MatchRule,
    ParseError,
    Token,
};
use crate::ignorefile::pattern::{
    anchored,
    ends_with_separator,
    leaf_only,
    pattern_source,
    pattern_text,
    rule_pattern,
};
use regex::Regex;
use vstd::prelude::*;

verus! {

/// Why a line could not be compiled.
#[derive(Debug, Clone, PartialEq)]
pub enum CompileError {
    /// The line is no rule.
    Syntax(ParseError),
    /// The base directory cannot be written as text.
    BaseDirectory,
    /// The engine refused the pattern; the text is its message.
    Pattern(String),
}

impl CompileError {
    /// The error in words.
    pub open spec fn message_text(self) -> Seq<char> {
        match self {
            CompileError::Syntax(e) => e.message_text(),
            CompileError::BaseDirectory => "base_dir isn't convertible to a &str"@,
            CompileError::Pattern(text) => text@,
        }
    }

    /// Writes the error in words.
    pub fn message(&self) -> (s: String)
        ensures
            s@ == self.message_text(),
    {
        match self {
            CompileError::Syntax(e) => e.message(),
            CompileError::BaseDirectory => "base_dir isn't convertible to a &str".to_owned(),
            CompileError::Pattern(text) => text.clone(),
        }
    }
}

/// Whether `error` is a refusal by the engine, with the message that the
/// engine wrote for it.
pub open spec fn is_refusal(error: CompileError) -> bool {
    error matches CompileError::Pattern(text) && exists|cause: regex::Error|
        text@ == #[trigger] error_text(cause)
}

/// One compiled rule: its tokens, and the expression that stands for them
/// under a base directory.
pub struct MatchLine {
    rules: Vec<MatchRule>,
    pattern: Regex,
    relative: bool,
    source: Ghost<Seq<char>>,
}

impl MatchLine {
    /// The expression matches what its pattern text matches.
    #[verifier::type_invariant]
    spec fn bound(&self) -> bool {
        forall|haystack: Seq<char>| #[trigger]
            regex_accepts(self.pattern, haystack) == pattern_accepts(self.source@, haystack)
    }

    /// The tokens of the rule as it is matched.
    pub closed spec fn tokens(&self) -> Seq<Token> {
        tokens_of(self.rules@)
    }

    /// Whether the rule, as it was written, named a leaf only.
    pub closed spec fn names_leaf(&self) -> bool {
        self.relative
    }

    /// The text of the pattern that was compiled.
    pub closed spec fn source(&self) -> Seq<char> {
        self.source@
    }

    /// Whether the rule asks for a directory.
    pub open spec fn directory_only(&self) -> bool {
        ends_with_separator(self.tokens())
    }

    /// Whether the rule was written with no token at all: nothing but the
    /// separator and the double star of a leaf rule are matched.
    pub open spec fn written_empty(&self) -> bool {
        self.names_leaf() && self.tokens().len() <= 2
    }

    /// Whether this is the matcher of the rule `tokens` under `base`, written
    /// for the path delimiter `delimiter`.
    pub open spec fn compiled_from(&self, base: Seq<char>, tokens: Seq<Token>, delimiter: char) -> bool {
        &&& self.tokens() == anchored(tokens)
        &&& self.names_leaf() == leaf_only(tokens)
        &&& self.source() == rule_pattern(base, tokens, delimiter)
    }

    /// Whether the matcher accepts a candidate path. `candidate` is the path as
    /// text, if it has a text form; `is_dir` says whether the path is a
    /// directory now. A rule without tokens accepts nothing.
    pub open spec fn accepts(&self, candidate: Option<&str>, is_dir: bool) -> bool {
        &&& !self.written_empty()
        &&& self.directory_only() ==> is_dir
        &&& candidate matches Some(text) && pattern_accepts(self.source(), text@)
    }

    /// Tells whether `rules` name a leaf only.
    pub fn is_relative(rules: &[MatchRule]) -> (b: bool)
        ensures
            b == leaf_only(tokens_of(rules@)),
    {
        let ghost tokens = tokens_of(rules@);
        let mut idx: usize = 0;
        while idx < rules.len()
            invariant
                idx <= rules.len(),
                tokens == tokens_of(rules@),
                forall|i: int| 0 <= i < idx && tokens[i] is Separator ==> i == tokens.len() - 1,
            decreases rules.len() - idx,
        {
            if matches!(rules[idx], MatchRule::Separator) && idx != rules.len() - 1 {
                assert(tokens[idx as int] is Separator);
                return false;
            }
            idx += 1;
        }
        true
    }

    /// Anchors a rule that names a leaf only: a separator and a double star
    /// are put before it. Any other rule is handed back as it is.
    pub fn transform_parsed_rules(rules: Vec<MatchRule>) -> (anchored_rules: Vec<MatchRule>)
        ensures
            tokens_of(anchored_rules@) == anchored(tokens_of(rules@)),
    {
        let mut rules = rules;
        let ghost before = tokens_of(rules@);
        if MatchLine::is_relative(rules.as_slice()) {
            rules.insert(0, MatchRule::DoubleStar);
            rules.insert(0, MatchRule::Separator);
            assert(tokens_of(rules@) =~= seq![Token::Separator, Token::DoubleStar] + before);
        }
        rules
    }

    /// Turns the engine's answer for a pattern into the library's own: the
    /// expression as it came, or the refusal with the engine's message.
    pub fn compiled_or_error(compiled: Result<Regex, regex::Error>) -> (r: Result<
        Regex,
        CompileError,
    >)
        ensures
            match compiled {
                Ok(re) => r == Ok::<Regex, CompileError>(re),
                Err(e) => r matches Err(CompileError::Pattern(text)) && text@ == error_text(e),
            },
            compiled is Err ==> (r matches Err(e) && is_refusal(e)),
    {
        match compiled {
            Ok(re) => Ok(re),
            Err(e) => Err(CompileError::Pattern(error_message(&e))),
        }
    }

    /// Compiles the expression for `rules` under `base_dir`: the directory as
    /// text, if it has a text form. `relative` says that the rule named a leaf
    /// only, `delimiter` is the path delimiter of the platform.
    pub fn create_regex(
        base_dir: Option<&str>,
        rules: &[MatchRule],
        relative: bool,
        delimiter: char,
    ) -> (r: Result<Regex, CompileError>)
        ensures
            match base_dir {
                None => r == Err::<Regex, CompileError>(CompileError::BaseDirectory),
                Some(base) => match r {
                    Ok(re) => forall|haystack: Seq<char>| #[trigger]
                        regex_accepts(re, haystack) == pattern_accepts(
                            pattern_text(base@, tokens_of(rules@), relative, delimiter),
                            haystack,
                        ),
                    Err(e) => is_refusal(e),
                },
            },
    {
        let prefix = match base_dir {
            Some(base) => base,
            None => {
                return Err(CompileError::BaseDirectory);
            },
        };
        let source = pattern_source(prefix, rules, relative, delimiter);
        MatchLine::compiled_or_error(Regex::new(source.as_str()))
    }

    /// Compiles `line` under `base_dir` for a platform whose path delimiter is
    /// `delimiter`. `base_dir` is the directory as text, if it has a text form.
    pub fn for_delimiter(base_dir: Option<&str>, line: &str, delimiter: char) -> (r: Result<
        MatchLine,
        CompileError,
    >)
        ensures
            match (lex(line@), base_dir) {
                (Err(e), _) => r == Err::<MatchLine, CompileError>(CompileError::Syntax(e)),
                (Ok(_), None) => r == Err::<MatchLine, CompileError>(CompileError::BaseDirectory),
                (Ok(tokens), Some(base)) => match r {
                    Ok(m) => m.compiled_from(base@, tokens, delimiter),
                    Err(e) => is_refusal(e),
                },
            },
    {
        let rules = match parse_line(line) {
            Ok((_, rules)) => rules,
            Err(e) => {
                return Err(CompileError::Syntax(e));
            },
        };
        let relative = MatchLine::is_relative(rules.as_slice());
        let rules = MatchLine::transform_parsed_rules(rules);
        let ghost source = match base_dir {
            Some(base) => pattern_text(base@, tokens_of(rules@), relative, delimiter),
            None => Seq::empty(),
        };
        match MatchLine::create_regex(base_dir, rules.as_slice(), relative, delimiter) {
            Ok(pattern) => Ok(MatchLine { rules, pattern, relative, source: Ghost(source) }),
            Err(e) => Err(e),
        }
    }

    /// Compiles `line` under `base_dir` for this platform.
    pub fn new(base_dir: Option<&str>, line: &str) -> (r: Result<MatchLine, CompileError>)
        ensures
            match (lex(line@), base_dir) {
                (Err(e), _) => r == Err::<MatchLine, CompileError>(CompileError::Syntax(e)),
                (Ok(_), None) => r == Err::<MatchLine, CompileError>(CompileError::BaseDirectory),
                (Ok(tokens), Some(base)) => match r {
                    Ok(m) => exists|delimiter: char| m.compiled_from(base@, tokens, delimiter),
                    Err(e) => is_refusal(e),
                },
            },
    {
        MatchLine::for_delimiter(base_dir, line, main_separator())
    }

    /// The rules of the matcher, as they are matched.
    pub fn rules(&self) -> (rules: &[MatchRule])
        ensures
            tokens_of(rules@) == self.tokens(),
    {
        self.rules.as_slice()
    }

    /// Tells whether the rule, as it was written, named a leaf only.
    pub fn relative(&self) -> (b: bool)
        ensures
            b == self.names_leaf(),
    {
        self.relative
    }

    /// Tells whether the rule was written with no token at all. Such a rule
    /// accepts nothing.
    pub fn is_empty(&self) -> (b: bool)
        ensures
            b == self.written_empty(),
    {
        self.relative && self.rules.len() <= 2
    }

    /// Tells whether the rule asks for a directory.
    pub fn dir_only(&self) -> (b: bool)
        ensures
            b == self.directory_only(),
    {
        let n = self.rules.len();
        n > 0 && matches!(self.rules[n - 1], MatchRule::Separator)
    }

    /// Tells whether the matcher accepts `candidate`: the path as text, if it
    /// has a text form. `is_dir` says whether the path is a directory now; it
    /// is looked at only where the rule asks for one.
    pub fn matches(&self, candidate: Option<&str>, is_dir: bool) -> (b: bool)
        ensures
            b == self.accepts(candidate, is_dir),
    {
        proof {
            use_type_invariant(self);
        }
        if self.is_empty() || (self.dir_only() && !is_dir) {
            return false;
        }
        match candidate {
            Some(text) => self.pattern.is_match(text),
            None => false,
        }
    }
}

/// Compiling is repeatable: two matchers of one rule under one base
/// directory, written for one delimiter, accept the same candidates.
pub proof fn lemma_compiling_is_repeatable(
    first: MatchLine,
    second: MatchLine,
    base: Seq<char>,
    line: Seq<char>,
    delimiter: char,
    candidate: Option<&str>,
    is_dir: bool,
)
    requires
        lex(line) matches Ok(tokens) && first.compiled_from(base, tokens, delimiter)
            && second.compiled_from(base, tokens, delimiter),
    ensures
        first.accepts(candidate, is_dir) == second.accepts(candidate, is_dir),
{
}

/// A rule without tokens accepts nothing. The empty line is the only line
/// that compiles to such a rule.
pub proof fn lemma_empty_rule_never_matches(
    m: MatchLine,
    base: Seq<char>,
    line: Seq<char>,
    delimiter: char,
    candidate: Option<&str>,
    is_dir: bool,
)
    requires
        lex(line) matches Ok(tokens) && m.compiled_from(base, tokens, delimiter),
    ensures
        m.written_empty() == (line.len() == 0),
        line.len() == 0 ==> !m.accepts(candidate, is_dir),
{
    if line.len() > 0 {
        lemma_last_token(line, 0);
    }
}

/// A matcher that asks for a directory accepts nothing that is not one.
pub proof fn lemma_directory_rule_rejects_files(m: MatchLine, candidate: Option<&str>)
    requires
        m.directory_only(),
    ensures
        !m.accepts(candidate, false),
{
}

/// A rule asks for a directory exactly where its line ends in `/`.
pub proof fn lemma_trailing_slash_asks_for_directory(
    m: MatchLine,
    base: Seq<char>,
    line: Seq<char>,
    delimiter: char,
)
    requires
        lex(line) matches Ok(tokens) && m.compiled_from(base, tokens, delimiter),
    ensures
        m.directory_only() == (line.len() > 0 && line.last() == '/'),
{
    if line.len() > 0 {
        lemma_last_token(line, 0);
    }
}

/// Whether a path is a directory matters only to a matcher that asks for one,
/// and being one never turns an accepted path into a rejected one.
pub proof fn lemma_directories_are_never_worse_off(m: MatchLine, candidate: Option<&str>)
    ensures
        m.accepts(candidate, false) ==> m.accepts(candidate, true),
        !m.directory_only() ==> m.accepts(candidate, false) == m.accepts(candidate, true),
{
}

/// A path without a text form is accepted by no matcher.
pub proof fn lemma_unrepresentable_path_is_rejected(m: MatchLine, is_dir: bool)
    ensures
        !m.accepts(None, is_dir),
{
}

/// Compiles `line` under `base_dir` for this platform.
pub fn build_matcher(base_dir: Option<&str>, line: &str) -> (r: Result<MatchLine, CompileError>)
    ensures
        match (lex(line@), base_dir) {
            (Err(e), _) => r == Err::<MatchLine, CompileError>(CompileError::Syntax(e)),
            (Ok(_), None) => r == Err::<MatchLine, CompileError>(CompileError::BaseDirectory),
            (Ok(tokens), Some(base)) => match r {
                Ok(m) => exists|delimiter: char| m.compiled_from(base@, tokens, delimiter),
                Err(e) => is_refusal(e),
            },
        },
{
    MatchLine::new(base_dir, line)
}

} // verus!
