//! The regular-expression engine, as far as the matchers rely on it.
//!
//! Nothing in this file is proved. It says what is taken on trust of the
//! `regex` crate and of the platform.

use vstd::prelude::*;

verus! {

/// `regex::Regex`, a compiled regular expression. Nothing inside it is
/// visible here.
#[verifier::external_type_specification]
#[verifier::external_body]
pub struct ExRegex(regex::Regex);

/// `regex::Error`, the reason why a pattern was refused.
#[verifier::external_type_specification]
#[verifier::external_body]
pub struct ExRegexError(regex::Error);

/// Whether the expression `re` finds a match somewhere in `haystack`: the
/// answer of `regex::Regex::is_match`.
pub uninterp spec fn regex_accepts(re: regex::Regex, haystack: Seq<char>) -> bool;

/// Whether the pattern text `pattern`, once `regex::Regex::new` has compiled
/// it, finds a match somewhere in `haystack`.
pub uninterp spec fn pattern_accepts(pattern: Seq<char>, haystack: Seq<char>) -> bool;

/// `regex::Regex::new` compiles a pattern under the crate's default options.
/// It may refuse any pattern; nothing is claimed about when. An expression it
/// hands out matches exactly what its pattern text matches: two compilations
/// of one text agree on every haystack.
pub assume_specification[ regex::Regex::new ](re: &str) -> (r: Result<regex::Regex, regex::Error>)
    ensures
        r matches Ok(compiled) ==> forall|haystack: Seq<char>| #[trigger]
            regex_accepts(compiled, haystack) == pattern_accepts(re@, haystack),
;

/// `regex::Regex::is_match` answers whether the expression matches anywhere
/// in the haystack. The answer depends on the expression and the haystack
/// alone.
pub assume_specification[ regex::Regex::is_match ](re: &regex::Regex, haystack: &str) -> (b: bool)
    ensures
        b == regex_accepts(*re, haystack@),
;

/// Whether `c` means something in a pattern, so that it stands for itself
/// only behind a backslash.
pub open spec fn is_meta_character(c: char) -> bool {
    ||| c == '\\'
    ||| c == '.'
    ||| c == '+'
    ||| c == '*'
    ||| c == '?'
    ||| c == '('
    ||| c == ')'
    ||| c == '|'
    ||| c == '['
    ||| c == ']'
    ||| c == '{'
    ||| c == '}'
    ||| c == '^'
    ||| c == '$'
    ||| c == '#'
    ||| c == '&'
    ||| c == '-'
    ||| c == '~'
}

/// `text` as a pattern that stands for `text` itself: a backslash is put
/// before every character that means something in a pattern.
pub open spec fn escaped(text: Seq<char>) -> Seq<char>
    decreases text.len(),
{
    if text.len() == 0 {
        Seq::empty()
    } else if is_meta_character(text.last()) {
        escaped(text.drop_last()).push('\\').push(text.last())
    } else {
        escaped(text.drop_last()).push(text.last())
    }
}

/// `regex::escape` copies the text and puts a backslash before each of the
/// eighteen characters that the engine counts as meta characters.
pub assume_specification[ regex::escape ](pattern: &str) -> (r: String)
    ensures
        r@ == escaped(pattern@),
;

/// The message of a refusal: what the `Display` impl of `regex::Error`
/// writes for it.
pub uninterp spec fn error_text(e: regex::Error) -> Seq<char>;

/// Writes the message of a `regex::Error` through its `Display` impl. The
/// message depends on the error alone.
#[verifier::external_body]
pub(crate) fn error_message(e: &regex::Error) -> (message: String)
    ensures
        message@ == error_text(*e),
{
    e.to_string()
}

/// `std::path::MAIN_SEPARATOR`, the primary path delimiter of the platform
/// this library was built for. Nothing is claimed of its value.
#[verifier::external_body]
pub(crate) fn main_separator() -> char {
    std::path::MAIN_SEPARATOR
}

} // verus!
