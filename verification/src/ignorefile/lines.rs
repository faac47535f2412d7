//! The lines of a rule file.
//!
//! A file holds one rule per line. Blank space around a rule is dropped, and
//! so is a line that holds nothing else. The lines that are left are numbered
//! from 1, and each is compiled by itself: a line that fails is reported under
//! its number and the others are not touched by it.

use crate::ignorefile::engine::main_separator;
use crate::ignorefile::parse::{chars_of, lex};
use crate::ignorefile::set::MatcherSet;
use crate::ignorefile::{is_refusal, CompileError, MatchLine};
use crate::text::{decimal, decimal_text};
use vstd::prelude::*;

verus! {

/// Whether `c` is blank space: a character with the Unicode property
/// `White_Space`.
pub open spec fn is_blank(c: char) -> bool {
    let code = c as u32;
    ||| 0x09 <= code <= 0x0D
    ||| code == 0x20
    ||| code == 0x85
    ||| code == 0xA0
    ||| code == 0x1680
    ||| 0x2000 <= code <= 0x200A
    ||| code == 0x2028
    ||| code == 0x2029
    ||| code == 0x202F
    ||| code == 0x205F
    ||| code == 0x3000
}

/// Where the line that covers `from` ends: the index of the first line feed at
/// or after `from`, or the length of `s`.
pub open spec fn line_end(s: Seq<char>, from: int) -> int
    decreases s.len() - from,
{
    if 0 <= from < s.len() && s[from] != '\n' {
        line_end(s, from + 1)
    } else {
        from
    }
}

/// The first index in `from..end` whose character is not blank, or `end`.
pub open spec fn trim_start(s: Seq<char>, from: int, end: int) -> int
    decreases end - from,
{
    if 0 <= from < end <= s.len() && is_blank(s[from]) {
        trim_start(s, from + 1, end)
    } else {
        from
    }
}

/// The index after the last character in `from..end` that is not blank, or
/// `from`.
pub open spec fn trim_end(s: Seq<char>, from: int, end: int) -> int
    decreases end - from,
{
    if 0 <= from < end <= s.len() && is_blank(s[end - 1]) {
        trim_end(s, from, end - 1)
    } else {
        end
    }
}

/// The characters `from..end` of `s` without the blank space at either side.
pub open spec fn trimmed(s: Seq<char>, from: int, end: int) -> Seq<char> {
    let start = trim_start(s, from, end);
    s.subrange(start, trim_end(s, start, end))
}

/// The rules of a file from index `from` on: each line trimmed, the empty
/// ones left out.
pub open spec fn rules_from(s: Seq<char>, from: int) -> Seq<Seq<char>>
    decreases s.len() + 1 - from,
    via rules_from_terminates
{
    if from < 0 || from >= s.len() {
        Seq::empty()
    } else {
        let end = line_end(s, from);
        let rule = trimmed(s, from, end);
        if rule.len() > 0 {
            seq![rule] + rules_from(s, end + 1)
        } else {
            rules_from(s, end + 1)
        }
    }
}

#[via_fn]
proof fn rules_from_terminates(s: Seq<char>, from: int) {
    if 0 <= from < s.len() {
        lemma_line_end_bounds(s, from);
    }
}

/// The rules of a file, in order.
pub open spec fn rules_in(s: Seq<char>) -> Seq<Seq<char>> {
    rules_from(s, 0)
}

/// The text of each line of `lines`.
pub open spec fn texts_of(lines: Seq<String>) -> Seq<Seq<char>> {
    lines.map_values(|line: String| line@)
}

/// A line ends at or after its start and within the text.
pub proof fn lemma_line_end_bounds(s: Seq<char>, from: int)
    requires
        0 <= from <= s.len(),
    ensures
        from <= line_end(s, from) <= s.len(),
    decreases s.len() - from,
{
    if from < s.len() && s[from] != '\n' {
        lemma_line_end_bounds(s, from + 1);
    }
}

/// Tells whether `c` is blank space.
pub fn blank(c: char) -> (b: bool)
    ensures
        b == is_blank(c),
{
    let code: u32 = c as u32;
    (0x09 <= code && code <= 0x0D) || code == 0x20 || code == 0x85 || code == 0xA0 || code
        == 0x1680 || (0x2000 <= code && code <= 0x200A) || code == 0x2028 || code == 0x2029 || code
        == 0x202F || code == 0x205F || code == 0x3000
}

/// Lists the rules of a file: its lines without the blank space around them,
/// the empty ones left out.
pub fn rule_lines(contents: &str) -> (lines: Vec<String>)
    ensures
        texts_of(lines@) == rules_in(contents@),
{
    let chars = chars_of(contents);
    let mut lines: Vec<String> = Vec::new();
    let mut from: usize = 0;
    assert(texts_of(lines@) =~= Seq::<Seq<char>>::empty());
    assert(Seq::<Seq<char>>::empty() + rules_from(contents@, 0) =~= rules_from(contents@, 0));
    while from < chars.len()
        invariant
            chars@ == contents@,
            from <= chars.len(),
            rules_in(contents@) == texts_of(lines@) + rules_from(contents@, from as int),
        decreases chars.len() - from,
    {
        let mut end: usize = from;
        while end < chars.len() && chars[end] != '\n'
            invariant
                from <= end <= chars.len(),
                line_end(chars@, from as int) == line_end(chars@, end as int),
            decreases chars.len() - end,
        {
            end += 1;
        }
        let mut start: usize = from;
        while start < end && blank(chars[start])
            invariant
                from <= start <= end <= chars.len(),
                trim_start(chars@, from as int, end as int) == trim_start(
                    chars@,
                    start as int,
                    end as int,
                ),
            decreases end - start,
        {
            start += 1;
        }
        let mut stop: usize = end;
        while start < stop && blank(chars[stop - 1])
            invariant
                start <= stop <= end <= chars.len(),
                trim_end(chars@, start as int, end as int) == trim_end(
                    chars@,
                    start as int,
                    stop as int,
                ),
            decreases stop - start,
        {
            stop -= 1;
        }
        let ghost before = texts_of(lines@);
        let ghost rest = rules_from(contents@, end + 1);
        assert(trimmed(contents@, from as int, end as int) == contents@.subrange(
            start as int,
            stop as int,
        ));
        if start < stop {
            let line = contents.substring_char(start, stop).to_owned();
            lines.push(line);
            assert(texts_of(lines@) =~= before.push(line@));
            assert(before + (seq![line@] + rest) =~= before.push(line@) + rest);
        }
        from = if end < chars.len() {
            end + 1
        } else {
            end
        };
    }
    assert(texts_of(lines@) + Seq::<Seq<char>>::empty() =~= texts_of(lines@));
    lines
}

/// A line that could not be compiled, and why. Lines count from 1.
#[derive(Debug, Clone, PartialEq)]
pub struct LineError {
    pub line: usize,
    pub error: CompileError,
}

impl LineError {
    /// The report of the failure: the word `line`, the number of the line, a
    /// colon, and the error in words.
    pub open spec fn message_text(self) -> Seq<char> {
        "line "@ + decimal(self.line as nat) + ": "@ + self.error.message_text()
    }

    /// Writes the report of the failure.
    pub fn message(&self) -> (s: String)
        ensures
            s@ == self.message_text(),
    {
        let mut s = "line ".to_owned();
        s.append(decimal_text(self.line).as_str());
        s.append(": ");
        s.append(self.error.message().as_str());
        s
    }
}

/// What became of the rules of a file: the matchers of those that compiled,
/// and the failures of the others.
pub struct Compilation {
    /// The matchers, in the order of their lines.
    pub matchers: MatcherSet,
    /// The failures, in the order of their lines.
    pub errors: Vec<LineError>,
    /// For each matcher, the number of the line it was compiled from.
    pub origins: Ghost<Seq<int>>,
}

/// Whether `m` is the matcher of the rule `line` under `base_dir`.
pub open spec fn compiles_to(base_dir: Option<&str>, line: Seq<char>, delimiter: char, m: MatchLine) -> bool {
    &&& lex(line) matches Ok(tokens)
    &&& base_dir matches Some(base)
    &&& m.compiled_from(base@, tokens, delimiter)
}

/// Whether `error` is a failure that the rule `line` can end in under
/// `base_dir`: the error of its syntax if it has one; else the want of a text
/// form of the base directory; else a refusal by the engine.
pub open spec fn fails_with(base_dir: Option<&str>, line: Seq<char>, error: CompileError) -> bool {
    match (lex(line), base_dir) {
        (Err(e), _) => error == CompileError::Syntax(e),
        (Ok(_), None) => error == CompileError::BaseDirectory,
        (Ok(_), Some(_)) => is_refusal(error),
    }
}

/// Whether `line` is among `origins`.
pub open spec fn occurs(origins: Seq<int>, line: int) -> bool {
    exists|j: int| 0 <= j < origins.len() && #[trigger] origins[j] == line
}

/// Whether `errors` holds a failure of the line numbered `line`.
pub open spec fn reports(errors: Seq<LineError>, line: int) -> bool {
    exists|k: int| 0 <= k < errors.len() && (#[trigger] errors[k]).line == line
}

/// Whether `matchers` and `errors` are what the first `count` of `lines`
/// compile to under `base_dir`: every one of these lines has either its
/// matcher or its failure, and both lists run in the order of the lines.
/// `origins` gives, for each matcher, the number of its line.
pub open spec fn covering(
    matchers: Seq<MatchLine>,
    origins: Seq<int>,
    errors: Seq<LineError>,
    base_dir: Option<&str>,
    lines: Seq<Seq<char>>,
    count: int,
    delimiter: char,
) -> bool {
    &&& origins.len() == matchers.len()
    &&& forall|j: int|
        0 <= j < origins.len() ==> 1 <= #[trigger] origins[j] <= count && compiles_to(
            base_dir,
            lines[origins[j] - 1],
            delimiter,
            matchers[j],
        )
    &&& forall|j: int, k: int|
        0 <= j < k < origins.len() ==> #[trigger] origins[j] < #[trigger] origins[k]
    &&& forall|k: int|
        0 <= k < errors.len() ==> 1 <= (#[trigger] errors[k]).line <= count && fails_with(
            base_dir,
            lines[errors[k].line - 1],
            errors[k].error,
        )
    &&& forall|j: int, k: int|
        0 <= j < k < errors.len() ==> (#[trigger] errors[j]).line < (#[trigger] errors[k]).line
    &&& forall|line: int|
        1 <= line <= count ==> (#[trigger] occurs(origins, line)) != (#[trigger] reports(
            errors,
            line,
        ))
}

impl Compilation {
    /// Whether this is what `lines` compile to under `base_dir`.
    pub open spec fn covers(&self, base_dir: Option<&str>, lines: Seq<Seq<char>>, delimiter: char) -> bool {
        covering(
            self.matchers@,
            self.origins@,
            self.errors@,
            base_dir,
            lines,
            lines.len() as int,
            delimiter,
        )
    }

    /// Whether the file gave at least one matcher. A session cannot run on a
    /// file that gave none.
    pub fn is_usable(&self) -> (b: bool)
        ensures
            b == (self.matchers@.len() > 0),
    {
        !self.matchers.is_empty()
    }
}

proof fn lemma_occurs_push(origins: Seq<int>, added: int, line: int)
    ensures
        occurs(origins.push(added), line) == (occurs(origins, line) || line == added),
{
    let longer = origins.push(added);
    if occurs(origins, line) {
        let j = choose|j: int| 0 <= j < origins.len() && #[trigger] origins[j] == line;
        assert(longer[j] == line);
    }
    if line == added {
        assert(longer[origins.len() as int] == line);
    }
    if occurs(longer, line) {
        let j = choose|j: int| 0 <= j < longer.len() && #[trigger] longer[j] == line;
        if j < origins.len() {
            assert(origins[j] == line);
        }
    }
}

proof fn lemma_reports_push(errors: Seq<LineError>, added: LineError, line: int)
    ensures
        reports(errors.push(added), line) == (reports(errors, line) || line == added.line),
{
    let longer = errors.push(added);
    if reports(errors, line) {
        let k = choose|k: int| 0 <= k < errors.len() && (#[trigger] errors[k]).line == line;
        assert(longer[k].line == line);
    }
    if line == added.line {
        assert(longer[errors.len() as int].line == line);
    }
    if reports(longer, line) {
        let k = choose|k: int| 0 <= k < longer.len() && (#[trigger] longer[k]).line == line;
        if k < errors.len() {
            assert(errors[k].line == line);
        }
    }
}

/// A line that is no rule is reported under its number, with the error of its
/// syntax, and gets no matcher, whatever the other lines hold.
pub proof fn lemma_malformed_line_is_reported(
    c: Compilation,
    base_dir: Option<&str>,
    lines: Seq<Seq<char>>,
    delimiter: char,
    line: int,
)
    requires
        c.covers(base_dir, lines, delimiter),
        1 <= line <= lines.len(),
        lex(lines[line - 1]) is Err,
    ensures
        !occurs(c.origins@, line),
        exists|k: int|
            0 <= k < c.errors@.len() && (#[trigger] c.errors@[k]).line == line && c.errors@[k].error
                == CompileError::Syntax(lex(lines[line - 1])->Err_0),
{
    if occurs(c.origins@, line) {
        let j = choose|j: int| 0 <= j < c.origins@.len() && #[trigger] c.origins@[j] == line;
        assert(compiles_to(base_dir, lines[c.origins@[j] - 1], delimiter, c.matchers@[j]));
    }
    assert(reports(c.errors@, line));
    let k = choose|k: int| 0 <= k < c.errors@.len() && (#[trigger] c.errors@[k]).line == line;
    assert(fails_with(base_dir, lines[c.errors@[k].line - 1], c.errors@[k].error));
}

/// A line that is a rule is not held back by the failure of any other line:
/// under a base directory that has a text form it has its matcher, unless the
/// engine refused its own pattern.
pub proof fn lemma_rule_compiles_by_itself(
    c: Compilation,
    base_dir: Option<&str>,
    lines: Seq<Seq<char>>,
    delimiter: char,
    line: int,
)
    requires
        c.covers(base_dir, lines, delimiter),
        1 <= line <= lines.len(),
        lex(lines[line - 1]) is Ok,
        base_dir is Some,
    ensures
        (exists|j: int|
            0 <= j < c.origins@.len() && #[trigger] c.origins@[j] == line && compiles_to(
                base_dir,
                lines[line - 1],
                delimiter,
                c.matchers@[j],
            )) || (exists|k: int|
            0 <= k < c.errors@.len() && (#[trigger] c.errors@[k]).line == line
                && is_refusal(c.errors@[k].error)),
{
    if occurs(c.origins@, line) {
        let j = choose|j: int| 0 <= j < c.origins@.len() && #[trigger] c.origins@[j] == line;
        assert(compiles_to(base_dir, lines[c.origins@[j] - 1], delimiter, c.matchers@[j]));
    } else {
        assert(reports(c.errors@, line));
        let k = choose|k: int| 0 <= k < c.errors@.len() && (#[trigger] c.errors@[k]).line == line;
        assert(fails_with(base_dir, lines[c.errors@[k].line - 1], c.errors@[k].error));
    }
}

/// Every line ends in exactly one of the two lists.
pub proof fn lemma_every_line_is_accounted_for(
    c: Compilation,
    base_dir: Option<&str>,
    lines: Seq<Seq<char>>,
    delimiter: char,
)
    requires
        c.covers(base_dir, lines, delimiter),
    ensures
        c.matchers@.len() + c.errors@.len() == lines.len(),
{
    lemma_count(c.origins@, c.errors@, lines.len() as int);
}

/// Two rising lists of numbers that share the numbers from 1 to `count`
/// between them hold `count` numbers together.
proof fn lemma_count(origins: Seq<int>, errors: Seq<LineError>, count: int)
    requires
        0 <= count,
        forall|j: int| 0 <= j < origins.len() ==> 1 <= #[trigger] origins[j] <= count,
        forall|j: int, k: int|
            0 <= j < k < origins.len() ==> #[trigger] origins[j] < #[trigger] origins[k],
        forall|k: int| 0 <= k < errors.len() ==> 1 <= (#[trigger] errors[k]).line <= count,
        forall|j: int, k: int|
            0 <= j < k < errors.len() ==> (#[trigger] errors[j]).line < (#[trigger] errors[k]).line,
        forall|line: int|
            1 <= line <= count ==> (#[trigger] occurs(origins, line)) != (#[trigger] reports(
                errors,
                line,
            )),
    ensures
        origins.len() + errors.len() == count,
    decreases count,
{
    if count == 0 {
        if origins.len() > 0 {
            assert(1 <= origins[0] <= count);
        }
        if errors.len() > 0 {
            assert(1 <= errors[0].line <= count);
        }
    } else if occurs(origins, count) {
        let j = choose|j: int| 0 <= j < origins.len() && #[trigger] origins[j] == count;
        if j < origins.len() - 1 {
            assert(origins[j] < origins[origins.len() - 1]);
        }
        let shorter = origins.drop_last();
        assert forall|line: int| 1 <= line <= count - 1 implies (#[trigger] occurs(shorter, line))
            != (#[trigger] reports(errors, line)) by {
            assert(shorter.push(count) =~= origins);
            lemma_occurs_push(shorter, count, line);
        }
        assert forall|k: int| 0 <= k < errors.len() implies 1 <= (#[trigger] errors[k]).line
            <= count - 1 by {
            if errors[k].line == count {
                assert(reports(errors, count));
            }
        }
        lemma_count(shorter, errors, count - 1);
    } else {
        assert(reports(errors, count));
        let k = choose|k: int| 0 <= k < errors.len() && (#[trigger] errors[k]).line == count;
        if k < errors.len() - 1 {
            assert(errors[k].line < errors[errors.len() - 1].line);
        }
        let shorter = errors.drop_last();
        assert forall|line: int| 1 <= line <= count - 1 implies (#[trigger] occurs(origins, line))
            != (#[trigger] reports(shorter, line)) by {
            assert(shorter.push(errors.last()) =~= errors);
            lemma_reports_push(shorter, errors.last(), line);
        }
        assert forall|j: int| 0 <= j < origins.len() implies 1 <= #[trigger] origins[j] <= count
            - 1 by {
            if origins[j] == count {
                assert(occurs(origins, count));
            }
        }
        lemma_count(origins, shorter, count - 1);
    }
}

/// Compiles each of `lines` under `base_dir` for a platform whose path
/// delimiter is `delimiter`.
pub fn compile_lines_for(base_dir: Option<&str>, lines: &Vec<String>, delimiter: char) -> (c:
    Compilation)
    ensures
        c.covers(base_dir, texts_of(lines@), delimiter),
{
    let mut matchers: Vec<MatchLine> = Vec::new();
    let mut errors: Vec<LineError> = Vec::new();
    let ghost mut origins: Seq<int> = Seq::empty();
    let ghost texts = texts_of(lines@);
    let mut idx: usize = 0;
    while idx < lines.len()
        invariant
            idx <= lines.len(),
            texts == texts_of(lines@),
            covering(matchers@, origins, errors@, base_dir, texts, idx as int, delimiter),
        decreases lines.len() - idx,
    {
        let ghost old_matchers = matchers@;
        let ghost old_origins = origins;
        let ghost old_errors = errors@;
        let number: usize = idx + 1;
        assert(texts[idx as int] == lines@[idx as int]@);
        match MatchLine::for_delimiter(base_dir, lines[idx].as_str(), delimiter) {
            Ok(m) => {
                matchers.push(m);
                proof {
                    origins = origins.push(number as int);
                    assert forall|line: int| 1 <= line <= number implies (#[trigger] occurs(
                        origins,
                        line,
                    )) != (#[trigger] reports(errors@, line)) by {
                        lemma_occurs_push(old_origins, number as int, line);
                        if line == number {
                            if reports(errors@, line) {
                                let k = choose|k: int|
                                    0 <= k < errors@.len() && (#[trigger] errors@[k]).line == line;
                                assert(errors@[k].line <= idx);
                            }
                        }
                    }
                }
            },
            Err(error) => {
                let failure = LineError { line: number, error };
                errors.push(failure);
                proof {
                    assert forall|line: int| 1 <= line <= number implies (#[trigger] occurs(
                        origins,
                        line,
                    )) != (#[trigger] reports(errors@, line)) by {
                        lemma_reports_push(old_errors, failure, line);
                        if line == number {
                            if occurs(origins, line) {
                                let j = choose|j: int|
                                    0 <= j < origins.len() && #[trigger] origins[j] == line;
                                assert(origins[j] <= idx);
                            }
                        }
                    }
                }
            },
        }
        idx += 1;
    }
    Compilation { matchers: MatcherSet::new(matchers), errors, origins: Ghost(origins) }
}

/// Compiles each of `lines` under `base_dir` for this platform.
pub fn compile_lines(base_dir: Option<&str>, lines: &Vec<String>) -> (c: Compilation)
    ensures
        exists|delimiter: char| c.covers(base_dir, texts_of(lines@), delimiter),
{
    compile_lines_for(base_dir, lines, main_separator())
}

} // verus!
