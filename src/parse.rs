use vstd::prelude::*;

use crate::regex::{chars_of, lemma_tag_model, Pattern, Regex};

verus! {

/// Why a pattern could not be parsed.
#[derive(Debug, Clone, Copy, PartialEq, Eq, Structural)]
pub enum ParseError {
    /// A `[` with no `]` after it.
    UnterminatedCharSet,
    /// A `(` with no `|` after it, or no `)` after that `|`.
    MalformedAlternation,
    /// A `$` that is not the last character of its part of the pattern.
    MisplacedEndAnchor,
    /// A `\` with nothing after it.
    DanglingEscape,
}

/// The first position in `lo..hi` at which `p` holds `c`.
pub open spec fn find_char(p: Seq<char>, lo: int, hi: int, c: char) -> Option<int>
    decreases hi - lo,
{
    if lo >= hi {
        None
    } else if p[lo] == c {
        Some(lo)
    } else {
        find_char(p, lo + 1, hi, c)
    }
}

proof fn lemma_find_char(p: Seq<char>, lo: int, hi: int, c: char)
    ensures
        match find_char(p, lo, hi, c) {
            Some(i) => lo <= i < hi && p[i] == c && forall|k: int| lo <= k < i ==> p[k] != c,
            None => forall|k: int| lo <= k < hi ==> p[k] != c,
        },
    decreases hi - lo,
{
    if lo < hi && p[lo] != c {
        lemma_find_char(p, lo + 1, hi, c);
    }
}

/// The node that an escaped character stands for.
pub open spec fn escape_node(c: char) -> Pattern {
    if c == 'd' {
        Pattern::Digit
    } else if c == 'w' {
        Pattern::Alphanumeric
    } else if c == 't' {
        Pattern::Whitespace
    } else {
        Pattern::Tag(c)
    }
}

/// Where the characters of a set that starts at `lo` (just after its `[`) begin.
pub open spec fn set_body(p: Seq<char>, lo: int, end: int) -> int {
    if lo < end && p[lo] == '^' {
        lo + 1
    } else {
        lo
    }
}

/// The character set whose text starts at `lo`, just after its `[`.
pub open spec fn char_set(p: Seq<char>, lo: int, end: int) -> Result<Pattern, ParseError> {
    let b = set_body(p, lo, end);
    match find_char(p, b, end, ']') {
        None => Err(ParseError::UnterminatedCharSet),
        Some(k) => if b > lo {
            Ok(Pattern::NotAny(p.subrange(b, k)))
        } else {
            Ok(Pattern::Any(p.subrange(b, k)))
        },
    }
}

/// Where the unit that starts at `start` ends, when it parses.
pub open spec fn unit_end(p: Seq<char>, start: int, end: int) -> int {
    let c = p[start];
    if c == '$' {
        end
    } else if c == '\\' {
        if start + 1 < end {
            start + 2
        } else {
            end
        }
    } else if c == '[' {
        match find_char(p, set_body(p, start + 1, end), end, ']') {
            Some(k) => k + 1,
            None => end,
        }
    } else if c == '(' {
        match find_char(p, start + 1, end, '|') {
            Some(i) => match find_char(p, i + 1, end, ')') {
                Some(j) => j + 1,
                None => end,
            },
            None => end,
        }
    } else {
        start + 1
    }
}

proof fn lemma_unit_end(p: Seq<char>, start: int, end: int)
    requires
        start < end,
    ensures
        start < unit_end(p, start, end) <= end,
{
    lemma_find_char(p, set_body(p, start + 1, end), end, ']');
    lemma_find_char(p, start + 1, end, '|');
    if let Some(i) = find_char(p, start + 1, end, '|') {
        lemma_find_char(p, i + 1, end, ')');
    }
}

/// The part of the pattern from `start` to `end`, parsed: one unit, then
/// either a quantifier that takes the rest as its continuation, or the rest
/// chained after the unit.
pub open spec fn parse_from(p: Seq<char>, start: int, end: int) -> Result<Pattern, ParseError>
    decreases end - start, 1int,
    via parse_from_decreases
{
    if start >= end {
        Ok(Pattern::Noop)
    } else {
        match parse_unit(p, start, end) {
            Err(e) => Err(e),
            Ok(unit) => {
                let next = unit_end(p, start, end);
                if next < end && p[next] == '+' {
                    match parse_from(p, next + 1, end) {
                        Err(e) => Err(e),
                        Ok(rest) => Ok(Pattern::AtLeastOne(Box::new(unit), Box::new(rest))),
                    }
                } else if next < end && p[next] == '?' {
                    match parse_from(p, next + 1, end) {
                        Err(e) => Err(e),
                        Ok(rest) => Ok(Pattern::ZeroOrOne(Box::new(unit), Box::new(rest))),
                    }
                } else if next < end && p[next] == '*' {
                    match parse_from(p, next + 1, end) {
                        Err(e) => Err(e),
                        Ok(rest) => Ok(Pattern::ZeroOrMany(Box::new(unit), Box::new(rest))),
                    }
                } else {
                    match parse_from(p, next, end) {
                        Err(e) => Err(e),
                        Ok(rest) => Ok(Pattern::And(Box::new(unit), Box::new(rest))),
                    }
                }
            },
        }
    }
}

#[via_fn]
proof fn parse_from_decreases(p: Seq<char>, start: int, end: int) {
    if start < end {
        lemma_unit_end(p, start, end);
    }
}

/// The single unit that starts at `start`, without any quantifier after it.
pub open spec fn parse_unit(p: Seq<char>, start: int, end: int) -> Result<Pattern, ParseError>
    decreases end - start, 0int,
{
    let c = p[start];
    if start >= end {
        Ok(Pattern::Noop)
    } else if c == '.' {
        Ok(Pattern::Wildcard)
    } else if c == '$' {
        if start + 1 == end {
            Ok(Pattern::Ends)
        } else {
            Err(ParseError::MisplacedEndAnchor)
        }
    } else if c == '\\' {
        if start + 1 < end {
            Ok(escape_node(p[start + 1]))
        } else {
            Err(ParseError::DanglingEscape)
        }
    } else if c == '[' {
        char_set(p, start + 1, end)
    } else if c == '(' {
        alternation(p, start + 1, end)
    } else {
        Ok(Pattern::Tag(c))
    }
}

/// The alternation whose text starts at `lo`, just after its `(`: the left
/// branch runs up to the first `|`, the right one from there up to the first
/// `)` after it.
pub open spec fn alternation(p: Seq<char>, lo: int, end: int) -> Result<Pattern, ParseError>
    decreases end - lo, 2int,
    via alternation_decreases
{
    match find_char(p, lo, end, '|') {
        None => Err(ParseError::MalformedAlternation),
        Some(i) => match parse_from(p, lo, i) {
            Err(e) => Err(e),
            Ok(left) => match find_char(p, i + 1, end, ')') {
                None => Err(ParseError::MalformedAlternation),
                Some(j) => match parse_from(p, i + 1, j) {
                    Err(e) => Err(e),
                    Ok(right) => Ok(Pattern::Or(Box::new(left), Box::new(right))),
                },
            },
        },
    }
}

#[via_fn]
proof fn alternation_decreases(p: Seq<char>, lo: int, end: int) {
    lemma_find_char(p, lo, end, '|');
    if let Some(i) = find_char(p, lo, end, '|') {
        lemma_find_char(p, i + 1, end, ')');
    }
}

/// A whole pattern, parsed: a leading `^` anchors it at the start of the
/// text; without one it may match anywhere.
pub open spec fn parse_pattern(p: Seq<char>) -> Result<Pattern, ParseError> {
    if p.len() > 0 && p[0] == '^' {
        match parse_from(p, 1, p.len() as int) {
            Err(e) => Err(e),
            Ok(r) => Ok(Pattern::Starts(Box::new(r))),
        }
    } else {
        match parse_from(p, 0, p.len() as int) {
            Err(e) => Err(e),
            Ok(r) => Ok(Pattern::Somewhere(Box::new(r))),
        }
    }
}

/// Each malformed unit is reported with its own error: a `$` before the end,
/// a `\` with nothing after it, a `[` with no `]`, and a `(` with no `|` or
/// no `)` after that `|`.
pub proof fn lemma_parse_errors(p: Seq<char>, start: int, end: int)
    requires
        0 <= start < end <= p.len(),
    ensures
        p[start] == '$' && start + 1 < end ==> parse_from(p, start, end) == Err::<Pattern, ParseError>(
            ParseError::MisplacedEndAnchor,
        ),
        p[start] == '\\' && start + 1 == end ==> parse_from(p, start, end) == Err::<Pattern, ParseError>(
            ParseError::DanglingEscape,
        ),
        p[start] == '[' && find_char(p, set_body(p, start + 1, end), end, ']') is None ==> parse_from(
            p,
            start,
            end,
        ) == Err::<Pattern, ParseError>(ParseError::UnterminatedCharSet),
        p[start] == '(' && find_char(p, start + 1, end, '|') is None ==> parse_from(p, start, end)
            == Err::<Pattern, ParseError>(ParseError::MalformedAlternation),
        p[start] == '(' ==> (find_char(p, start + 1, end, '|') matches Some(i) ==> (parse_from(
            p,
            start + 1,
            i,
        ) is Ok && find_char(p, i + 1, end, ')') is None ==> parse_from(p, start, end)
            == Err::<Pattern, ParseError>(ParseError::MalformedAlternation))),
{
    if p[start] == '$' && start + 1 < end {
        assert(parse_unit(p, start, end) == Err::<Pattern, ParseError>(ParseError::MisplacedEndAnchor));
    }
    if p[start] == '\\' && start + 1 == end {
        assert(parse_unit(p, start, end) == Err::<Pattern, ParseError>(ParseError::DanglingEscape));
    }
}

/// A parse result, seen through the model.
pub open spec fn parsed_view(r: Result<Regex, ParseError>) -> Result<Pattern, ParseError> {
    match r {
        Ok(x) => Ok(x@),
        Err(e) => Err(e),
    }
}

/// What a parser of the single unit at `start` hands back: the unit and the
/// position after it, or the error.
spec fn unit_result(p: Seq<char>, start: int, end: int, r: Result<(usize, Regex), ParseError>) -> bool {
    match r {
        Ok((next, x)) => parse_unit(p, start, end) == Ok::<Pattern, ParseError>(x@)
            && next == unit_end(p, start, end)
            && x@.supported(),
        Err(e) => parse_unit(p, start, end) == Err::<Pattern, ParseError>(e),
    }
}

fn find_from(p: &Vec<char>, lo: usize, hi: usize, c: char) -> (r: Option<usize>)
    requires
        lo <= hi <= p@.len(),
    ensures
        match r {
            Some(i) => find_char(p@, lo as int, hi as int, c) == Some(i as int),
            None => find_char(p@, lo as int, hi as int, c) is None,
        },
{
    let mut i: usize = lo;
    while i < hi
        invariant
            lo <= i <= hi,
            hi <= p@.len(),
            find_char(p@, lo as int, hi as int, c) == find_char(p@, i as int, hi as int, c),
        decreases hi - i,
    {
        if p[i] == c {
            return Some(i);
        }
        i = i + 1;
    }
    None
}

fn or(p: &Vec<char>, start: usize, end: usize) -> (r: Result<(usize, Regex), ParseError>)
    requires
        start < end <= p@.len(),
        p@[start as int] == '(',
    ensures
        unit_result(p@, start as int, end as int, r),
    decreases end - start, 0nat,
{
    let bar = match find_from(p, start + 1, end, '|') {
        Some(i) => i,
        None => return Err(ParseError::MalformedAlternation),
    };
    proof {
        lemma_find_char(p@, start + 1, end as int, '|');
    }
    let left = match regex_inner(p, start + 1, bar) {
        Ok(x) => x,
        Err(e) => return Err(e),
    };
    let close = match find_from(p, bar + 1, end, ')') {
        Some(j) => j,
        None => return Err(ParseError::MalformedAlternation),
    };
    proof {
        lemma_find_char(p@, bar + 1, end as int, ')');
    }
    let right = match regex_inner(p, bar + 1, close) {
        Ok(x) => x,
        Err(e) => return Err(e),
    };
    Ok((close + 1, Regex::Or(Box::new(left), Box::new(right))))
}

fn any(p: &Vec<char>, start: usize, end: usize) -> (r: Result<(usize, Regex), ParseError>)
    requires
        start < end <= p@.len(),
        p@[start as int] == '[',
    ensures
        unit_result(p@, start as int, end as int, r),
{
    let negate = start + 1 < end && p[start + 1] == '^';
    let body = if negate {
        start + 2
    } else {
        start + 1
    };
    let close = match find_from(p, body, end, ']') {
        Some(k) => k,
        None => return Err(ParseError::UnterminatedCharSet),
    };
    proof {
        lemma_find_char(p@, body as int, end as int, ']');
    }
    let mut collected: Vec<char> = Vec::new();
    let mut i: usize = body;
    while i < close
        invariant
            body <= i <= close,
            close < p@.len(),
            collected@ == p@.subrange(body as int, i as int),
        decreases close - i,
    {
        collected.push(p[i]);
        i = i + 1;
    }
    let result = if negate {
        Regex::NotAny { cs: collected }
    } else {
        Regex::Any { cs: collected }
    };
    Ok((close + 1, result))
}

fn escaped(p: &Vec<char>, start: usize, end: usize) -> (r: Result<(usize, Regex), ParseError>)
    requires
        start < end <= p@.len(),
        p@[start as int] == '\\',
    ensures
        unit_result(p@, start as int, end as int, r),
{
    if start + 1 == end {
        return Err(ParseError::DanglingEscape);
    }
    let c = p[start + 1];
    let reg = if c == 'd' {
        Regex::Digit
    } else if c == 'w' {
        Regex::Alphanumeric
    } else if c == 't' {
        Regex::Whitespace
    } else {
        proof {
            lemma_tag_model(c);
        }
        Regex::Tag { c }
    };
    Ok((start + 2, reg))
}

fn regex_inner(p: &Vec<char>, start: usize, end: usize) -> (r: Result<Regex, ParseError>)
    requires
        start <= end <= p@.len(),
    ensures
        parsed_view(r) == parse_from(p@, start as int, end as int),
        r matches Ok(x) ==> x@.supported(),
    decreases end - start, 1nat,
{
    if start == end {
        return Ok(Regex::Noop);
    }
    let first = p[start];
    let unit: Result<(usize, Regex), ParseError> = if first == '.' {
        Ok((start + 1, Regex::Wildcard))
    } else if first == '$' {
        if start + 1 == end {
            Ok((end, Regex::Ends))
        } else {
            Err(ParseError::MisplacedEndAnchor)
        }
    } else if first == '\\' {
        escaped(p, start, end)
    } else if first == '[' {
        any(p, start, end)
    } else if first == '(' {
        or(p, start, end)
    } else {
        proof {
            lemma_tag_model(first);
        }
        Ok((start + 1, Regex::Tag { c: first }))
    };
    assert(unit_result(p@, start as int, end as int, unit));
    let (next, reg) = match unit {
        Ok(u) => u,
        Err(e) => return Err(e),
    };
    proof {
        lemma_unit_end(p@, start as int, end as int);
    }
    if next < end && p[next] == '+' {
        match regex_inner(p, next + 1, end) {
            Ok(rest) => Ok(Regex::AtLeastOne(Box::new(reg), Box::new(rest))),
            Err(e) => Err(e),
        }
    } else if next < end && p[next] == '?' {
        match regex_inner(p, next + 1, end) {
            Ok(rest) => Ok(Regex::ZeroOrOne(Box::new(reg), Box::new(rest))),
            Err(e) => Err(e),
        }
    } else if next < end && p[next] == '*' {
        match regex_inner(p, next + 1, end) {
            Ok(rest) => Ok(Regex::ZeroOrMany(Box::new(reg), Box::new(rest))),
            Err(e) => Err(e),
        }
    } else {
        match regex_inner(p, next, end) {
            Ok(rest) => Ok(Regex::And(Box::new(reg), Box::new(rest))),
            Err(e) => Err(e),
        }
    }
}

/// Parses a pattern. A leading `^` anchors the pattern at the start of the
/// text; without one the pattern may match anywhere in it.
pub fn regex(input: &str) -> (r: Result<Regex, ParseError>)
    ensures
        parsed_view(r) == parse_pattern(input@),
        r matches Ok(x) ==> x@.supported(),
{
    let p = chars_of(input);
    let n = p.len();
    if n > 0 && p[0] == '^' {
        match regex_inner(&p, 1, n) {
            Ok(res) => Ok(Regex::Starts(Box::new(res))),
            Err(e) => Err(e),
        }
    } else {
        match regex_inner(&p, 0, n) {
            Ok(res) => Ok(Regex::Somewhere(Box::new(res))),
            Err(e) => Err(e),
        }
    }
}

} // verus!
