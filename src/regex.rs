use vstd::prelude::*;
use vstd::string::StrSliceExecFns;

verus! {

/// A parsed pattern. Repetition nodes carry, besides the repeated unit, the
/// continuation: everything that must match after the repetition.
#[derive(Debug, Eq, PartialEq)]
pub enum Regex {
    Noop,
    Digit,
    Alphanumeric,
    Wildcard,
    Whitespace,
    Tag { c: char },
    Any { cs: Vec<char> },
    NotAny { cs: Vec<char> },
    AtLeastOne(Box<Regex>, Box<Regex>),
    ZeroOrOne(Box<Regex>, Box<Regex>),
    ZeroOrMany(Box<Regex>, Box<Regex>),
    Quantifier(usize, usize, Box<Regex>, Box<Regex>),
    Or(Box<Regex>, Box<Regex>),
    And(Box<Regex>, Box<Regex>),
    Somewhere(Box<Regex>),
    Starts(Box<Regex>),
    Ends,
}

/// The fault that matching a bounded repetition raises: the construct is
/// valid but not implemented.
#[derive(Debug, Clone, Copy, PartialEq, Eq, Structural)]
pub struct Unsupported;

/// Whether `char::is_alphanumeric` holds of a character.
pub uninterp spec fn alphanumeric_of(c: char) -> bool;

/// Whether `char::is_whitespace` holds of a character.
pub uninterp spec fn whitespace_of(c: char) -> bool;

/// Relies on `char::is_alphanumeric`: the Unicode Alphabetic or Numeric
/// property of the character.
#[verifier::external_body]
fn is_alphanumeric(c: char) -> (r: bool)
    ensures
        r == alphanumeric_of(c),
{
    c.is_alphanumeric()
}

/// Relies on `char::is_whitespace`: the Unicode White_Space property of the
/// character.
#[verifier::external_body]
fn is_whitespace(c: char) -> (r: bool)
    ensures
        r == whitespace_of(c),
{
    c.is_whitespace()
}

pub open spec fn is_digit(c: char) -> bool {
    '0' <= c && c <= '9'
}

/// The part of `text` from position `pos` on.
pub open spec fn suffix(text: Seq<char>, pos: int) -> Seq<char> {
    text.subrange(pos, text.len() as int)
}

/// The remainder that a match ending at position `r` leaves of `text`.
pub open spec fn outcome(text: Seq<char>, r: Option<usize>) -> Option<Seq<char>> {
    match r {
        Some(p) => Some(suffix(text, p as int)),
        None => None,
    }
}

/// The mathematical model of a [`Regex`]: the same tree, with character
/// sets as sequences.
pub enum Pattern {
    Noop,
    Digit,
    Alphanumeric,
    Wildcard,
    Whitespace,
    Tag(char),
    Any(Seq<char>),
    NotAny(Seq<char>),
    AtLeastOne(Box<Pattern>, Box<Pattern>),
    ZeroOrOne(Box<Pattern>, Box<Pattern>),
    ZeroOrMany(Box<Pattern>, Box<Pattern>),
    Quantifier(nat, nat, Box<Pattern>, Box<Pattern>),
    Or(Box<Pattern>, Box<Pattern>),
    And(Box<Pattern>, Box<Pattern>),
    Somewhere(Box<Pattern>),
    Starts(Box<Pattern>),
    Ends,
}

impl Regex {
    /// The tree as a [`Pattern`].
    pub open spec fn model(self) -> Pattern
        decreases self,
    {
        match self {
            Regex::Noop => Pattern::Noop,
            Regex::Digit => Pattern::Digit,
            Regex::Alphanumeric => Pattern::Alphanumeric,
            Regex::Wildcard => Pattern::Wildcard,
            Regex::Whitespace => Pattern::Whitespace,
            Regex::Tag { c } => Pattern::Tag(c),
            Regex::Any { cs } => Pattern::Any(cs@),
            Regex::NotAny { cs } => Pattern::NotAny(cs@),
            Regex::AtLeastOne(a, b) => Pattern::AtLeastOne(Box::new(a.model()), Box::new(b.model())),
            Regex::ZeroOrOne(a, b) => Pattern::ZeroOrOne(Box::new(a.model()), Box::new(b.model())),
            Regex::ZeroOrMany(a, b) => Pattern::ZeroOrMany(Box::new(a.model()), Box::new(b.model())),
            Regex::Quantifier(lo, hi, a, b) => Pattern::Quantifier(
                lo as nat,
                hi as nat,
                Box::new(a.model()),
                Box::new(b.model()),
            ),
            Regex::Or(a, b) => Pattern::Or(Box::new(a.model()), Box::new(b.model())),
            Regex::And(a, b) => Pattern::And(Box::new(a.model()), Box::new(b.model())),
            Regex::Somewhere(a) => Pattern::Somewhere(Box::new(a.model())),
            Regex::Starts(a) => Pattern::Starts(Box::new(a.model())),
            Regex::Ends => Pattern::Ends,
        }
    }
}

/// The model of a literal node is the literal of the same character.
pub(crate) proof fn lemma_tag_model(c: char)
    ensures
        (Regex::Tag { c }).model() == Pattern::Tag(c),
{
}

impl View for Regex {
    type V = Pattern;

    open spec fn view(&self) -> Pattern {
        self.model()
    }
}

impl Pattern {
    /// The tree holds no bounded repetition, which matching does not support.
    pub open spec fn supported(self) -> bool
        decreases self,
    {
        match self {
            Pattern::AtLeastOne(unit, follow) => unit.supported() && follow.supported(),
            Pattern::ZeroOrOne(unit, follow) => unit.supported() && follow.supported(),
            Pattern::ZeroOrMany(unit, follow) => unit.supported() && follow.supported(),
            Pattern::Quantifier(_, _, _, _) => false,
            Pattern::Or(left, right) => left.supported() && right.supported(),
            Pattern::And(left, right) => left.supported() && right.supported(),
            Pattern::Somewhere(inner) => inner.supported(),
            Pattern::Starts(inner) => inner.supported(),
            _ => true,
        }
    }

    /// The node tests a single character.
    pub open spec fn is_char_class(self) -> bool {
        match self {
            Pattern::Digit => true,
            Pattern::Alphanumeric => true,
            Pattern::Wildcard => true,
            Pattern::Whitespace => true,
            Pattern::Tag(_) => true,
            Pattern::Any(_) => true,
            Pattern::NotAny(_) => true,
            _ => false,
        }
    }

    /// Whether a single-character node accepts `c`.
    pub open spec fn accepts(self, c: char) -> bool {
        match self {
            Pattern::Digit => is_digit(c),
            Pattern::Alphanumeric => alphanumeric_of(c),
            Pattern::Wildcard => true,
            Pattern::Whitespace => whitespace_of(c),
            Pattern::Tag(t) => c == t,
            Pattern::Any(cs) => cs.contains(c),
            Pattern::NotAny(cs) => !cs.contains(c),
            _ => false,
        }
    }

    /// Matching `self` at the start of `s`: the unconsumed rest of `s` on
    /// success. A repetition whose unit matched without consuming anything
    /// goes on with its continuation instead of repeating again.
    pub open spec fn run(self, s: Seq<char>) -> Option<Seq<char>>
        decreases self, s.len(),
    {
        match self {
            Pattern::Noop => Some(s),
            Pattern::AtLeastOne(unit, follow) => match unit.run(s) {
                None => None,
                Some(t) => if t.len() < s.len() {
                    match self.run(t) {
                        None => follow.run(t),
                        Some(u) => Some(u),
                    }
                } else {
                    follow.run(t)
                },
            },
            Pattern::ZeroOrOne(unit, follow) => match unit.run(s) {
                None => follow.run(s),
                Some(t) => match follow.run(t) {
                    None => follow.run(s),
                    Some(u) => Some(u),
                },
            },
            Pattern::ZeroOrMany(unit, follow) => match unit.run(s) {
                None => follow.run(s),
                Some(t) => if t.len() < s.len() {
                    self.run(t)
                } else {
                    follow.run(t)
                },
            },
            Pattern::Quantifier(_, _, _, _) => None,
            Pattern::Or(left, right) => match left.run(s) {
                Some(t) => Some(t),
                None => right.run(s),
            },
            Pattern::And(left, right) => match left.run(s) {
                Some(t) => right.run(t),
                None => None,
            },
            Pattern::Somewhere(inner) => match inner.run(s) {
                Some(t) => Some(t),
                None => if s.len() == 0 {
                    None
                } else {
                    self.run(s.drop_first())
                },
            },
            Pattern::Starts(inner) => inner.run(s),
            Pattern::Ends => if s.len() == 0 {
                Some(s)
            } else {
                None
            },
            _ => if s.len() > 0 && self.accepts(s[0]) {
                Some(s.drop_first())
            } else {
                None
            },
        }
    }
}

impl Regex {
    /// Matches the pattern at the start of `haystack` and returns what is
    /// left of it on success.
    pub fn exact<'a>(&self, haystack: &'a str) -> (r: Option<&'a str>)
        requires
            self@.supported(),
        ensures
            self@.run(haystack@) == (match r {
                Some(rest) => Some(rest@),
                None => None,
            }),
    {
        let text = chars_of(haystack);
        let n = text.len();
        assert(suffix(text@, 0) =~= text@);
        match self.exact_at(&text, 0) {
            Some(p) => Some(haystack.substring_char(p, n)),
            None => None,
        }
    }

    /// Like [`Regex::exact`], but on a tree that holds a bounded repetition
    /// it reports [`Unsupported`] instead of matching.
    pub fn try_exact<'a>(&self, haystack: &'a str) -> (r: Result<Option<&'a str>, Unsupported>)
        ensures
            !self@.supported() <==> r is Err,
            r matches Ok(m) ==> self@.run(haystack@) == (match m {
                Some(rest) => Some(rest@),
                None => None,
            }),
    {
        if self.is_supported() {
            Ok(self.exact(haystack))
        } else {
            Err(Unsupported)
        }
    }

    /// Whether the tree holds no bounded repetition.
    pub fn is_supported(&self) -> (r: bool)
        ensures
            r == self@.supported(),
        decreases self,
    {
        match self {
            Regex::AtLeastOne(unit, follow) => unit.is_supported() && follow.is_supported(),
            Regex::ZeroOrOne(unit, follow) => unit.is_supported() && follow.is_supported(),
            Regex::ZeroOrMany(unit, follow) => unit.is_supported() && follow.is_supported(),
            Regex::Quantifier(_, _, _, _) => false,
            Regex::Or(left, right) => left.is_supported() && right.is_supported(),
            Regex::And(left, right) => left.is_supported() && right.is_supported(),
            Regex::Somewhere(inner) => inner.is_supported(),
            Regex::Starts(inner) => inner.is_supported(),
            _ => true,
        }
    }

    fn exact_at(&self, text: &Vec<char>, pos: usize) -> (r: Option<usize>)
        requires
            self@.supported(),
            pos <= text@.len(),
        ensures
            self@.run(suffix(text@, pos as int)) == outcome(text@, r),
            r matches Some(p) ==> pos <= p <= text@.len(),
        decreases self, text@.len() - pos, 1nat,
    {
        match self {
            Regex::Noop => Some(pos),
            Regex::AtLeastOne(_, _) => self.match_at_least_one(text, pos),
            Regex::ZeroOrOne(_, _) => self.match_zero_or_one(text, pos),
            Regex::ZeroOrMany(_, _) => self.match_at_zero_or_many(text, pos),
            Regex::Quantifier(_, _, _, _) => None,
            Regex::Or(_, _) => self.match_or(text, pos),
            Regex::And(_, _) => self.match_and(text, pos),
            Regex::Ends => Self::match_ends(text, pos),
            Regex::Somewhere(_) => self.match_somewhere(text, pos),
            Regex::Starts(inner) => inner.exact_at(text, pos),
            _ => self.match_char(text, pos),
        }
    }

    fn match_at_least_one(&self, text: &Vec<char>, pos: usize) -> (r: Option<usize>)
        requires
            self@ is AtLeastOne,
            self@.supported(),
            pos <= text@.len(),
        ensures
            self@.run(suffix(text@, pos as int)) == outcome(text@, r),
            r matches Some(p) ==> pos <= p <= text@.len(),
        decreases self, text@.len() - pos, 0nat,
    {
        match self {
            Regex::AtLeastOne(unit, follow) => match unit.exact_at(text, pos) {
                None => None,
                Some(next) => {
                    if next > pos {
                        match self.exact_at(text, next) {
                            None => follow.exact_at(text, next),
                            Some(last) => Some(last),
                        }
                    } else {
                        follow.exact_at(text, next)
                    }
                },
            },
            _ => None,
        }
    }

    fn match_at_zero_or_many(&self, text: &Vec<char>, pos: usize) -> (r: Option<usize>)
        requires
            self@ is ZeroOrMany,
            self@.supported(),
            pos <= text@.len(),
        ensures
            self@.run(suffix(text@, pos as int)) == outcome(text@, r),
            r matches Some(p) ==> pos <= p <= text@.len(),
        decreases self, text@.len() - pos, 0nat,
    {
        match self {
            Regex::ZeroOrMany(unit, follow) => match unit.exact_at(text, pos) {
                None => follow.exact_at(text, pos),
                Some(next) => {
                    if next > pos {
                        self.exact_at(text, next)
                    } else {
                        follow.exact_at(text, next)
                    }
                },
            },
            _ => None,
        }
    }

    fn match_zero_or_one(&self, text: &Vec<char>, pos: usize) -> (r: Option<usize>)
        requires
            self@ is ZeroOrOne,
            self@.supported(),
            pos <= text@.len(),
        ensures
            self@.run(suffix(text@, pos as int)) == outcome(text@, r),
            r matches Some(p) ==> pos <= p <= text@.len(),
        decreases self, text@.len() - pos, 0nat,
    {
        match self {
            Regex::ZeroOrOne(unit, follow) => match unit.exact_at(text, pos) {
                None => follow.exact_at(text, pos),
                Some(next) => match follow.exact_at(text, next) {
                    None => follow.exact_at(text, pos),
                    Some(last) => Some(last),
                },
            },
            _ => None,
        }
    }

    fn match_ends(text: &Vec<char>, pos: usize) -> (r: Option<usize>)
        requires
            pos <= text@.len(),
        ensures
            Pattern::Ends.run(suffix(text@, pos as int)) == outcome(text@, r),
            r matches Some(p) ==> pos <= p <= text@.len(),
    {
        if pos == text.len() {
            Some(pos)
        } else {
            None
        }
    }

    fn match_somewhere(&self, text: &Vec<char>, pos: usize) -> (r: Option<usize>)
        requires
            self@ is Somewhere,
            self@.supported(),
            pos <= text@.len(),
        ensures
            self@.run(suffix(text@, pos as int)) == outcome(text@, r),
            r matches Some(p) ==> pos <= p <= text@.len(),
        decreases self, text@.len() - pos, 0nat,
    {
        match self {
            Regex::Somewhere(inner) => match inner.exact_at(text, pos) {
                Some(next) => Some(next),
                None => {
                    if pos == text.len() {
                        None
                    } else {
                        assert(suffix(text@, pos + 1) =~= suffix(text@, pos as int).drop_first());
                        self.exact_at(text, pos + 1)
                    }
                },
            },
            _ => None,
        }
    }

    fn match_and(&self, text: &Vec<char>, pos: usize) -> (r: Option<usize>)
        requires
            self@ is And,
            self@.supported(),
            pos <= text@.len(),
        ensures
            self@.run(suffix(text@, pos as int)) == outcome(text@, r),
            r matches Some(p) ==> pos <= p <= text@.len(),
        decreases self, text@.len() - pos, 0nat,
    {
        match self {
            Regex::And(left, right) => match left.exact_at(text, pos) {
                Some(next) => right.exact_at(text, next),
                None => None,
            },
            _ => None,
        }
    }

    fn match_or(&self, text: &Vec<char>, pos: usize) -> (r: Option<usize>)
        requires
            self@ is Or,
            self@.supported(),
            pos <= text@.len(),
        ensures
            self@.run(suffix(text@, pos as int)) == outcome(text@, r),
            r matches Some(p) ==> pos <= p <= text@.len(),
        decreases self, text@.len() - pos, 0nat,
    {
        match self {
            Regex::Or(left, right) => match left.exact_at(text, pos) {
                Some(next) => Some(next),
                None => right.exact_at(text, pos),
            },
            _ => None,
        }
    }

    fn match_char(&self, text: &Vec<char>, pos: usize) -> (r: Option<usize>)
        requires
            self@.is_char_class(),
            pos <= text@.len(),
        ensures
            self@.run(suffix(text@, pos as int)) == outcome(text@, r),
            r matches Some(p) ==> pos <= p <= text@.len(),
    {
        if pos < text.len() && self.accepts_char(text[pos]) {
            assert(suffix(text@, pos + 1) =~= suffix(text@, pos as int).drop_first());
            Some(pos + 1)
        } else {
            None
        }
    }

    fn accepts_char(&self, c: char) -> (r: bool)
        requires
            self@.is_char_class(),
        ensures
            r == self@.accepts(c),
    {
        match self {
            Regex::Digit => '0' <= c && c <= '9',
            Regex::Alphanumeric => is_alphanumeric(c),
            Regex::Wildcard => true,
            Regex::Whitespace => is_whitespace(c),
            Regex::Tag { c: t } => c == *t,
            Regex::Any { cs } => contains(cs, c),
            Regex::NotAny { cs } => !contains(cs, c),
            _ => false,
        }
    }
}


/// `Noop` matches everywhere and consumes nothing; it is an identity on both
/// sides of a sequence.
pub proof fn lemma_noop_identity(a: Pattern, s: Seq<char>)
    ensures
        Pattern::Noop.run(s) == Some(s),
        Pattern::And(Box::new(Pattern::Noop), Box::new(a)).run(s) == a.run(s),
        Pattern::And(Box::new(a), Box::new(Pattern::Noop)).run(s) == a.run(s),
{
    let left = Pattern::And(Box::new(a), Box::new(Pattern::Noop));
    assert(left.run(s) == (match a.run(s) {
        Some(t) => Pattern::Noop.run(t),
        None => None,
    }));
}

/// The end anchor matches the empty text, leaving it empty, and no other text.
pub proof fn lemma_ends(s: Seq<char>)
    ensures
        s.len() == 0 ==> Pattern::Ends.run(s) == Some(Seq::<char>::empty()),
        s.len() > 0 ==> Pattern::Ends.run(s) is None,
{
    if s.len() == 0 {
        assert(s =~= Seq::<char>::empty());
    }
}

/// A sequence matches its left part, then its right part on what the left
/// part left over.
pub proof fn lemma_sequence(a: Pattern, b: Pattern, s: Seq<char>)
    ensures
        Pattern::And(Box::new(a), Box::new(b)).run(s) == (match a.run(s) {
            Some(t) => b.run(t),
            None => None,
        }),
{
}

/// An alternation prefers its left branch: where the left branch matches, its
/// result is the alternation's; otherwise the right branch decides.
pub proof fn lemma_alternation_left_biased(a: Pattern, b: Pattern, s: Seq<char>)
    ensures
        a.run(s) is Some ==> Pattern::Or(Box::new(a), Box::new(b)).run(s) == a.run(s),
        a.run(s) is None ==> Pattern::Or(Box::new(a), Box::new(b)).run(s) == b.run(s),
{
}

fn contains(cs: &Vec<char>, c: char) -> (r: bool)
    ensures
        r == cs@.contains(c),
{
    let mut i: usize = 0;
    while i < cs.len()
        invariant
            i <= cs@.len(),
            forall|j: int| 0 <= j < i ==> cs@[j] != c,
        decreases cs@.len() - i,
    {
        if cs[i] == c {
            return true;
        }
        i = i + 1;
    }
    false
}

/// The characters of `s`, in order.
pub fn chars_of(s: &str) -> (r: Vec<char>)
    ensures
        r@ == s@,
{
    let mut r: Vec<char> = Vec::new();
    for c in it: s.chars()
        invariant
            it.seq() == s@,
            r@ == it.seq().take(it.index() as int),
    {
        r.push(c);
    }
    assert(r@ =~= s@);
    r
}

} // verus!
