pub mod parse;
pub mod regex;

use vstd::prelude::*;

use crate::parse::{parse_pattern, regex, ParseError};

verus! {

/// Whether `pattern` matches `haystack` where its anchors allow: anywhere,
/// or only at the start when the pattern begins with `^`.
pub fn find(haystack: &str, pattern: &str) -> (r: bool)
    requires
        parse_pattern(pattern@) is Ok,
    ensures
        r == parse_pattern(pattern@)->Ok_0.run(haystack@) is Some,
{
    match regex(pattern) {
        Ok(re) => re.exact(haystack).is_some(),
        Err(_) => false,
    }
}

/// Like [`find`], but hands a pattern that does not parse back as its error.
pub fn try_find(haystack: &str, pattern: &str) -> (r: Result<bool, ParseError>)
    ensures
        match parse_pattern(pattern@) {
            Ok(re) => r == Ok::<bool, ParseError>(re.run(haystack@) is Some),
            Err(e) => r == Err::<bool, ParseError>(e),
        },
{
    match regex(pattern) {
        Ok(re) => Ok(re.exact(haystack).is_some()),
        Err(e) => Err(e),
    }
}

} // verus!
