//! Regular-expression matching, made by the `regex` crate.
use vstd::prelude::*;
use regex::Regex;
use crate::text::contains;

verus! {

/// Whether the regular expression `pattern` matches somewhere in `text`, or
/// `None` when `pattern` is not a valid regular expression.
pub uninterp spec fn regex_match(pattern: Seq<char>, text: Seq<char>) -> Option<bool>;

/// A pattern of ASCII letters and digits only, which matches itself.
pub open spec fn is_plain_pattern(pattern: Seq<char>) -> bool {
    forall|i: int|
        0 <= i < pattern.len() ==> {
            let c = #[trigger] pattern[i];
            ('a' <= c && c <= 'z') || ('A' <= c && c <= 'Z') || ('0' <= c && c <= '9')
        }
}

/// Decides whether `pattern` matches somewhere in `text` (`Regex::new`, then
/// `Regex::is_match`). The contract names the result, and states the regex
/// syntax rule that letters and digits match themselves: when such a pattern
/// compiles, it matches where it occurs as a substring. Whether it compiles
/// is not stated (a very long pattern exceeds the crate's size limit).
#[verifier::external_body]
pub(crate) fn regex_contains(pattern: &str, text: &str) -> (r: Option<bool>)
    ensures
        r == regex_match(pattern@, text@),
        is_plain_pattern(pattern@) ==> (r matches Some(b) ==> b == contains(text@, pattern@)),
{
    match Regex::new(pattern) {
        Ok(re) => Some(re.is_match(text)),
        Err(_) => None,
    }
}

} // verus!
