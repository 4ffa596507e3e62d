//! Regular expressions.
use vstd::prelude::*;
use regex::RegexBuilder;
use crate::model;
use crate::text;

verus! {

/// Ranges of a text, each from the beginning of a character to one that is not
/// before it, in order and without an overlap.
pub open spec fn sliced(t: Seq<char>, r: Seq<(usize, usize)>) -> bool {
    &&& forall|i: int|
        0 <= i < r.len() ==> (#[trigger] r[i]).0 <= r[i].1 && text::begins_at(t, r[i].0 as int)
            && text::begins_at(t, r[i].1 as int)
    &&& forall|i: int, j: int|
        0 <= i < j < r.len() ==> (#[trigger] r[i]).1 <= (#[trigger] r[j]).0
}

/// Whether a pattern is a regular expression, or why it is none.
pub uninterp spec fn regex_built(pattern: Seq<char>, ignore_case: bool) -> Result<(), Seq<char>>;

/// Whether a pattern is found in a text.
pub uninterp spec fn regex_found(pattern: Seq<char>, ignore_case: bool, t: Seq<char>) -> bool;

/// Where a pattern is found in a text: the byte at which each match begins,
/// and the one after its end.
pub uninterp spec fn regex_ranges(
    pattern: Seq<char>,
    ignore_case: bool,
    t: Seq<char>,
) -> Seq<(usize, usize)>;

/// `RegexBuilder::build` with `case_insensitive`. Claims only that the outcome
/// is a function of the pattern and of whether case is ignored.
#[verifier::external_body]
pub(crate) fn build(pattern: &str, ignore_case: bool) -> (r: Result<(), String>)
    ensures
        model::outcome(r) == regex_built(pattern@, ignore_case),
{
    match RegexBuilder::new(pattern).case_insensitive(ignore_case).build() {
        Ok(_) => Ok(()),
        Err(e) => Err(e.to_string()),
    }
}

/// `Regex::is_match`; a pattern that is no regular expression is not found.
/// Claims only that the outcome is a function of the pattern, of whether case
/// is ignored, and of the text.
#[verifier::external_body]
pub(crate) fn is_match(pattern: &str, ignore_case: bool, t: &str) -> (r: bool)
    ensures
        r == regex_found(pattern@, ignore_case, t@),
{
    match RegexBuilder::new(pattern).case_insensitive(ignore_case).build() {
        Ok(regex) => regex.is_match(t),
        Err(_) => false,
    }
}

/// `Regex::find_iter`; a pattern that is no regular expression is found
/// nowhere. Claims that the ranges are a function of the pattern, of whether
/// case is ignored, and of the text, that they stand in order without an
/// overlap, and that each begins and ends where a character of the text
/// begins, or at its end.
#[verifier::external_body]
pub(crate) fn find_ranges(pattern: &str, ignore_case: bool, t: &str) -> (r: Vec<(usize, usize)>)
    ensures
        r@ == regex_ranges(pattern@, ignore_case, t@),
        sliced(t@, r@),
{
    match RegexBuilder::new(pattern).case_insensitive(ignore_case).build() {
        Ok(regex) => regex.find_iter(t).map(|m| (m.start(), m.end())).collect(),
        Err(_) => Vec::new(),
    }
}

} // verus!
