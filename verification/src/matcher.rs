//! The boundary to the scoring service and to the string operations of the
//! standard library that the engine relies on.

use fuzzy_matcher::skim::SkimMatcherV2;
use fuzzy_matcher::FuzzyMatcher;
use vstd::prelude::*;

verus! {

/// The score that the skim matcher, in its default configuration, gives to
/// `pattern` within `choice`; `None` where the pattern does not match.
pub uninterp spec fn skim_match(choice: Seq<char>, pattern: Seq<char>) -> Option<i64>;

/// The lower-case form of a text as `str::to_lowercase` computes it.
pub uninterp spec fn lowercase_of(text: Seq<char>) -> Seq<char>;

/// `str::to_lowercase`: returns the lower-case equivalent of the text as a
/// new string. The result depends on the text alone.
pub assume_specification[ str::to_lowercase ](text: &str) -> (lower: String)
    ensures
        lower@ == lowercase_of(text@),
;

/// `String::push`: appends one character to the end of the string.
pub assume_specification[ String::push ](text: &mut String, ch: char)
    ensures
        final(text)@ == old(text)@.push(ch),
;

/// `String::pop`: removes the last character and returns it, or returns
/// `None` and leaves the string alone if it is empty.
pub assume_specification[ String::pop ](text: &mut String) -> (last: Option<char>)
    ensures
        old(text)@.len() == 0 ==> last.is_none() && final(text)@ == old(text)@,
        old(text)@.len() > 0 ==> last == Some(old(text)@.last()) && final(text)@ == old(
            text,
        )@.drop_last(),
;

/// `String::push_str`: appends a string slice to the end of the string.
pub assume_specification[ String::push_str ](text: &mut String, tail: &str)
    ensures
        final(text)@ == old(text)@ + tail@,
;

/// `SkimMatcherV2::fuzzy_match` on a matcher made by `SkimMatcherV2::default`:
/// the score of `pattern` within `choice`, which the matcher computes from the
/// two texts alone.
#[verifier::external_body]
pub(crate) fn skim_score(choice: &str, pattern: &str) -> (score: Option<i64>)
    ensures
        score == skim_match(choice@, pattern@),
{
    SkimMatcherV2::default().fuzzy_match(choice, pattern)
}

/// The relevance of a candidate's display text for a prompt: the skim score
/// of the lower-cased prompt within the lower-cased text, zero where the
/// matcher reports no match.
pub open spec fn match_score(text: Seq<char>, prompt: Seq<char>) -> i64 {
    match skim_match(lowercase_of(text), lowercase_of(prompt)) {
        Some(score) => score,
        None => 0,
    }
}

/// Scores one display text against a prompt that is already in lower case.
pub fn score_text(text: &str, needle: &str) -> (score: i64)
    ensures
        score == match skim_match(lowercase_of(text@), needle@) {
            Some(s) => s,
            None => 0i64,
        },
{
    let lower = text.to_lowercase();
    match skim_score(lower.as_str(), needle) {
        Some(s) => s,
        None => 0,
    }
}

} // verus!
