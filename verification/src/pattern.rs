//! Regular-expression matching, done by the `regex` crate.

use vstd::prelude::*;

verus! {

/// What `regex` captures when it searches `haystack` for `pattern`: nothing
/// when `pattern` is no valid expression or matches nowhere, else the text of
/// each capture group of the leftmost match, group 0 being the whole match and
/// a group that took no part being `None`.
pub uninterp spec fn pattern_captures(pattern: Seq<char>, haystack: Seq<char>) -> Option<
    Seq<Option<Seq<char>>>,
>;

/// Compiles `pattern` with `regex::Regex::new` and searches `haystack` with
/// `Regex::captures`. Claimed of them: the outcome is a function of the two
/// texts alone, which `pattern_captures` names.
#[verifier::external_body]
pub(crate) fn captures(pattern: &str, haystack: &str) -> (groups: Option<Vec<Option<String>>>)
    ensures
        groups.deep_view() == pattern_captures(pattern@, haystack@),
{
    let expression = regex::Regex::new(pattern).ok()?;
    let found = expression.captures(haystack)?;
    Some(found.iter().map(|group| group.map(|m| m.as_str().to_owned())).collect())
}

/// The text of capture group `index`; a group that does not exist or took no
/// part reads as the empty text.
pub open spec fn spec_group(groups: Seq<Option<Seq<char>>>, index: int) -> Seq<char> {
    if 0 <= index < groups.len() {
        match groups[index] {
            Some(text) => text,
            None => Seq::<char>::empty(),
        }
    } else {
        Seq::<char>::empty()
    }
}

/// The text of capture group `index`; a group that does not exist or took no
/// part reads as the empty text.
pub fn group(groups: &Vec<Option<String>>, index: usize) -> (text: &str)
    ensures
        text@ == spec_group(groups.deep_view(), index as int),
{
    proof {
        reveal_strlit("");
    }
    if index < groups.len() {
        match &groups[index] {
            Some(t) => t.as_str(),
            None => "",
        }
    } else {
        ""
    }
}

} // verus!
