//! Regular expressions, as byte offsets into the text they were run on.

use vstd::prelude::*;

verus! {

/// A stretch of a text by the byte offsets of its start and end.
pub type ByteSpan = (usize, usize);

/// What `regex` finds of `pattern` in `text`: the offsets of each match in turn, or
/// nothing when the pattern cannot be compiled.
pub uninterp spec fn regex_matches(pattern: Seq<char>, ignore_case: bool, text: Seq<char>) -> Option<
    Seq<(usize, usize)>,
>;

/// Each match ends no earlier than it starts, and the next starts no earlier than
/// it ends.
pub open spec fn in_order(spans: Seq<ByteSpan>) -> bool {
    &&& forall|i: int| 0 <= i < spans.len() ==> (#[trigger] spans[i]).0 <= spans[i].1
    &&& forall|i: int, j: int|
        0 <= i < j < spans.len() ==> (#[trigger] spans[i]).1 <= (#[trigger] spans[j]).0
}

/// The contents of a list that may be missing.
pub open spec fn listed<T>(list: Option<Vec<T>>) -> Option<Seq<T>> {
    match list {
        Some(v) => Some(v@),
        None => None,
    }
}

/// `regex::RegexBuilder::new` with `case_insensitive`, then `Regex::find_iter`: the
/// byte offsets of the successive matches of `pattern` in `text`, `None` when the
/// pattern does not compile. The matches are named, and do not overlap.
#[verifier::external_body]
pub(crate) fn find_matches(pattern: &str, ignore_case: bool, text: &str) -> (r: Option<
    Vec<(usize, usize)>,
>)
    ensures
        listed(r) == regex_matches(pattern@, ignore_case, text@),
        r matches Some(v) ==> in_order(v@),
{
    let re = regex::RegexBuilder::new(pattern).case_insensitive(ignore_case).build().ok()?;
    Some(re.find_iter(text).map(|m| (m.start(), m.end())).collect())
}

/// What the groups of `pattern` capture at its first match in `text`: the offsets of
/// the whole match and of each group, or nothing when there is no match or the
/// pattern cannot be compiled.
pub uninterp spec fn regex_captures(pattern: Seq<char>, text: Seq<char>) -> Option<
    Seq<Option<(usize, usize)>>,
>;

/// `regex::Regex::captures`: the byte offsets of the first match of `pattern` in
/// `text` and of each of its groups, `None` when there is none or the pattern does
/// not compile. The offsets are named.
#[verifier::external_body]
pub(crate) fn first_captures(pattern: &str, text: &str) -> (r: Option<
    Vec<Option<(usize, usize)>>,
>)
    ensures
        listed(r) == regex_captures(pattern@, text@),
{
    let re = regex::Regex::new(pattern).ok()?;
    let captures = re.captures(text)?;
    Some(captures.iter().map(|g| g.map(|m| (m.start(), m.end()))).collect())
}

} // verus!
