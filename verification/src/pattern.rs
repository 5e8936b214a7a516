//! Regular-expression matching, done by the `regex` crate. The library states what it
//! does with the results; what the crate computes is named here and not restated.
use vstd::prelude::*;
use crate::text::{byte_len, is_boundary};

verus! {

/// Whether `Regex::new` accepts `pattern` (it refuses invalid syntax and regexes over its size limit).
pub uninterp spec fn regex_compiles(pattern: Seq<char>) -> bool;

/// What `Regex::replace_all` gives for `text` and `replacement` with the regex compiled from `pattern`.
pub uninterp spec fn regex_replace_all(
    pattern: Seq<char>,
    text: Seq<char>,
    replacement: Seq<char>,
) -> Seq<char>;

/// The byte ranges of the matches that `Regex::find_iter` yields on `text`, in order.
pub uninterp spec fn regex_find_all(pattern: Seq<char>, text: Seq<char>) -> Seq<(int, int)>;

/// The byte range of the match that `Regex::find` gives on `text`, if any.
pub uninterp spec fn regex_find_first(pattern: Seq<char>, text: Seq<char>) -> Option<(int, int)>;

/// What `Regex::is_match` answers for `text`.
pub uninterp spec fn regex_is_match(pattern: Seq<char>, text: Seq<char>) -> bool;

/// A match range as the regex crate documents it: `start <= end`, both within the text
/// and both on character boundaries.
pub open spec fn is_match_range(text: Seq<char>, m: (int, int)) -> bool {
    &&& 0 <= m.0 <= m.1 <= byte_len(text)
    &&& is_boundary(text, m.0)
    &&& is_boundary(text, m.1)
}

/// Successive, non-overlapping match ranges, as `find_iter` documents them.
pub open spec fn are_match_ranges(text: Seq<char>, ms: Seq<(int, int)>) -> bool {
    &&& forall|i: int| 0 <= i < ms.len() ==> is_match_range(text, #[trigger] ms[i])
    &&& forall|i: int, j: int| 0 <= i < j < ms.len() ==> #[trigger] ms[i].1 <= #[trigger] ms[j].0
}

pub open spec fn ranges_view(v: Seq<(usize, usize)>) -> Seq<(int, int)> {
    v.map_values(|m: (usize, usize)| (m.0 as int, m.1 as int))
}

/// Calls `Regex::new(pattern)` and, when it succeeds, `replace_all(text, replacement)`.
/// Claims: the result is present exactly when the pattern compiles, and is then the
/// named result of `replace_all`. Nothing else is said of the rewritten text.
#[verifier::external_body]
pub(crate) fn replace_all_matches(pattern: &str, text: &str, replacement: &str) -> (r: Option<
    String,
>)
    ensures
        r is Some <==> regex_compiles(pattern@),
        r matches Some(s) ==> s@ == regex_replace_all(pattern@, text@, replacement@),
{
    match regex::Regex::new(pattern) {
        Ok(re) => Some(re.replace_all(text, replacement).into_owned()),
        Err(_) => None,
    }
}

/// Calls `Regex::new(pattern)` and, when it succeeds, collects the byte ranges of
/// `find_iter(text)`. Claims: present exactly when the pattern compiles; the ranges are
/// the named ones, each with `start <= end` on character boundaries of `text`
/// (documented of `Match::start` and `Match::end`), successive and non-overlapping
/// (documented of `find_iter`).
#[verifier::external_body]
pub(crate) fn find_all_matches(pattern: &str, text: &str) -> (r: Option<Vec<(usize, usize)>>)
    ensures
        r is Some <==> regex_compiles(pattern@),
        r matches Some(v) ==> ranges_view(v@) == regex_find_all(pattern@, text@),
        r matches Some(v) ==> are_match_ranges(text@, ranges_view(v@)),
{
    match regex::Regex::new(pattern) {
        Ok(re) => {
            let mut ranges = Vec::new();
            for m in re.find_iter(text) {
                ranges.push((m.start(), m.end()));
            }
            Some(ranges)
        },
        Err(_) => None,
    }
}

/// Calls `Regex::new(pattern)` and, when it succeeds, `find(text)`, keeping the match's
/// byte range. Claims: present exactly when the pattern compiles; the inner value is
/// the named result, and a range found lies on character boundaries of `text` with
/// `start <= end` (documented of `Match`).
#[verifier::external_body]
pub(crate) fn find_first_match(pattern: &str, text: &str) -> (r: Option<Option<(usize, usize)>>)
    ensures
        r is Some <==> regex_compiles(pattern@),
        r matches Some(f) ==> (match f {
            Some(m) => regex_find_first(pattern@, text@) == Some((m.0 as int, m.1 as int)),
            None => regex_find_first(pattern@, text@) is None,
        }),
        r matches Some(Some(m)) ==> is_match_range(text@, (m.0 as int, m.1 as int)),
{
    match regex::Regex::new(pattern) {
        Ok(re) => match re.find(text) {
            Some(m) => Some(Some((m.start(), m.end()))),
            None => Some(None),
        },
        Err(_) => None,
    }
}

/// Calls `Regex::new(pattern)` and, when it succeeds, `is_match(text)`.
/// Claims: present exactly when the pattern compiles, and then the named answer.
#[verifier::external_body]
pub(crate) fn test_match(pattern: &str, text: &str) -> (r: Option<bool>)
    ensures
        r is Some <==> regex_compiles(pattern@),
        r matches Some(b) ==> b == regex_is_match(pattern@, text@),
{
    match regex::Regex::new(pattern) {
        Ok(re) => Some(re.is_match(text)),
        Err(_) => None,
    }
}

} // verus!
