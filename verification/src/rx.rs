//! The trusted boundary to the `regex` crate.
//!
//! Each wrapper compiles the pattern and performs one search.  What a search
//! returns is a function of the pattern and the haystack alone, so each
//! result is given a name (an uninterpreted spec function); the wrappers'
//! contracts state only what the crate's documentation promises: the returned
//! pieces are cut at a match boundary, so they concatenate back to the
//! haystack.

use vstd::prelude::*;

verus! {

/// Whether `regex::Regex::new` accepts the pattern.
pub uninterp spec fn rx_ok(p: Seq<char>) -> bool;

/// The two pieces of a text cut at the end of the first match of a pattern:
/// the piece up to and including the match, and the piece after it.  `None`
/// when the pattern does not compile or nothing matches.
pub uninterp spec fn rx_cut_first(p: Seq<char>, t: Seq<char>) -> Option<(Seq<char>, Seq<char>)>;

/// The two pieces of a text cut at the start of the last match of a pattern:
/// the piece before the match, and the piece from the match on.  `None` when
/// the pattern does not compile or nothing matches.
pub uninterp spec fn rx_cut_last(p: Seq<char>, t: Seq<char>) -> Option<(Seq<char>, Seq<char>)>;

/// The first match of a pattern in a text, as the piece before the match,
/// the matched piece, the piece after it, and the capture groups of the
/// match (group 0 is the whole match; a group that did not participate is
/// `None`).  `None` when the pattern does not compile or nothing matches.
pub uninterp spec fn rx_first_caps(p: Seq<char>, t: Seq<char>) -> Option<
    (Seq<char>, Seq<char>, Seq<char>, Seq<Option<Seq<char>>>),
>;

/// Relies on `regex::Regex::new`: whether a pattern compiles depends on the
/// pattern text alone.
#[verifier::external_body]
pub(crate) fn regex_compiles(pattern: &str) -> (r: bool)
    ensures
        r == rx_ok(pattern@),
{
    regex::Regex::new(pattern).is_ok()
}

/// Relies on `regex::Regex::new` and `regex::Regex::find`: the first match
/// lies at byte offsets within the haystack, so cutting the haystack at the
/// match's end yields two pieces that concatenate back to the haystack.
#[verifier::external_body]
pub(crate) fn regex_cut_first(pattern: &str, text: &str) -> (r: Option<(Vec<char>, Vec<char>)>)
    ensures
        match r {
            Some(cut) => rx_cut_first(pattern@, text@) == Some((cut.0@, cut.1@)) && text@ == cut.0@
                + cut.1@,
            None => rx_cut_first(pattern@, text@) is None,
        },
{
    let re = regex::Regex::new(pattern).ok()?;
    let m = re.find(text)?;
    let left: Vec<char> = text[..m.end()].chars().collect();
    let right: Vec<char> = text[m.end()..].chars().collect();
    Some((left, right))
}

/// Relies on `regex::Regex::new` and `regex::Regex::find_iter`: the last of
/// the successive non-overlapping matches lies at byte offsets within the
/// haystack, so cutting the haystack at that match's start yields two pieces
/// that concatenate back to the haystack.
#[verifier::external_body]
pub(crate) fn regex_cut_last(pattern: &str, text: &str) -> (r: Option<(Vec<char>, Vec<char>)>)
    ensures
        match r {
            Some(cut) => rx_cut_last(pattern@, text@) == Some((cut.0@, cut.1@)) && text@ == cut.0@
                + cut.1@,
            None => rx_cut_last(pattern@, text@) is None,
        },
{
    let re = regex::Regex::new(pattern).ok()?;
    let m = re.find_iter(text).last()?;
    let left: Vec<char> = text[..m.start()].chars().collect();
    let right: Vec<char> = text[m.start()..].chars().collect();
    Some((left, right))
}

/// Relies on `regex::Regex::new`, `regex::Regex::captures` and
/// `regex::Captures::iter`: the first match's span partitions the haystack
/// into the piece before it, the matched piece and the piece after it, and
/// the iterator yields every capture group of that match in order, group 0
/// first, with `None` for a group that did not participate.
#[verifier::external_body]
pub(crate) fn regex_first_caps(pattern: &str, text: &str) -> (r: Option<
    (Vec<char>, Vec<char>, Vec<char>, Vec<Option<Vec<char>>>),
>)
    ensures
        match r {
            Some(c) => rx_first_caps(pattern@, text@) == Some((c.0@, c.1@, c.2@, c.3.deep_view()))
                && text@ == c.0@ + c.1@ + c.2@,
            None => rx_first_caps(pattern@, text@) is None,
        },
{
    let re = regex::Regex::new(pattern).ok()?;
    let caps = re.captures(text)?;
    let m = caps.get(0).unwrap();
    let pre: Vec<char> = text[..m.start()].chars().collect();
    let mat: Vec<char> = m.as_str().chars().collect();
    let post: Vec<char> = text[m.end()..].chars().collect();
    let groups: Vec<Option<Vec<char>>> = caps.iter().map(
        |g| g.map(|gm| gm.as_str().chars().collect()),
    ).collect();
    Some((pre, mat, post, groups))
}

} // verus!
