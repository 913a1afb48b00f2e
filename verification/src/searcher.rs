//! Search for a regular expression in a run of bytes.
//!
//! The expression is compiled and run by the `grep` crate. What it finds is
//! taken on trust; what is made of it is verified.

use vstd::prelude::*;
use crate::error::PagerError;

verus! {

/// One place where the pattern matches.
#[derive(Debug, Clone, Copy, PartialEq, Eq, Structural)]
pub struct SearchMatch {
    /// The offset of the first byte of the match.
    pub offset: u64,
    /// The number of bytes of the match.
    pub length: u64,
}

/// The error with which `grep::regex::RegexMatcher::new` turns a pattern
/// down.
#[verifier::external_type_specification]
#[verifier::external_body]
pub struct ExRegexError(grep::regex::Error);

/// What the regular expression `pattern` matches in `haystack`: the first
/// and the last offset, the last exclusive, of each match, in the order in
/// which the matcher reports them; or `None` where `pattern` is no regular
/// expression.
pub uninterp spec fn regex_matches(pattern: Seq<char>, haystack: Seq<u8>) -> Option<
    Seq<(usize, usize)>,
>;

/// Whether each of `found` is a range of `len` bytes, and each begins where
/// the one before it has ended, or later.
pub open spec fn successive(found: Seq<(usize, usize)>, len: nat) -> bool {
    &&& forall|i: int| 0 <= i < found.len() ==> (#[trigger] found[i]).0 <= found[i].1 <= len
    &&& forall|i: int, j: int|
        0 <= i < j < found.len() ==> (#[trigger] found[i]).1 <= (#[trigger] found[j]).0
}

/// The matches that the ranges `found` stand for.
pub open spec fn search_matches_of(found: Seq<(usize, usize)>) -> Seq<SearchMatch> {
    Seq::new(
        found.len(),
        |i: int|
            SearchMatch {
                offset: found[i].0 as u64,
                length: (found[i].1 - found[i].0) as u64,
            },
    )
}

/// Whether the matches lie within `len` bytes, in ascending order and
/// without overlap.
pub open spec fn ascending(matches: Seq<SearchMatch>, len: nat) -> bool {
    &&& forall|i: int|
        0 <= i < matches.len() ==> (#[trigger] matches[i]).offset + matches[i].length <= len
    &&& forall|i: int, j: int|
        0 <= i < j < matches.len() ==> (#[trigger] matches[i]).offset + matches[i].length <= (
        #[trigger] matches[j]).offset
}

/// What a search for `pattern` in `haystack` returns.
pub open spec fn search_outcome(pattern: Seq<char>, haystack: Seq<u8>) -> Result<
    Seq<SearchMatch>,
    PagerError,
> {
    match regex_matches(pattern, haystack) {
        Some(found) => Ok(search_matches_of(found)),
        None => Err(PagerError::InvalidPattern),
    }
}

/// Compiles `pattern` with `grep::regex::RegexMatcher::new` and collects
/// what `grep::matcher::Matcher::find_iter` reports for `haystack`.
///
/// Taken on trust: the result depends on the pattern and the haystack alone;
/// the matcher reports ranges of the haystack, each beginning at or behind the
/// end of the one before.
#[verifier::external_body]
fn find_matches(pattern: &str, haystack: &[u8]) -> (r: Result<
    Vec<(usize, usize)>,
    grep::regex::Error,
>)
    ensures
        match r {
            Ok(found) => {
                &&& regex_matches(pattern@, haystack@) == Some(found@)
                &&& successive(found@, haystack@.len())
            },
            Err(_) => regex_matches(pattern@, haystack@) is None,
        },
{
    let matcher = grep::regex::RegexMatcher::new(pattern)?;
    let mut found: Vec<(usize, usize)> = Vec::new();
    let _ = grep::matcher::Matcher::find_iter(
        &matcher,
        haystack,
        |m| {
            found.push((m.start(), m.end()));
            true
        },
    );
    Ok(found)
}

/// Turns ranges into matches: the start of each and its length.
pub fn collect_matches(found: &Vec<(usize, usize)>) -> (matches: Vec<SearchMatch>)
    requires
        forall|i: int| 0 <= i < found@.len() ==> (#[trigger] found@[i]).0 <= found@[i].1,
    ensures
        matches@ == search_matches_of(found@),
{
    let mut matches: Vec<SearchMatch> = Vec::new();
    let mut i: usize = 0;
    while i < found.len()
        invariant
            i <= found@.len(),
            forall|k: int| 0 <= k < found@.len() ==> (#[trigger] found@[k]).0 <= found@[k].1,
            matches@.len() == i,
            forall|k: int| 0 <= k < i ==> #[trigger] matches@[k] == search_matches_of(found@)[k],
        decreases found@.len() - i,
    {
        let (start, end) = found[i];
        matches.push(SearchMatch { offset: start as u64, length: (end - start) as u64 });
        i += 1;
    }
    assert(matches@ =~= search_matches_of(found@));
    matches
}

/// Ranges that follow one another give matches in ascending order.
pub proof fn lemma_successive_is_ascending(found: Seq<(usize, usize)>, len: nat)
    requires
        successive(found, len),
    ensures
        ascending(search_matches_of(found), len),
{
    let matches = search_matches_of(found);
    assert forall|i: int| 0 <= i < matches.len() implies (#[trigger] matches[i]).offset
        + matches[i].length <= len by {
        assert(found[i].0 <= found[i].1);
    }
    assert forall|i: int, j: int| 0 <= i < j < matches.len() implies (#[trigger] matches[i]).offset
        + matches[i].length <= (#[trigger] matches[j]).offset by {
        assert(found[i].0 <= found[i].1);
        assert(found[i].1 <= found[j].0);
    }
}

/// Searches `haystack` for the regular expression `pattern` and returns the
/// matches in the order of their offsets.
pub fn search_bytes(pattern: &str, haystack: &[u8]) -> (r: Result<Vec<SearchMatch>, PagerError>)
    ensures
        match r {
            Ok(matches) => {
                &&& search_outcome(pattern@, haystack@) == Ok::<Seq<SearchMatch>, PagerError>(
                    matches@,
                )
                &&& ascending(matches@, haystack@.len())
            },
            Err(e) => search_outcome(pattern@, haystack@) == Err::<Seq<SearchMatch>, PagerError>(e),
        },
{
    match find_matches(pattern, haystack) {
        Ok(found) => {
            proof {
                lemma_successive_is_ascending(found@, haystack@.len());
            }
            Ok(collect_matches(&found))
        },
        Err(_) => Err(PagerError::InvalidPattern),
    }
}

} // verus!
