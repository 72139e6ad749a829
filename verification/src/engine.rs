//! The regular-expression engine of the `regex` crate, as far as this library
//! uses it. Nothing in this file is proved: the contracts say what the crate
//! documents.

use vstd::prelude::*;

verus! {

/// `regex::Error`: why the engine refused a pattern.
#[verifier::external_type_specification]
#[verifier::external_body]
pub struct ExRegexError(regex::Error);

/// Whether `regex::Regex::new` compiles `pattern`, that is, returns `Ok`.
///
/// The engine refuses a pattern whose syntax is wrong, and one whose compiled
/// form is larger than its fixed size limit. That size is counted in bytes of
/// the engine's own data, so for a pattern close to the limit the answer
/// belongs to the build of this library for one target; it does not change
/// from one call or one run to the next.
pub uninterp spec fn regex_accepts(pattern: Seq<char>) -> bool;

/// The texts that `regex::Regex::find_iter` yields on `haystack` for the regex
/// that `regex::Regex::new` compiles from `pattern`: the successive
/// non-overlapping matches, from left to right, each as the piece of
/// `haystack` that matched.
pub uninterp spec fn regex_matches(pattern: Seq<char>, haystack: Seq<char>) -> Seq<Seq<char>>;

/// Whether `pieces` are what stands in `text` between the bounds in `cuts`,
/// one pair of bounds for each piece, every pair to the right of the one
/// before.
pub open spec fn cut_at(pieces: Seq<Seq<char>>, cuts: Seq<(int, int)>, text: Seq<char>) -> bool {
    &&& cuts.len() == pieces.len()
    &&& forall|i: int|
        0 <= i < cuts.len() ==> {
            &&& 0 <= (#[trigger] cuts[i]).0 <= cuts[i].1 <= text.len()
            &&& pieces[i] == text.subrange(cuts[i].0, cuts[i].1)
        }
    &&& forall|i: int, j: int|
        0 <= i < j < cuts.len() ==> (#[trigger] cuts[i]).1 <= (#[trigger] cuts[j]).0
}

/// Whether `pieces` can be cut out of `text` from left to right without
/// overlap.
pub open spec fn successive_pieces(pieces: Seq<Seq<char>>, text: Seq<char>) -> bool {
    exists|cuts: Seq<(int, int)>| #[trigger] cut_at(pieces, cuts, text)
}

/// Compiles `pattern` with `regex::Regex::new`, runs `regex::Regex::find_iter`
/// on `haystack` and hands out what `regex::Match::as_str` gives for each
/// match, in the order in which the iterator yields them.
///
/// Believed, not proved: whether the pattern compiles depends on the pattern
/// alone; where it compiles, the outcome depends on the pattern and the
/// haystack alone, and the matches are pieces of the haystack that follow
/// one another without overlap. Nothing is claimed about which patterns
/// compile.
#[verifier::external_body]
pub(crate) fn find_all(pattern: &str, haystack: &str) -> (found: Result<Vec<String>, regex::Error>)
    ensures
        found is Ok <==> regex_accepts(pattern@),
        found matches Ok(texts) ==> texts.deep_view() == regex_matches(pattern@, haystack@),
        found matches Ok(texts) ==> successive_pieces(texts.deep_view(), haystack@),
{
    match regex::Regex::new(pattern) {
        Ok(re) => Ok(re.find_iter(haystack).map(|m| m.as_str().to_string()).collect()),
        Err(e) => Err(e),
    }
}

} // verus!
