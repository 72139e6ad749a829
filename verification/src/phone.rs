//! Phone numbers in a text.

use crate::engine::{cut_at, find_all, regex_accepts, regex_matches, successive_pieces};
use crate::tally::{
    first_seen, lemma_tally_of_nothing, lemma_total_is_length, tally_matches, tally_of, total,
    Tally,
};
use vstd::prelude::*;
use vstd::string::to_string_from_display_ensures;

verus! {

/// The shape of a phone number: an optional `(`, three digits, an optional
/// `)`, a space or a hyphen, three digits, a space or a hyphen, four digits.
/// The two parentheses are optional independently of each other.
pub const PHONE_PATTERN: &'static str = r"\(?\d{3}\)?[ -]\d{3}[ -]\d{4}";

/// The engine refused [`PHONE_PATTERN`].
#[derive(Debug)]
pub struct PatternError {
    /// The engine's own description of what is wrong.
    pub message: String,
}

/// The phone numbers of `text`, from left to right, none overlapping another.
pub open spec fn phone_matches(text: Seq<char>) -> Seq<Seq<char>> {
    regex_matches(PHONE_PATTERN@, text)
}

/// Whether `piece` stands somewhere in `text`.
pub open spec fn occurs_in(piece: Seq<char>, text: Seq<char>) -> bool {
    exists|from: int, to: int|
        0 <= from <= to <= text.len() && #[trigger] text.subrange(from, to) == piece
}

/// Whether `tally` is the tally of the phone numbers of `text`: it maps each
/// distinct match to the number of its occurrences and lists the matches in
/// the order in which they first occur.
pub open spec fn is_phone_tally(tally: Tally, text: Seq<char>) -> bool {
    &&& tally@ == tally_of(phone_matches(text))
    &&& tally.order() == first_seen(phone_matches(text))
}

/// Whether `found` is what a search of `text` returns: a tally exactly where
/// the engine accepts [`PHONE_PATTERN`], and then the tally of the phone
/// numbers of `text`.
pub open spec fn is_search_result(found: Result<Tally, PatternError>, text: Seq<char>) -> bool {
    &&& found is Ok <==> regex_accepts(PHONE_PATTERN@)
    &&& found matches Ok(tally) ==> is_phone_tally(tally, text)
}

/// Turns what the engine found into a tally, or its refusal of the pattern
/// into a [`PatternError`] with the engine's own words.
pub fn tally_found(found: Result<Vec<String>, regex::Error>) -> (out: Result<Tally, PatternError>)
    ensures
        match (found, out) {
            (Ok(matches), Ok(tally)) => {
                &&& tally@ == tally_of(matches.deep_view())
                &&& tally.order() == first_seen(matches.deep_view())
            },
            (Err(error), Err(refused)) => to_string_from_display_ensures::<regex::Error>(
                &error,
                refused.message,
            ),
            _ => false,
        },
{
    match found {
        Ok(matches) => Ok(tally_matches(&matches)),
        Err(error) => Err(PatternError { message: error.to_string() }),
    }
}

/// Finds the phone numbers in `content` and counts how often each distinct
/// one occurs.
///
/// A key of the result is the text of a match as it stands in `content`:
/// differently written numbers are different keys. The search succeeds on
/// every text where the engine accepts [`PHONE_PATTERN`], and fails on every
/// text where it refuses it: the text has no part in that.
pub fn find_phone_numbers(content: &str) -> (found: Result<Tally, PatternError>)
    ensures
        found is Ok <==> regex_accepts(PHONE_PATTERN@),
        is_search_result(found, content@),
        found matches Ok(tally) ==> {
            &&& is_phone_tally(tally, content@)
            &&& successive_pieces(phone_matches(content@), content@)
            &&& forall|key: Seq<char>| tally@.contains_key(key) ==> occurs_in(key, content@)
            &&& total(tally@) == phone_matches(content@).len()
            &&& phone_matches(content@).len() == 0 ==> tally@ == Map::<Seq<char>, nat>::empty()
        },
{
    let matches = find_all(PHONE_PATTERN, content);
    proof {
        if matches is Ok {
            lemma_pieces_occur(phone_matches(content@), content@);
            lemma_total_is_length(phone_matches(content@));
            if phone_matches(content@).len() == 0 {
                lemma_tally_of_nothing(phone_matches(content@));
            }
        }
    }
    tally_found(matches)
}

/// Each of several pieces cut out of a text stands in that text.
pub proof fn lemma_pieces_occur(pieces: Seq<Seq<char>>, text: Seq<char>)
    requires
        successive_pieces(pieces, text),
    ensures
        forall|key: Seq<char>| pieces.contains(key) ==> occurs_in(key, text),
{
    let cuts = choose|cuts: Seq<(int, int)>| cut_at(pieces, cuts, text);
    assert forall|key: Seq<char>| pieces.contains(key) implies occurs_in(key, text) by {
        let i = choose|i: int| 0 <= i < pieces.len() && pieces[i] == key;
        assert(text.subrange(cuts[i].0, cuts[i].1) == key);
    }
}

/// A text without phone numbers has the empty tally: where the engine
/// accepts the pattern, the search of such a text returns a tally, and that
/// tally has no entry.
pub proof fn lemma_no_match_no_entry(found: Result<Tally, PatternError>, text: Seq<char>)
    requires
        is_search_result(found, text),
        phone_matches(text).len() == 0,
    ensures
        found is Ok <==> regex_accepts(PHONE_PATTERN@),
        found matches Ok(tally) ==> {
            &&& tally@ == Map::<Seq<char>, nat>::empty()
            &&& tally.order().len() == 0
        },
{
    lemma_tally_of_nothing(phone_matches(text));
}

/// The counts of the tally of a text add up to the number of phone numbers
/// that the scan from left to right finds in it, and the search returns that
/// tally wherever the engine accepts the pattern.
pub proof fn lemma_counts_add_up(found: Result<Tally, PatternError>, text: Seq<char>)
    requires
        is_search_result(found, text),
    ensures
        found is Ok <==> regex_accepts(PHONE_PATTERN@),
        found matches Ok(tally) ==> total(tally@) == phone_matches(text).len(),
{
    lemma_total_is_length(phone_matches(text));
}

/// Scanning the same text again gives the same result: the second search
/// succeeds exactly if the first did, and the two tallies have the same
/// entries in the same order.
pub proof fn lemma_same_text_same_tally(
    first: Result<Tally, PatternError>,
    second: Result<Tally, PatternError>,
    text: Seq<char>,
)
    requires
        is_search_result(first, text),
        is_search_result(second, text),
    ensures
        first is Ok <==> second is Ok,
        first matches Ok(a) ==> (second matches Ok(b) ==> a@ == b@ && a.order() == b.order()),
{
}

/// Whether a search succeeds does not depend on the text: a search of one
/// text succeeds exactly if a search of any other does.
pub proof fn lemma_success_is_the_same_on_every_text(
    one: Result<Tally, PatternError>,
    text: Seq<char>,
    other: Result<Tally, PatternError>,
    other_text: Seq<char>,
)
    requires
        is_search_result(one, text),
        is_search_result(other, other_text),
    ensures
        one is Ok <==> other is Ok,
{
}

} // verus!
