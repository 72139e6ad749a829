//! Counting how often each text occurs in a sequence of texts.

use vstd::hash_map::StringHashMap;
use vstd::prelude::*;

verus! {

/// The number of positions of `items` that hold `key`.
pub open spec fn occurrences(items: Seq<Seq<char>>, key: Seq<char>) -> nat
    decreases items.len(),
{
    if items.len() == 0 {
        0
    } else if items.last() == key {
        occurrences(items.drop_last(), key) + 1
    } else {
        occurrences(items.drop_last(), key)
    }
}

/// The texts of `items` without repetitions, each at the place of its first
/// occurrence.
pub open spec fn first_seen(items: Seq<Seq<char>>) -> Seq<Seq<char>>
    decreases items.len(),
{
    if items.len() == 0 {
        Seq::empty()
    } else if items.drop_last().contains(items.last()) {
        first_seen(items.drop_last())
    } else {
        first_seen(items.drop_last()).push(items.last())
    }
}

/// The mapping from each text that occurs in `items` to the number of its
/// occurrences.
pub open spec fn tally_of(items: Seq<Seq<char>>) -> Map<Seq<char>, nat> {
    Map::new(|key: Seq<char>| items.contains(key), |key: Seq<char>| occurrences(items, key))
}

/// The sum of all counts of a finite mapping.
pub open spec fn total(counts: Map<Seq<char>, nat>) -> nat
    decreases counts.dom().len(),
    when counts.dom().finite()
{
    if counts.dom().len() == 0 {
        0
    } else {
        let key = counts.dom().choose();
        counts[key] + total(counts.remove(key))
    }
}

/// Membership in a sequence that got one more item.
pub proof fn lemma_contains_push(items: Seq<Seq<char>>, item: Seq<char>, key: Seq<char>)
    ensures
        items.push(item).contains(key) <==> (key == item || items.contains(key)),
{
    let longer = items.push(item);
    if key == item {
        assert(longer[items.len() as int] == key);
    } else if items.contains(key) {
        let i = choose|i: int| 0 <= i < items.len() && items[i] == key;
        assert(longer[i] == key);
    } else if longer.contains(key) {
        let i = choose|i: int| 0 <= i < longer.len() && longer[i] == key;
        assert(items[i] == key);
    }
}

/// A text is counted at least once exactly when it occurs, and never more
/// often than there are items.
pub proof fn lemma_occurrences_bounds(items: Seq<Seq<char>>, key: Seq<char>)
    ensures
        occurrences(items, key) <= items.len(),
        items.contains(key) <==> occurrences(items, key) > 0,
    decreases items.len(),
{
    if items.len() > 0 {
        let front = items.drop_last();
        lemma_occurrences_bounds(front, key);
        if items.last() == key {
            assert(items[items.len() - 1] == key);
        } else if items.contains(key) {
            let i = choose|i: int| 0 <= i < items.len() && items[i] == key;
            assert(front[i] == key);
        } else if front.contains(key) {
            let i = choose|i: int| 0 <= i < front.len() && front[i] == key;
            assert(items[i] == key);
        }
    }
}

/// What one more item does to the counts: the count of the new item goes up
/// by one, all other counts stay.
pub proof fn lemma_tally_of_push(items: Seq<Seq<char>>, item: Seq<char>)
    ensures
        tally_of(items.push(item)) == tally_of(items).insert(item, occurrences(items, item) + 1),
{
    let longer = items.push(item);
    assert(longer.drop_last() == items);
    assert forall|key: Seq<char>| longer.contains(key) <==> (key == item || items.contains(
        key,
    )) by {
        lemma_contains_push(items, item, key);
    }
    assert(tally_of(longer) =~= tally_of(items).insert(item, occurrences(items, item) + 1));
}

/// The sum of all counts is the count of any one key plus the sum of the
/// others.
pub proof fn lemma_total_remove(counts: Map<Seq<char>, nat>, key: Seq<char>)
    requires
        counts.dom().finite(),
        counts.contains_key(key),
    ensures
        total(counts) == counts[key] + total(counts.remove(key)),
    decreases counts.dom().len(),
{
    let chosen = counts.dom().choose();
    if chosen != key {
        lemma_total_remove(counts.remove(chosen), key);
        lemma_total_remove(counts.remove(key), chosen);
        assert(counts.remove(chosen).remove(key) == counts.remove(key).remove(chosen));
    }
}

/// Setting the count of one key changes the sum by the difference.
pub proof fn lemma_total_insert(counts: Map<Seq<char>, nat>, key: Seq<char>, count: nat)
    requires
        counts.dom().finite(),
    ensures
        total(counts.insert(key, count)) == count + total(counts.remove(key)),
{
    lemma_total_remove(counts.insert(key, count), key);
    assert(counts.insert(key, count).remove(key) == counts.remove(key));
}

/// The texts that occur in a sequence are finitely many.
pub proof fn lemma_tally_of_finite(items: Seq<Seq<char>>)
    ensures
        tally_of(items).dom().finite(),
    decreases items.len(),
{
    if items.len() == 0 {
        assert(tally_of(items).dom() =~= Set::empty());
    } else {
        lemma_tally_of_finite(items.drop_last());
        lemma_tally_of_push(items.drop_last(), items.last());
        assert(items.drop_last().push(items.last()) == items);
    }
}

/// A sequence without items has an empty tally.
pub proof fn lemma_tally_of_nothing(items: Seq<Seq<char>>)
    requires
        items.len() == 0,
    ensures
        tally_of(items) == Map::<Seq<char>, nat>::empty(),
{
    assert(tally_of(items) =~= Map::<Seq<char>, nat>::empty());
}

/// Every item is counted exactly once: the counts of a tally add up to the
/// number of items.
pub proof fn lemma_total_is_length(items: Seq<Seq<char>>)
    ensures
        total(tally_of(items)) == items.len(),
    decreases items.len(),
{
    if items.len() == 0 {
        lemma_tally_of_nothing(items);
    } else {
        let front = items.drop_last();
        let item = items.last();
        assert(front.push(item) == items);
        lemma_total_is_length(front);
        lemma_tally_of_finite(front);
        lemma_tally_of_push(front, item);
        lemma_total_insert(tally_of(front), item, occurrences(front, item) + 1);
        lemma_occurrences_bounds(front, item);
        if front.contains(item) {
            lemma_total_remove(tally_of(front), item);
        } else {
            assert(tally_of(front).remove(item) == tally_of(front));
        }
    }
}

/// The first-seen sequence holds exactly the texts that occur, each once.
pub proof fn lemma_first_seen_distinct(items: Seq<Seq<char>>)
    ensures
        first_seen(items).no_duplicates(),
        forall|key: Seq<char>| first_seen(items).contains(key) <==> items.contains(key),
    decreases items.len(),
{
    if items.len() > 0 {
        let front = items.drop_last();
        let item = items.last();
        lemma_first_seen_distinct(front);
        assert(front.push(item) == items);
        assert forall|key: Seq<char>| first_seen(items).contains(key) <==> items.contains(
            key,
        ) by {
            lemma_contains_push(front, item, key);
            lemma_contains_push(first_seen(front), item, key);
        }
    }
}

/// A tally: distinct texts, each with the number of times it was counted.
///
/// Its view is the mapping from text to count. The texts are also kept in the
/// order in which they were first counted, see [`Tally::order`].
pub struct Tally {
    keys: Vec<String>,
    counts: StringHashMap<usize>,
}

impl View for Tally {
    type V = Map<Seq<char>, nat>;

    closed spec fn view(&self) -> Map<Seq<char>, nat> {
        Map::new(
            |key: Seq<char>| self.counts@.contains_key(key),
            |key: Seq<char>| self.counts@[key] as nat,
        )
    }
}

impl Tally {
    /// The listed texts are distinct, they are the keys of the counts, and no
    /// count is zero.
    #[verifier::type_invariant]
    closed spec fn well_formed(&self) -> bool {
        &&& self.keys.deep_view().no_duplicates()
        &&& forall|key: Seq<char>|
            self.counts@.contains_key(key) <==> self.keys.deep_view().contains(key)
        &&& forall|key: Seq<char>| self.counts@.contains_key(key) ==> self.counts@[key] >= 1
    }

    /// The counted texts in the order in which they were first counted.
    pub closed spec fn order(&self) -> Seq<Seq<char>> {
        self.keys.deep_view()
    }

    /// The count of `text`, or `None` where it was never counted.
    pub fn get(&self, text: &str) -> (count: Option<usize>)
        ensures
            match count {
                Some(c) => self@.contains_key(text@) && c == self@[text@] && c >= 1,
                None => !self@.contains_key(text@),
            },
    {
        proof {
            use_type_invariant(self);
        }
        match self.counts.get(text) {
            Some(c) => Some(*c),
            None => None,
        }
    }

    /// The number of distinct texts that were counted.
    pub fn len(&self) -> (n: usize)
        ensures
            n == self@.dom().len(),
            n == self.order().len(),
    {
        proof {
            use_type_invariant(self);
            self.lemma_order_lists_keys();
        }
        self.keys.len()
    }

    /// Whether nothing was counted.
    pub fn is_empty(&self) -> (empty: bool)
        ensures
            empty == (self@ == Map::<Seq<char>, nat>::empty()),
            empty == (self.order().len() == 0),
    {
        proof {
            use_type_invariant(self);
            self.lemma_order_lists_keys();
            if self.order().len() == 0 {
                assert(self@ =~= Map::<Seq<char>, nat>::empty());
            } else {
                assert(self.order().contains(self.order()[0]));
                assert(self@.contains_key(self.order()[0]));
            }
        }
        self.keys.len() == 0
    }

    /// Every counted text with its count, in the order in which the texts
    /// were first counted.
    pub fn entries(&self) -> (out: Vec<(String, usize)>)
        ensures
            out.len() == self.order().len(),
            forall|i: int|
                0 <= i < out.len() ==> {
                    &&& (#[trigger] out[i]).0@ == self.order()[i]
                    &&& self@.contains_key(out[i].0@)
                    &&& out[i].1 == self@[out[i].0@]
                },
            self.order().no_duplicates(),
            forall|key: Seq<char>| self@.contains_key(key) <==> self.order().contains(key),
    {
        proof {
            use_type_invariant(self);
            self.lemma_order_lists_keys();
        }
        let mut out: Vec<(String, usize)> = Vec::new();
        let mut at: usize = 0;
        while at < self.keys.len()
            invariant
                at <= self.keys.len(),
                out.len() == at,
                self.well_formed(),
                forall|i: int|
                    0 <= i < at ==> {
                        &&& (#[trigger] out[i]).0@ == self.order()[i]
                        &&& self@.contains_key(out[i].0@)
                        &&& out[i].1 == self@[out[i].0@]
                    },
            decreases self.keys.len() - at,
        {
            let key: &String = &self.keys[at];
            assert(self.keys.deep_view()[at as int] == key@);
            assert(self.keys.deep_view().contains(key@));
            let count: usize = match self.counts.get(key.as_str()) {
                Some(c) => *c,
                None => 0,
            };
            out.push((key.clone(), count));
            at = at + 1;
        }
        out
    }

    /// The texts of [`Tally::order`] are distinct and are exactly the keys of
    /// the mapping.
    proof fn lemma_order_lists_keys(&self)
        requires
            self.well_formed(),
        ensures
            self.order().no_duplicates(),
            forall|key: Seq<char>| self@.contains_key(key) <==> self.order().contains(key),
            self@.dom().finite(),
            self@.dom().len() == self.order().len(),
    {
        let listed = self.order();
        assert(self@.dom() =~= listed.to_set());
        listed.unique_seq_to_set();
    }
}

/// Counts how often each text occurs in `matches`.
///
/// The result maps every text of `matches` to the number of its occurrences
/// and lists the texts in the order of their first occurrence.
pub fn tally_matches(matches: &[String]) -> (tally: Tally)
    ensures
        tally@ == tally_of(matches.deep_view()),
        tally.order() == first_seen(matches.deep_view()),
        total(tally@) == matches.len(),
        matches.len() == 0 ==> tally@ == Map::<Seq<char>, nat>::empty(),
{
    let ghost items = matches.deep_view();
    let mut keys: Vec<String> = Vec::new();
    let mut counts: StringHashMap<usize> = StringHashMap::new();
    let mut done: usize = 0;
    proof {
        assert(items.take(0) == Seq::<Seq<char>>::empty());
        assert(keys.deep_view() == Seq::<Seq<char>>::empty());
    }
    while done < matches.len()
        invariant
            done <= matches.len(),
            items == matches.deep_view(),
            keys.deep_view() == first_seen(items.take(done as int)),
            forall|key: Seq<char>|
                counts@.contains_key(key) <==> items.take(done as int).contains(key),
            forall|key: Seq<char>|
                counts@.contains_key(key) ==> counts@[key] == occurrences(
                    items.take(done as int),
                    key,
                ),
        decreases matches.len() - done,
    {
        let text: &String = &matches[done];
        let ghost before = items.take(done as int);
        let seen: usize = match counts.get(text.as_str()) {
            Some(c) => *c,
            None => 0,
        };
        proof {
            assert(items[done as int] == text@);
            assert(items.take(done + 1) == before.push(text@));
            assert(before.push(text@).drop_last() == before);
            lemma_occurrences_bounds(before, text@);
            assert(seen == occurrences(before, text@));
            assert forall|key: Seq<char>|
                before.push(text@).contains(key) <==> (key == text@ || before.contains(
                    key,
                )) by {
                lemma_contains_push(before, text@, key);
            }
        }
        if seen == 0 {
            let ghost listed = keys.deep_view();
            keys.push(text.clone());
            assert(keys.deep_view() == listed.push(text@));
        }
        counts.insert(text.clone(), seen + 1);
        done = done + 1;
    }
    proof {
        assert(items.take(done as int) == items);
        lemma_first_seen_distinct(items);
        lemma_total_is_length(items);
        if matches.len() == 0 {
            lemma_tally_of_nothing(items);
        }
        assert forall|key: Seq<char>| counts@.contains_key(key) implies counts@[key] >= 1 by {
            lemma_occurrences_bounds(items, key);
        }
    }
    let tally = Tally { keys, counts };
    assert(tally@ =~= tally_of(items));
    tally
}

} // verus!
