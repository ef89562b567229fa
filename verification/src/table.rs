//! The frequency table: a sharded hash map from words to counts.
use crate::model::{bump, count_sum, filtered, freq, keeps, merged, no_counts, raised, Counts};
use dashmap::DashMap;
use std::hash::RandomState;
use vstd::prelude::*;

verus! {

#[verifier::external_type_specification]
#[verifier::external_body]
#[verifier::reject_recursive_types(K)]
#[verifier::reject_recursive_types(V)]
#[verifier::reject_recursive_types(S)]
pub struct ExDashMap<K, V, S>(DashMap<K, V, S>);

/// The entries that a map of `dashmap` holds, each key by its characters.
pub uninterp spec fn dash_entries(m: DashMap<String, usize, RandomState>) -> Counts;

/// `DashMap::new`: the new map is empty.
#[verifier::external_body]
fn dash_new() -> (m: DashMap<String, usize, RandomState>)
    ensures
        dash_entries(m) == no_counts(),
{
    DashMap::new()
}

/// `DashMap::get`, with the value copied out of the guard: the value stored
/// under `key`, or `None` where the map has no such key.
#[verifier::external_body]
fn dash_get(m: &DashMap<String, usize, RandomState>, key: &str) -> (r: Option<usize>)
    ensures
        r == (if dash_entries(*m).contains_key(key@) {
            Some(dash_entries(*m)[key@])
        } else {
            None
        }),
{
    m.get(key).map(|entry| *entry)
}

/// `DashMap::insert`: afterwards `key` maps to `value`, and every other entry
/// is as it was.
#[verifier::external_body]
fn dash_insert(m: &mut DashMap<String, usize, RandomState>, key: String, value: usize)
    ensures
        dash_entries(*final(m)) == dash_entries(*old(m)).insert(key@, value),
{
    m.insert(key, value);
}

/// Whether an entry with this count stays when the table is filtered.
pub fn meets(count: usize, threshold: usize) -> (r: bool)
    ensures
        r == keeps(count, threshold),
{
    count >= threshold
}

/// `DashMap::retain`: the entries for which the closure answers `true` stay
/// unchanged, the others leave.
#[verifier::external_body]
fn dash_retain(m: &mut DashMap<String, usize, RandomState>, threshold: usize)
    ensures
        dash_entries(*final(m)) == filtered(dash_entries(*old(m)), threshold),
{
    m.retain(|_, count| meets(*count, threshold));
}

/// `DashMap::len`: the number of entries.
#[verifier::external_body]
fn dash_len(m: &DashMap<String, usize, RandomState>) -> (n: usize)
    ensures
        n == dash_entries(*m).dom().len(),
{
    m.len()
}

/// `DashMap::into_iter`, collected: each entry of the map once, in an order
/// that no caller can count on.
#[verifier::external_body]
fn dash_into_entries(m: DashMap<String, usize, RandomState>) -> (entries: Vec<(String, usize)>)
    ensures
        entries@.len() == dash_entries(m).dom().len(),
        forall|i: int|
            0 <= i < entries@.len() ==> dash_entries(m).contains_key((#[trigger] entries@[i]).0@)
                && dash_entries(m)[entries@[i].0@] == entries@[i].1,
        forall|w: Seq<char>|
            dash_entries(m).contains_key(w) ==> exists|i: int|
                0 <= i < entries@.len() && (#[trigger] entries@[i]).0@ == w,
        forall|i: int, j: int|
            0 <= i < j < entries@.len() ==> (#[trigger] entries@[i]).0@ != (
            #[trigger] entries@[j]).0@,
{
    m.into_iter().collect()
}

/// Whether one of the first `k` entries is that of `word`.
spec fn listed(entries: Seq<(String, usize)>, word: Seq<char>, k: nat) -> bool
    decreases k,
{
    k > 0 && (entries[k - 1].0@ == word || listed(entries, word, (k - 1) as nat))
}

/// The table between `start` and its merge with `other`: the first `k`
/// entries of `other` are taken in.
spec fn partly_merged(
    start: Counts,
    other: Counts,
    entries: Seq<(String, usize)>,
    k: nat,
) -> Counts {
    Map::new(
        |w: Seq<char>| start.contains_key(w) || listed(entries, w, k),
        |w: Seq<char>|
            if listed(entries, w, k) {
                count_sum(freq(start, w), other[w])
            } else {
                start[w]
            },
    )
}

proof fn lemma_listed_has_index(entries: Seq<(String, usize)>, word: Seq<char>, k: nat)
    requires
        k <= entries.len(),
    ensures
        listed(entries, word, k) <==> exists|j: int|
            0 <= j < k && (#[trigger] entries[j]).0@ == word,
    decreases k,
{
    if k > 0 {
        lemma_listed_has_index(entries, word, (k - 1) as nat);
        if entries[k - 1].0@ == word {
            assert(0 <= k - 1 < k && entries[k - 1].0@ == word);
        }
        if listed(entries, word, (k - 1) as nat) {
            let j = choose|j: int| 0 <= j < k - 1 && (#[trigger] entries[j]).0@ == word;
            assert(0 <= j < k && entries[j].0@ == word);
        }
    }
}

/// A table of word counts.
pub struct FreqTable {
    entries: DashMap<String, usize, RandomState>,
}

impl View for FreqTable {
    type V = Counts;

    closed spec fn view(&self) -> Counts {
        dash_entries(self.entries)
    }
}

impl FreqTable {
    /// An empty table.
    pub fn new() -> (t: FreqTable)
        ensures
            t@ == no_counts(),
    {
        FreqTable { entries: dash_new() }
    }

    /// The count of `word`, 0 where the table lacks it.
    pub fn get(&self, word: &str) -> (n: usize)
        ensures
            n == freq(self@, word@),
    {
        match dash_get(&self.entries, word) {
            Some(n) => n,
            None => 0,
        }
    }

    /// Whether the table has an entry for `word`.
    pub fn contains(&self, word: &str) -> (b: bool)
        ensures
            b == self@.contains_key(word@),
    {
        dash_get(&self.entries, word).is_some()
    }

    /// The number of entries.
    pub fn len(&self) -> (n: usize)
        ensures
            n == self@.dom().len(),
    {
        dash_len(&self.entries)
    }

    /// The entries, each once, in no promised order.
    pub fn into_entries(self) -> (entries: Vec<(String, usize)>)
        ensures
            entries@.len() == self@.dom().len(),
            forall|i: int|
                0 <= i < entries@.len() ==> self@.contains_key((#[trigger] entries@[i]).0@)
                    && self@[entries@[i].0@] == entries@[i].1,
            forall|w: Seq<char>|
                self@.contains_key(w) ==> exists|i: int|
                    0 <= i < entries@.len() && (#[trigger] entries@[i]).0@ == w,
            forall|i: int, j: int|
                0 <= i < j < entries@.len() ==> (#[trigger] entries@[i]).0@ != (
                #[trigger] entries@[j]).0@,
    {
        dash_into_entries(self.entries)
    }

    /// Counts `n` more occurrences of `word`.
    pub fn add(&mut self, word: String, n: usize)
        ensures
            final(self)@ == raised(old(self)@, word@, n),
    {
        let held: usize = self.get(word.as_str());
        let sum: usize = if held > usize::MAX - n {
            held - (usize::MAX - n) - 1
        } else {
            held + n
        };
        dash_insert(&mut self.entries, word, sum);
    }

    /// Takes in the counts of `other`: afterwards every word of either table
    /// has the sum of its two counts.
    pub fn absorb(&mut self, other: FreqTable)
        ensures
            final(self)@ == merged(old(self)@, other@),
    {
        let entries = other.into_entries();
        let ghost start = self@;
        let mut k: usize = 0;
        assert(self@ =~= partly_merged(start, other@, entries@, 0));
        while k < entries.len()
            invariant
                k <= entries.len(),
                forall|i: int|
                    0 <= i < entries@.len() ==> other@.contains_key((#[trigger] entries@[i]).0@)
                        && other@[entries@[i].0@] == entries@[i].1,
                forall|i: int, j: int|
                    0 <= i < j < entries@.len() ==> (#[trigger] entries@[i]).0@ != (
                    #[trigger] entries@[j]).0@,
                self@ == partly_merged(start, other@, entries@, k as nat),
            decreases entries.len() - k,
        {
            let word = entries[k].0.clone();
            let n: usize = entries[k].1;
            proof {
                assert(entries@[k as int].0@ == word@);
                assert(other@[word@] == n);
                lemma_listed_has_index(entries@, word@, k as nat);
                assert(!listed(entries@, word@, k as nat));
            }
            self.add(word, n);
            assert(self@ =~= partly_merged(start, other@, entries@, (k + 1) as nat));
            k += 1;
        }
        proof {
            assert forall|w: Seq<char>| other@.contains_key(w) <==> listed(
                entries@,
                w,
                entries@.len(),
            ) by {
                lemma_listed_has_index(entries@, w, entries@.len());
            }
            assert(self@ =~= merged(start, other@));
        }
    }

    /// Counts one more occurrence of `word`: its count goes up by one, and a
    /// word that the table lacks enters at 1.
    pub fn record(&mut self, word: String)
        ensures
            final(self)@ == bump(old(self)@, word@),
    {
        match dash_get(&self.entries, word.as_str()) {
            Some(n) => {
                let next: usize = if n == usize::MAX { 0 } else { n + 1 };
                dash_insert(&mut self.entries, word, next);
            },
            None => {
                dash_insert(&mut self.entries, word, 1);
            },
        }
    }

    /// Drops the entries whose count is below `threshold`; a threshold of 0
    /// leaves the table as it is.
    pub fn retain_frequent(&mut self, threshold: usize)
        ensures
            final(self)@ == filtered(old(self)@, threshold),
            threshold == 0 ==> final(self)@ == old(self)@,
    {
        if threshold > 0 {
            dash_retain(&mut self.entries, threshold);
        } else {
            assert(filtered(self@, threshold) =~= self@);
        }
    }
}

} // verus!
