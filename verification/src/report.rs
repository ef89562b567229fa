//! The result: the words and their counts, sorted and written out.
use crate::model::Counts;
use crate::order::sort_by_count;
use crate::table::FreqTable;
use vstd::prelude::*;

verus! {

/// The character of a decimal digit.
pub open spec fn digit(d: nat) -> char {
    if d == 0 {
        '0'
    } else if d == 1 {
        '1'
    } else if d == 2 {
        '2'
    } else if d == 3 {
        '3'
    } else if d == 4 {
        '4'
    } else if d == 5 {
        '5'
    } else if d == 6 {
        '6'
    } else if d == 7 {
        '7'
    } else if d == 8 {
        '8'
    } else {
        '9'
    }
}

/// A number in decimal digits, without leading zeros.
pub open spec fn decimal(n: nat) -> Seq<char>
    decreases n,
{
    if n < 10 {
        seq![digit(n)]
    } else {
        decimal(n / 10).push(digit(n % 10))
    }
}

/// The line of one entry: the word, a tab, the count.
pub open spec fn entry_line(entry: (String, usize)) -> Seq<char> {
    entry.0@ + seq!['\t'] + decimal(entry.1 as nat)
}

/// The lines of the first `k` entries, with a line feed between two lines.
pub open spec fn report_upto(entries: Seq<(String, usize)>, k: nat) -> Seq<char>
    decreases k,
{
    if k == 0 {
        Seq::empty()
    } else if k == 1 {
        entry_line(entries[0])
    } else {
        report_upto(entries, (k - 1) as nat) + seq!['\n'] + entry_line(entries[k - 1])
    }
}

/// Whether `entries` lists `table`: every entry stands in the table, and
/// every word of the table has its entry.
pub open spec fn lists(entries: Seq<(String, usize)>, table: Counts) -> bool {
    &&& forall|i: int|
        0 <= i < entries.len() ==> table.contains_key((#[trigger] entries[i]).0@)
            && table[entries[i].0@] == entries[i].1
    &&& forall|w: Seq<char>|
        table.contains_key(w) ==> exists|i: int|
            0 <= i < entries.len() && (#[trigger] entries[i]).0@ == w
}

/// Whether no entry stands before one with a higher count.
pub open spec fn descending(entries: Seq<(String, usize)>) -> bool {
    forall|i: int, j: int| 0 <= i < j < entries.len() ==> entries[i].1 >= entries[j].1
}

/// `format!` with a word, a tab and a count: the count comes out in decimal
/// digits.
#[verifier::external_body]
fn format_entry(word: &str, count: usize) -> (text: String)
    ensures
        text@ == word@ + seq!['\t'] + decimal(count as nat),
{
    format!("{word}\t{count}")
}

/// The entries of `table`, the highest count first; entries with one count
/// stand in no promised order.
pub fn sorted_entries(table: FreqTable) -> (entries: Vec<(String, usize)>)
    ensures
        lists(entries@, table@),
        descending(entries@),
        entries@.len() == table@.dom().len(),
{
    let mut entries = table.into_entries();
    let ghost before = entries@;
    sort_by_count(&mut entries);
    proof {
        before.to_multiset_ensures();
        entries@.to_multiset_ensures();
        assert forall|i: int| 0 <= i < entries@.len() implies table@.contains_key(
            (#[trigger] entries@[i]).0@,
        ) && table@[entries@[i].0@] == entries@[i].1 by {
            assert(entries@.contains(entries@[i]));
            assert(entries@.to_multiset().count(entries@[i]) > 0);
            assert(before.to_multiset().count(entries@[i]) > 0);
            assert(before.contains(entries@[i]));
        }
        assert forall|w: Seq<char>| table@.contains_key(w) implies exists|i: int|
            0 <= i < entries@.len() && (#[trigger] entries@[i]).0@ == w by {
            let j = choose|j: int| 0 <= j < before.len() && (#[trigger] before[j]).0@ == w;
            assert(before.contains(before[j]));
            assert(before.to_multiset().count(before[j]) > 0);
            assert(entries@.to_multiset().count(before[j]) > 0);
            assert(entries@.contains(before[j]));
        }
    }
    entries
}

/// The result as text: one line for each entry, the word, a tab and the
/// count, with a line feed between two lines.
pub fn report(entries: &Vec<(String, usize)>) -> (text: String)
    ensures
        text@ == report_upto(entries@, entries@.len()),
{
    let mut text = String::new();
    let mut k: usize = 0;
    while k < entries.len()
        invariant
            k <= entries.len(),
            text@ == report_upto(entries@, k as nat),
        decreases entries.len() - k,
    {
        if k > 0 {
            proof {
                reveal_strlit("\n");
            }
            text.append("\n");
            assert("\n"@ == seq!['\n']);
        }
        let line = format_entry(entries[k].0.as_str(), entries[k].1);
        text.append(line.as_str());
        assert(text@ == report_upto(entries@, (k + 1) as nat));
        k += 1;
    }
    text
}

} // verus!
