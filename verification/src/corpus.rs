//! Both scans over a whole text, and the result.
use crate::counter::count_line;
use crate::model::{corpus_counted, corpus_selected, texts, word_counts};
use crate::report::{descending, lists, report, report_upto, sorted_entries};
use crate::selector::select_line;
use crate::table::FreqTable;
use crate::validity::Validity;
use vstd::prelude::*;

verus! {

/// The first scan of every line.
pub fn count_lines(
    table: &mut FreqTable,
    lines: &Vec<String>,
    validity: &Validity,
    word_length: u8,
)
    requires
        word_length >= 1,
    ensures
        final(table)@ == corpus_counted(
            old(table)@,
            texts(lines@),
            *validity,
            word_length as nat,
            lines@.len(),
        ),
{
    let mut k: usize = 0;
    while k < lines.len()
        invariant
            k <= lines.len(),
            word_length >= 1,
            table@ == corpus_counted(
                old(table)@,
                texts(lines@),
                *validity,
                word_length as nat,
                k as nat,
            ),
        decreases lines.len() - k,
    {
        assert(texts(lines@)[k as int] == lines@[k as int]@);
        count_line(table, lines[k].as_str(), validity, word_length);
        k += 1;
    }
}

/// The second scan of every line.
pub fn select_lines(
    words: &mut FreqTable,
    combinations: &FreqTable,
    lines: &Vec<String>,
    validity: &Validity,
    word_length: u8,
)
    requires
        word_length >= 1,
    ensures
        final(words)@ == corpus_selected(
            old(words)@,
            combinations@,
            texts(lines@),
            *validity,
            word_length as nat,
            lines@.len(),
        ),
{
    let mut k: usize = 0;
    while k < lines.len()
        invariant
            k <= lines.len(),
            word_length >= 1,
            words@ == corpus_selected(
                old(words)@,
                combinations@,
                texts(lines@),
                *validity,
                word_length as nat,
                k as nat,
            ),
        decreases lines.len() - k,
    {
        assert(texts(lines@)[k as int] == lines@[k as int]@);
        select_line(words, combinations, lines[k].as_str(), validity, word_length);
        k += 1;
    }
}

/// The words of a text with their counts: the first scan, the filter, the
/// second scan, the filter again.
pub fn word_frequencies(
    lines: &Vec<String>,
    validity: &Validity,
    word_length: u8,
    threshold: usize,
) -> (words: FreqTable)
    requires
        word_length >= 1,
    ensures
        words@ == word_counts(texts(lines@), *validity, word_length as nat, threshold),
{
    let mut combinations = FreqTable::new();
    count_lines(&mut combinations, lines, validity, word_length);
    combinations.retain_frequent(threshold);
    let mut words = FreqTable::new();
    select_lines(&mut words, &combinations, lines, validity, word_length);
    words.retain_frequent(threshold);
    words
}

/// The result for a text: its words, the highest count first, one line for
/// each.
pub fn run(lines: &Vec<String>, validity: &Validity, word_length: u8, threshold: usize) -> (text:
    String)
    requires
        word_length >= 1,
    ensures
        exists|entries: Seq<(String, usize)>|
            lists(entries, word_counts(texts(lines@), *validity, word_length as nat, threshold))
                && descending(entries) && #[trigger] report_upto(entries, entries.len())
                == text@,
{
    let words = word_frequencies(lines, validity, word_length, threshold);
    let entries = sorted_entries(words);
    let text = report(&entries);
    assert(report_upto(entries@, entries@.len()) == text@);
    text
}

} // verus!
