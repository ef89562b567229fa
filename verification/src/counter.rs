//! The first scan: every combination of a line is counted.
use crate::model::{
    all_valid, bump, counted_upto, is_combination, lemma_counted_skips, line_counted,
};
use crate::table::FreqTable;
use crate::text::{chars_of, text_of};
use crate::validity::Validity;
use crate::window::Window;
use vstd::prelude::*;

verus! {

/// Counts the combination of `line` that runs from `head` up to `tail`.
pub fn count_comb(table: &mut FreqTable, line: &[char], head: usize, tail: usize)
    requires
        head <= tail <= line@.len(),
    ensures
        final(table)@ == bump(old(table)@, line@.subrange(head as int, tail as int)),
{
    table.record(text_of(line, head, tail));
}

/// Counts every combination of `line` once: each run of `word_length`
/// characters that all count.
pub fn count_line(table: &mut FreqTable, line: &str, validity: &Validity, word_length: u8)
    requires
        word_length >= 1,
    ensures
        final(table)@ == line_counted(old(table)@, line@, *validity, word_length as nat),
{
    let chars = chars_of(line);
    let length: usize = word_length as usize;
    let n: usize = chars.len();
    let mut heads = Window::empty_at(0);
    let mut tail: usize = 0;
    while tail < n
        invariant
            n == chars@.len(),
            chars@ == line@,
            length == word_length,
            length >= 1,
            heads.wf(),
            heads.end() == tail,
            tail <= n,
            heads.count() <= length,
            all_valid(chars@, *validity, heads.first() as int, tail as int),
            table@ == counted_upto(
                old(table)@,
                chars@,
                *validity,
                length as nat,
                heads.first(),
            ),
        decreases n - tail,
    {
        if heads.len() == length {
            let head = heads.pop_front(1);
            assert(is_combination(chars@, *validity, length as nat, head as int));
            count_comb(table, chars.as_slice(), head, tail);
        }
        if validity.is_valid(chars[tail]) {
            heads.push_back();
        } else {
            proof {
                assert forall|i: int| heads.first() <= i < tail + 1 implies !is_combination(
                    chars@,
                    *validity,
                    length as nat,
                    i,
                ) by {
                    if is_combination(chars@, *validity, length as nat, i) {
                        assert(validity.accepts(chars@[tail as int]));
                    }
                }
                lemma_counted_skips(
                    old(table)@,
                    chars@,
                    *validity,
                    length as nat,
                    heads.first(),
                    (tail + 1) as nat,
                );
            }
            heads = Window::empty_at(tail + 1);
        }
        tail += 1;
    }
    if heads.len() == length {
        let head = heads.pop_front(1);
        assert(is_combination(chars@, *validity, length as nat, head as int));
        count_comb(table, chars.as_slice(), head, tail);
    }
    proof {
        lemma_counted_skips(
            old(table)@,
            chars@,
            *validity,
            length as nat,
            heads.first(),
            n as nat,
        );
    }
}

} // verus!
