//! The second scan: span by span, the most frequent combination is counted
//! as a word.
use crate::model::{
    best_start, candidate_freq, evaluated, line_selected, selected_from,
};
use crate::table::FreqTable;
use crate::text::{chars_of, text_of};
use crate::validity::Validity;
use crate::window::Window;
use vstd::prelude::*;

verus! {

/// Evaluates the window: of its candidates, the one that `combinations`
/// counts highest (the leftmost of several) is counted in `words`, unless
/// that count is 0. The window keeps its last `word_length - 1` offsets.
pub fn count_word(
    words: &mut FreqTable,
    combinations: &FreqTable,
    line: &[char],
    heads: &mut Window,
    word_length: usize,
)
    requires
        word_length >= 1,
        old(heads).wf(),
        old(heads).count() >= word_length,
        old(heads).end() <= line@.len(),
    ensures
        final(words)@ == evaluated(
            old(words)@,
            combinations@,
            line@,
            word_length as nat,
            old(heads).first() as int,
            old(heads).end() as int,
        ),
        final(heads).wf(),
        final(heads).end() == old(heads).end(),
        final(heads).count() == word_length - 1,
{
    let tail: usize = heads.tail();
    let last: usize = tail - word_length;
    let first: usize = heads.pop_front(heads.len() - word_length + 1);
    let mut best: usize = first;
    let mut max_freq: usize = 0;
    let mut head: usize = first;
    while head <= last
        invariant
            word_length >= 1,
            last + word_length == tail <= line@.len(),
            first <= head <= last + 1,
            first <= best <= last,
            head > first ==> max_freq == candidate_freq(
                combinations@,
                line@,
                word_length as nat,
                best_start(
                    combinations@,
                    line@,
                    word_length as nat,
                    first as int,
                    (head - first) as nat,
                ),
            ),
            head > first && max_freq > 0 ==> best == best_start(
                combinations@,
                line@,
                word_length as nat,
                first as int,
                (head - first) as nat,
            ),
            head == first ==> max_freq == 0,
        decreases last + 1 - head,
    {
        let text = text_of(line, head, head + word_length);
        let found: usize = combinations.get(text.as_str());
        if found > max_freq {
            best = head;
            max_freq = found;
        }
        head += 1;
    }
    if max_freq > 0 {
        words.record(text_of(line, best, best + word_length));
    }
}

/// Scans `line` a second time and counts its words in `words`: each run of
/// valid characters is cut into spans, and in each span the combination that
/// `combinations` counts highest is the word.
pub fn select_line(
    words: &mut FreqTable,
    combinations: &FreqTable,
    line: &str,
    validity: &Validity,
    word_length: u8,
)
    requires
        word_length >= 1,
    ensures
        final(words)@ == line_selected(
            old(words)@,
            combinations@,
            line@,
            *validity,
            word_length as nat,
        ),
{
    let chars = chars_of(line);
    let length: usize = word_length as usize;
    let full: usize = 2 * length - 1;
    let n: usize = chars.len();
    let mut heads = Window::empty_at(0);
    let mut tail: usize = 0;
    while tail < n
        invariant
            n == chars@.len(),
            chars@ == line@,
            length == word_length,
            length >= 1,
            full == 2 * length - 1,
            heads.wf(),
            heads.end() == tail,
            tail <= n,
            selected_from(
                words@,
                combinations@,
                chars@,
                *validity,
                length as nat,
                heads.first() as int,
                tail as int,
            ) == line_selected(old(words)@, combinations@, chars@, *validity, length as nat),
        decreases n - tail,
    {
        if heads.len() == full {
            count_word(words, combinations, chars.as_slice(), &mut heads, length);
        }
        if validity.is_valid(chars[tail]) {
            heads.push_back();
        } else {
            if heads.len() >= length {
                count_word(words, combinations, chars.as_slice(), &mut heads, length);
            }
            heads = Window::empty_at(tail + 1);
        }
        tail += 1;
    }
    if heads.len() >= length {
        count_word(words, combinations, chars.as_slice(), &mut heads, length);
    }
}

} // verus!
