//! The mathematical model of frequency tables.
use crate::validity::Validity;
use vstd::prelude::*;

verus! {

/// A frequency table as a map from a word to its count.
pub type Counts = Map<Seq<char>, usize>;

/// The table without entries.
pub open spec fn no_counts() -> Counts {
    Map::empty()
}

/// The count that `table` holds for `word`; a word it lacks counts as 0.
pub open spec fn freq(table: Counts, word: Seq<char>) -> usize {
    if table.contains_key(word) {
        table[word]
    } else {
        0
    }
}

/// The count after one more occurrence; it wraps round at the machine limit.
pub open spec fn next_count(n: usize) -> usize {
    if n == usize::MAX {
        0
    } else {
        (n + 1) as usize
    }
}

/// `table` after one more occurrence of `word`: a new word enters at 1.
pub open spec fn bump(table: Counts, word: Seq<char>) -> Counts {
    if table.contains_key(word) {
        table.insert(word, next_count(table[word]))
    } else {
        table.insert(word, 1)
    }
}

/// The sum of two counts; it wraps round at the machine limit.
pub open spec fn count_sum(a: usize, b: usize) -> usize {
    if a + b > usize::MAX {
        (a + b - usize::MAX - 1) as usize
    } else {
        (a + b) as usize
    }
}

/// `table` after `n` more occurrences of `word`.
pub open spec fn raised(table: Counts, word: Seq<char>, n: usize) -> Counts {
    table.insert(word, count_sum(freq(table, word), n))
}

/// The table that holds every word of `a` and of `b`, each with the sum of
/// its two counts.
pub open spec fn merged(a: Counts, b: Counts) -> Counts {
    Map::new(
        |w: Seq<char>| a.contains_key(w) || b.contains_key(w),
        |w: Seq<char>| count_sum(freq(a, w), freq(b, w)),
    )
}

/// Whether a count survives a threshold.
pub open spec fn keeps(count: usize, threshold: usize) -> bool {
    count >= threshold
}

/// `table` without the entries whose count is below `threshold`.
pub open spec fn filtered(table: Counts, threshold: usize) -> Counts {
    Map::new(
        |w: Seq<char>| table.contains_key(w) && keeps(table[w], threshold),
        |w: Seq<char>| table[w],
    )
}

/// Whether every character of `line` from `from` up to `to` counts.
pub open spec fn all_valid(line: Seq<char>, validity: Validity, from: int, to: int) -> bool {
    forall|j: int| from <= j < to ==> validity.accepts(#[trigger] line[j])
}

/// The `length` characters of `line` that start at `start`.
pub open spec fn candidate(line: Seq<char>, length: nat, start: int) -> Seq<char> {
    line.subrange(start, start + length)
}

/// Whether a combination starts at `start`: `length` characters that all
/// count and lie within the line.
pub open spec fn is_combination(
    line: Seq<char>,
    validity: Validity,
    length: nat,
    start: int,
) -> bool {
    0 <= start && start + length <= line.len() && all_valid(
        line,
        validity,
        start,
        start + length,
    )
}

/// `table` after every combination of `line` that starts below `upto` was
/// counted once.
pub open spec fn counted_upto(
    table: Counts,
    line: Seq<char>,
    validity: Validity,
    length: nat,
    upto: nat,
) -> Counts
    decreases upto,
{
    if upto == 0 {
        table
    } else {
        let before = counted_upto(table, line, validity, length, (upto - 1) as nat);
        if is_combination(line, validity, length, upto - 1) {
            bump(before, candidate(line, length, upto - 1))
        } else {
            before
        }
    }
}

/// `table` after every combination of `line` was counted once.
pub open spec fn line_counted(
    table: Counts,
    line: Seq<char>,
    validity: Validity,
    length: nat,
) -> Counts {
    counted_upto(table, line, validity, length, line.len())
}

/// The number of combinations of `line` that start below `upto`.
pub open spec fn combinations_upto(
    line: Seq<char>,
    validity: Validity,
    length: nat,
    upto: nat,
) -> nat
    decreases upto,
{
    if upto == 0 {
        0
    } else {
        combinations_upto(line, validity, length, (upto - 1) as nat) + (if is_combination(
            line,
            validity,
            length,
            upto - 1,
        ) {
            1nat
        } else {
            0nat
        })
    }
}

/// Where no combination starts from `from` up to `to`, counting up to `to`
/// gives what counting up to `from` gives.
pub proof fn lemma_counted_skips(
    table: Counts,
    line: Seq<char>,
    validity: Validity,
    length: nat,
    from: nat,
    to: nat,
)
    requires
        from <= to,
        forall|i: int| from <= i < to ==> !is_combination(line, validity, length, i),
    ensures
        counted_upto(table, line, validity, length, to) == counted_upto(
            table,
            line,
            validity,
            length,
            from,
        ),
    decreases to - from,
{
    if from < to {
        lemma_counted_skips(table, line, validity, length, from, (to - 1) as nat);
    }
}

/// The count that the combinations table holds for the candidate at `start`.
pub open spec fn candidate_freq(
    combinations: Counts,
    line: Seq<char>,
    length: nat,
    start: int,
) -> usize {
    freq(combinations, candidate(line, length, start))
}

/// Among the `n` candidates that start at `first` and after it, the start of
/// the one with the greatest count; of several with that count, the leftmost.
pub open spec fn best_start(
    combinations: Counts,
    line: Seq<char>,
    length: nat,
    first: int,
    n: nat,
) -> int
    decreases n,
{
    if n <= 1 {
        first
    } else {
        let before = best_start(combinations, line, length, first, (n - 1) as nat);
        let last = first + n - 1;
        if candidate_freq(combinations, line, length, last) > candidate_freq(
            combinations,
            line,
            length,
            before,
        ) {
            last
        } else {
            before
        }
    }
}

/// The word table after one evaluation of the window from `first` up to
/// `tail`: the best of its candidates is counted as a word, unless its count
/// in the combinations table is 0.
pub open spec fn evaluated(
    words: Counts,
    combinations: Counts,
    line: Seq<char>,
    length: nat,
    first: int,
    tail: int,
) -> Counts {
    let best = best_start(combinations, line, length, first, (tail - first - length + 1) as nat);
    if candidate_freq(combinations, line, length, best) > 0 {
        bump(words, candidate(line, length, best))
    } else {
        words
    }
}

/// The word table after the rest of the second scan of `line`, which stands
/// before the character at `tail` with a window that starts at `first`.
///
/// A window of `2 * length - 1` characters is evaluated and gives up its
/// first `length` offsets. A character that does not count, and the end of
/// the line, evaluate a window of `length` characters or more and empty it.
pub open spec fn selected_from(
    words: Counts,
    combinations: Counts,
    line: Seq<char>,
    validity: Validity,
    length: nat,
    first: int,
    tail: int,
) -> Counts
    decreases line.len() - tail,
{
    if tail >= line.len() {
        if tail - first >= length {
            evaluated(words, combinations, line, length, first, tail)
        } else {
            words
        }
    } else {
        let full = tail - first == 2 * length - 1;
        let words1 = if full {
            evaluated(words, combinations, line, length, first, tail)
        } else {
            words
        };
        let first1 = if full {
            first + length
        } else {
            first
        };
        if validity.accepts(line[tail]) {
            selected_from(words1, combinations, line, validity, length, first1, tail + 1)
        } else {
            let words2 = if tail - first1 >= length {
                evaluated(words1, combinations, line, length, first1, tail)
            } else {
                words1
            };
            selected_from(words2, combinations, line, validity, length, tail + 1, tail + 1)
        }
    }
}

/// The word table after the second scan of one run, the characters from
/// `first` up to `end`: the run is cut every `length` characters, and each
/// cut that has `length` characters or more before the run's end evaluates
/// the window of `2 * length - 1` characters that starts there, or the
/// window up to the run's end where that comes first.
pub open spec fn run_selected(
    words: Counts,
    combinations: Counts,
    line: Seq<char>,
    length: nat,
    first: int,
    end: int,
) -> Counts
    decreases end - first,
{
    if length == 0 || end - first < length {
        words
    } else {
        let stop = if first + 2 * length - 1 <= end {
            first + 2 * length - 1
        } else {
            end
        };
        run_selected(
            evaluated(words, combinations, line, length, first, stop),
            combinations,
            line,
            length,
            first + length,
            end,
        )
    }
}

/// The word table after the second scan of `line`.
pub open spec fn line_selected(
    words: Counts,
    combinations: Counts,
    line: Seq<char>,
    validity: Validity,
    length: nat,
) -> Counts {
    selected_from(words, combinations, line, validity, length, 0, 0)
}

/// `table` after each of the first `upto` spans of `length` characters of
/// `line` was counted once, whatever its characters.
pub open spec fn spans_counted(table: Counts, line: Seq<char>, length: nat, upto: nat) -> Counts
    decreases upto,
{
    if upto == 0 {
        table
    } else {
        bump(
            spans_counted(table, line, length, (upto - 1) as nat),
            candidate(line, length, upto - 1),
        )
    }
}

/// Whether no entry of `table` holds 0.
pub open spec fn no_zero_entries(table: Counts) -> bool {
    forall|w: Seq<char>| table.contains_key(w) ==> #[trigger] table[w] > 0
}

/// The words that `known` counts above 0.
pub open spec fn known_words(known: Counts) -> Set<Seq<char>> {
    Set::new(|w: Seq<char>| freq(known, w) > 0)
}

/// `table` after every combination of `line` that starts below `upto`, and
/// that `known` counts above 0, was counted once.
pub open spec fn known_counted_upto(
    table: Counts,
    known: Counts,
    line: Seq<char>,
    validity: Validity,
    length: nat,
    upto: nat,
) -> Counts
    decreases upto,
{
    if upto == 0 {
        table
    } else {
        let before = known_counted_upto(table, known, line, validity, length, (upto - 1) as nat);
        if is_combination(line, validity, length, upto - 1) && candidate_freq(
            known,
            line,
            length,
            upto - 1,
        ) > 0 {
            bump(before, candidate(line, length, upto - 1))
        } else {
            before
        }
    }
}

/// The characters of each line.
pub open spec fn texts(lines: Seq<String>) -> Seq<Seq<char>> {
    lines.map_values(|line: String| line@)
}

/// `table` after the first scan of the first `upto` lines.
pub open spec fn corpus_counted(
    table: Counts,
    lines: Seq<Seq<char>>,
    validity: Validity,
    length: nat,
    upto: nat,
) -> Counts
    decreases upto,
{
    if upto == 0 {
        table
    } else {
        line_counted(
            corpus_counted(table, lines, validity, length, (upto - 1) as nat),
            lines[upto - 1],
            validity,
            length,
        )
    }
}

/// The word table after the second scan of the first `upto` lines.
pub open spec fn corpus_selected(
    words: Counts,
    combinations: Counts,
    lines: Seq<Seq<char>>,
    validity: Validity,
    length: nat,
    upto: nat,
) -> Counts
    decreases upto,
{
    if upto == 0 {
        words
    } else {
        line_selected(
            corpus_selected(words, combinations, lines, validity, length, (upto - 1) as nat),
            combinations,
            lines[upto - 1],
            validity,
            length,
        )
    }
}

/// The words of a text: both scans, each followed by the filter.
pub open spec fn word_counts(
    lines: Seq<Seq<char>>,
    validity: Validity,
    length: nat,
    threshold: usize,
) -> Counts {
    let combinations = filtered(
        corpus_counted(no_counts(), lines, validity, length, lines.len()),
        threshold,
    );
    filtered(
        corpus_selected(no_counts(), combinations, lines, validity, length, lines.len()),
        threshold,
    )
}

} // verus!
