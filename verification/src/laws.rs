//! What holds of the two scans, whatever the text.
use crate::model::{
    all_valid, best_start, bump, candidate, candidate_freq, combinations_upto, corpus_counted,
    corpus_selected, counted_upto, evaluated, filtered, is_combination, known_counted_upto,
    known_words, line_counted, line_selected, merged, no_counts, no_zero_entries, run_selected,
    selected_from, spans_counted, word_counts, Counts,
};
use crate::validity::Validity;
use vstd::prelude::*;

verus! {

proof fn lemma_full_run_upto(
    table: Counts,
    line: Seq<char>,
    validity: Validity,
    length: nat,
    upto: nat,
)
    requires
        length >= 1,
        line.len() >= length,
        all_valid(line, validity, 0, line.len() as int),
    ensures
        upto <= line.len() - length + 1 ==> combinations_upto(line, validity, length, upto) == upto
            && counted_upto(table, line, validity, length, upto) == spans_counted(
            table,
            line,
            length,
            upto,
        ),
        upto > line.len() - length + 1 ==> combinations_upto(line, validity, length, upto)
            == line.len() - length + 1 && counted_upto(table, line, validity, length, upto)
            == spans_counted(table, line, length, (line.len() - length + 1) as nat),
    decreases upto,
{
    if upto > 0 {
        lemma_full_run_upto(table, line, validity, length, (upto - 1) as nat);
        if upto <= line.len() - length + 1 {
            assert(is_combination(line, validity, length, upto - 1));
        } else {
            assert(!is_combination(line, validity, length, upto - 1));
        }
    }
}

/// A line of `n` characters that all count, with `n` at least the word
/// length `l`, has `n - l + 1` combinations: one at each start up to `n - l`,
/// and the first scan counts each of them once.
pub proof fn lemma_full_run(table: Counts, line: Seq<char>, validity: Validity, length: nat)
    requires
        length >= 1,
        line.len() >= length,
        all_valid(line, validity, 0, line.len() as int),
    ensures
        forall|i: int|
            is_combination(line, validity, length, i) <==> 0 <= i <= line.len() - length,
        combinations_upto(line, validity, length, line.len()) == line.len() - length + 1,
        line_counted(table, line, validity, length) == spans_counted(
            table,
            line,
            length,
            (line.len() - length + 1) as nat,
        ),
{
    lemma_full_run_upto(table, line, validity, length, line.len());
}

/// Two occurrences can be counted in either order.
pub proof fn lemma_bump_commutes(table: Counts, a: Seq<char>, b: Seq<char>)
    ensures
        bump(bump(table, a), b) == bump(bump(table, b), a),
{
    assert(bump(bump(table, a), b) =~= bump(bump(table, b), a));
}

/// An occurrence counted before a line's scan can as well be counted after
/// it.
pub proof fn lemma_counted_after_bump(
    table: Counts,
    word: Seq<char>,
    line: Seq<char>,
    validity: Validity,
    length: nat,
    upto: nat,
)
    ensures
        counted_upto(bump(table, word), line, validity, length, upto) == bump(
            counted_upto(table, line, validity, length, upto),
            word,
        ),
    decreases upto,
{
    if upto > 0 {
        lemma_counted_after_bump(table, word, line, validity, length, (upto - 1) as nat);
        if is_combination(line, validity, length, upto - 1) {
            lemma_bump_commutes(
                counted_upto(table, line, validity, length, (upto - 1) as nat),
                word,
                candidate(line, length, upto - 1),
            );
        }
    }
}

proof fn lemma_scans_commute_upto(
    table: Counts,
    a: Seq<char>,
    upto_a: nat,
    b: Seq<char>,
    upto_b: nat,
    validity: Validity,
    length: nat,
)
    ensures
        counted_upto(
            counted_upto(table, a, validity, length, upto_a),
            b,
            validity,
            length,
            upto_b,
        ) == counted_upto(
            counted_upto(table, b, validity, length, upto_b),
            a,
            validity,
            length,
            upto_a,
        ),
    decreases upto_a,
{
    if upto_a > 0 {
        lemma_scans_commute_upto(table, a, (upto_a - 1) as nat, b, upto_b, validity, length);
        if is_combination(a, validity, length, upto_a - 1) {
            lemma_counted_after_bump(
                counted_upto(table, a, validity, length, (upto_a - 1) as nat),
                candidate(a, length, upto_a - 1),
                b,
                validity,
                length,
                upto_b,
            );
        }
    }
}

/// The first scan of two lines gives one table, whichever line comes first.
pub proof fn lemma_line_order(
    table: Counts,
    a: Seq<char>,
    b: Seq<char>,
    validity: Validity,
    length: nat,
)
    ensures
        line_counted(line_counted(table, a, validity, length), b, validity, length)
            == line_counted(line_counted(table, b, validity, length), a, validity, length),
{
    lemma_scans_commute_upto(table, a, a.len(), b, b.len(), validity, length);
}

/// Two tables add up to one table, whichever comes first.
pub proof fn lemma_merge_commutes(a: Counts, b: Counts)
    ensures
        merged(a, b) == merged(b, a),
{
    assert(merged(a, b) =~= merged(b, a));
}

/// A table is unchanged by adding the empty one.
pub proof fn lemma_merge_empty(table: Counts)
    ensures
        merged(table, no_counts()) == table,
        merged(no_counts(), table) == table,
{
    assert(merged(table, no_counts()) =~= table);
    assert(merged(no_counts(), table) =~= table);
}

/// An occurrence counted in one of two tables before they are added up can
/// as well be counted in their sum.
pub proof fn lemma_merge_after_bump(a: Counts, b: Counts, word: Seq<char>)
    ensures
        merged(bump(a, word), b) == bump(merged(a, b), word),
{
    assert(merged(bump(a, word), b) =~= bump(merged(a, b), word));
}

proof fn lemma_merge_counted_upto(
    a: Counts,
    b: Counts,
    line: Seq<char>,
    validity: Validity,
    length: nat,
    upto: nat,
)
    ensures
        merged(counted_upto(a, line, validity, length, upto), b) == counted_upto(
            merged(a, b),
            line,
            validity,
            length,
            upto,
        ),
    decreases upto,
{
    if upto > 0 {
        lemma_merge_counted_upto(a, b, line, validity, length, (upto - 1) as nat);
        if is_combination(line, validity, length, upto - 1) {
            lemma_merge_after_bump(
                counted_upto(a, line, validity, length, (upto - 1) as nat),
                b,
                candidate(line, length, upto - 1),
            );
        }
    }
}

/// A line scanned into one of two tables that are then added up gives what
/// the line scanned into their sum gives: workers that count into tables of
/// their own lose and add nothing.
pub proof fn lemma_merge_line_counted(
    a: Counts,
    b: Counts,
    line: Seq<char>,
    validity: Validity,
    length: nat,
)
    ensures
        merged(line_counted(a, line, validity, length), b) == line_counted(
            merged(a, b),
            line,
            validity,
            length,
        ),
{
    lemma_merge_counted_upto(a, b, line, validity, length, line.len());
}

/// The first scan of some lines into one of two tables that are then added
/// up gives what their scan into the sum gives. With an empty table for `a`:
/// the tables of two workers add up to the table of one worker that scans
/// the lines of both.
pub proof fn lemma_merge_corpus_counted(
    a: Counts,
    b: Counts,
    lines: Seq<Seq<char>>,
    validity: Validity,
    length: nat,
    upto: nat,
)
    ensures
        merged(corpus_counted(a, lines, validity, length, upto), b) == corpus_counted(
            merged(a, b),
            lines,
            validity,
            length,
            upto,
        ),
    decreases upto,
{
    if upto > 0 {
        lemma_merge_corpus_counted(a, b, lines, validity, length, (upto - 1) as nat);
        lemma_merge_line_counted(
            corpus_counted(a, lines, validity, length, (upto - 1) as nat),
            b,
            lines[upto - 1],
            validity,
            length,
        );
    }
}

proof fn lemma_merge_selected_from(
    a: Counts,
    b: Counts,
    combinations: Counts,
    line: Seq<char>,
    validity: Validity,
    length: nat,
    first: int,
    tail: int,
)
    requires
        tail >= 0,
    ensures
        merged(selected_from(a, combinations, line, validity, length, first, tail), b)
            == selected_from(merged(a, b), combinations, line, validity, length, first, tail),
    decreases line.len() - tail,
{
    if tail >= line.len() {
        lemma_merge_evaluated(a, b, combinations, line, length, first, tail);
    } else {
        let full = tail - first == 2 * length - 1;
        lemma_merge_evaluated(a, b, combinations, line, length, first, tail);
        let a1 = if full {
            evaluated(a, combinations, line, length, first, tail)
        } else {
            a
        };
        let first1 = if full {
            first + length
        } else {
            first
        };
        if validity.accepts(line[tail]) {
            lemma_merge_selected_from(
                a1,
                b,
                combinations,
                line,
                validity,
                length,
                first1,
                tail + 1,
            );
        } else {
            lemma_merge_evaluated(a1, b, combinations, line, length, first1, tail);
            let a2 = if tail - first1 >= length {
                evaluated(a1, combinations, line, length, first1, tail)
            } else {
                a1
            };
            lemma_merge_selected_from(
                a2,
                b,
                combinations,
                line,
                validity,
                length,
                tail + 1,
                tail + 1,
            );
        }
    }
}

/// A word counted by an evaluation in one of two tables before they are
/// added up can as well be counted in their sum.
pub proof fn lemma_merge_evaluated(
    a: Counts,
    b: Counts,
    combinations: Counts,
    line: Seq<char>,
    length: nat,
    first: int,
    tail: int,
)
    ensures
        merged(evaluated(a, combinations, line, length, first, tail), b) == evaluated(
            merged(a, b),
            combinations,
            line,
            length,
            first,
            tail,
        ),
{
    let best = best_start(combinations, line, length, first, (tail - first - length + 1) as nat);
    lemma_merge_after_bump(a, b, candidate(line, length, best));
}

/// The second scan of a line into one of two word tables that are then
/// added up gives what its scan into their sum gives.
pub proof fn lemma_merge_line_selected(
    a: Counts,
    b: Counts,
    combinations: Counts,
    line: Seq<char>,
    validity: Validity,
    length: nat,
)
    ensures
        merged(line_selected(a, combinations, line, validity, length), b) == line_selected(
            merged(a, b),
            combinations,
            line,
            validity,
            length,
        ),
{
    lemma_merge_selected_from(a, b, combinations, line, validity, length, 0, 0);
}

/// A threshold of 0 drops no entry.
pub proof fn lemma_filter_zero(table: Counts)
    ensures
        filtered(table, 0) == table,
{
    assert(filtered(table, 0) =~= table);
}

/// The candidate that an evaluation picks has the greatest count of the
/// window, and every candidate to its left has a smaller one.
pub proof fn lemma_best_is_leftmost(
    combinations: Counts,
    line: Seq<char>,
    length: nat,
    first: int,
    n: nat,
)
    requires
        n >= 1,
    ensures
        first <= best_start(combinations, line, length, first, n) < first + n,
        forall|i: int|
            first <= i < first + n ==> #[trigger] candidate_freq(combinations, line, length, i)
                <= candidate_freq(
                combinations,
                line,
                length,
                best_start(combinations, line, length, first, n),
            ),
        forall|i: int|
            first <= i < best_start(combinations, line, length, first, n)
                ==> #[trigger] candidate_freq(combinations, line, length, i) < candidate_freq(
                combinations,
                line,
                length,
                best_start(combinations, line, length, first, n),
            ),
    decreases n,
{
    if n > 1 {
        lemma_best_is_leftmost(combinations, line, length, first, (n - 1) as nat);
    }
}

proof fn lemma_run_from(
    words: Counts,
    combinations: Counts,
    line: Seq<char>,
    validity: Validity,
    length: nat,
    first: int,
    tail: int,
    end: int,
)
    requires
        length >= 1,
        0 <= first <= tail <= end <= line.len(),
        tail - first <= 2 * length - 1,
        all_valid(line, validity, first, end),
        end == line.len() || !validity.accepts(line[end]),
    ensures
        selected_from(words, combinations, line, validity, length, first, tail) == selected_from(
            run_selected(words, combinations, line, length, first, end),
            combinations,
            line,
            validity,
            length,
            if end < line.len() {
                end + 1
            } else {
                end
            },
            if end < line.len() {
                end + 1
            } else {
                end
            },
        ),
    decreases end - tail,
{
    let full = tail - first == 2 * length - 1;
    if tail == end {
        if end - first >= length {
            let after = evaluated(words, combinations, line, length, first, end);
            assert(run_selected(after, combinations, line, length, first + length, end) == after);
        }
    } else {
        assert(validity.accepts(line[tail]));
        if full {
            let after = evaluated(words, combinations, line, length, first, tail);
            lemma_run_from(
                after,
                combinations,
                line,
                validity,
                length,
                first + length,
                tail + 1,
                end,
            );
        } else {
            lemma_run_from(words, combinations, line, validity, length, first, tail + 1, end);
        }
    }
}

/// The second scan cuts a run every `length` characters from its start: from
/// an empty window before a run that ends at `end`, the scan goes on behind
/// the run with the table that the cuts of the run give.
pub proof fn lemma_run_selected(
    words: Counts,
    combinations: Counts,
    line: Seq<char>,
    validity: Validity,
    length: nat,
    first: int,
    end: int,
)
    requires
        length >= 1,
        0 <= first <= end <= line.len(),
        all_valid(line, validity, first, end),
        end == line.len() || !validity.accepts(line[end]),
    ensures
        end < line.len() ==> selected_from(
            words,
            combinations,
            line,
            validity,
            length,
            first,
            first,
        ) == selected_from(
            run_selected(words, combinations, line, length, first, end),
            combinations,
            line,
            validity,
            length,
            end + 1,
            end + 1,
        ),
        end == line.len() ==> selected_from(
            words,
            combinations,
            line,
            validity,
            length,
            first,
            first,
        ) == run_selected(words, combinations, line, length, first, end),
{
    lemma_run_from(words, combinations, line, validity, length, first, first, end);
}

proof fn lemma_single_scan(
    words: Counts,
    combinations: Counts,
    line: Seq<char>,
    validity: Validity,
    upto: nat,
)
    requires
        upto <= line.len(),
    ensures
        selected_from(
            known_counted_upto(words, combinations, line, validity, 1, upto),
            combinations,
            line,
            validity,
            1,
            upto as int,
            upto as int,
        ) == line_selected(words, combinations, line, validity, 1),
    decreases upto,
{
    if upto > 0 {
        let t = upto - 1;
        lemma_single_scan(words, combinations, line, validity, t as nat);
        let before = known_counted_upto(words, combinations, line, validity, 1, t as nat);
        if validity.accepts(line[t]) {
            assert(is_combination(line, validity, 1, t));
            assert(best_start(combinations, line, 1, t, 1) == t);
            let after = evaluated(before, combinations, line, 1, t, t + 1);
            assert(after == known_counted_upto(words, combinations, line, validity, 1, upto));
            assert(selected_from(before, combinations, line, validity, 1, t, t)
                == selected_from(before, combinations, line, validity, 1, t, t + 1));
            assert(selected_from(before, combinations, line, validity, 1, t, t + 1)
                == selected_from(after, combinations, line, validity, 1, t + 1, t + 1));
        } else {
            assert(!is_combination(line, validity, 1, t));
        }
    }
}

/// With a word length of 1 the second scan counts every character that
/// counts, unless the combinations table lacks it or holds 0 for it.
pub proof fn lemma_single_line(
    words: Counts,
    combinations: Counts,
    line: Seq<char>,
    validity: Validity,
)
    ensures
        line_selected(words, combinations, line, validity, 1) == known_counted_upto(
            words,
            combinations,
            line,
            validity,
            1,
            line.len(),
        ),
{
    lemma_single_scan(words, combinations, line, validity, line.len());
}

proof fn lemma_known_counted(
    table: Counts,
    known: Counts,
    line: Seq<char>,
    validity: Validity,
    length: nat,
    upto: nat,
)
    ensures
        known_counted_upto(
            table.restrict(known_words(known)),
            known,
            line,
            validity,
            length,
            upto,
        ) == counted_upto(table, line, validity, length, upto).restrict(known_words(known)),
    decreases upto,
{
    if upto > 0 {
        lemma_known_counted(table, known, line, validity, length, (upto - 1) as nat);
        let before = counted_upto(table, line, validity, length, (upto - 1) as nat);
        let word = candidate(line, length, upto - 1);
        if known_words(known).contains(word) {
            assert(bump(before, word).restrict(known_words(known)) =~= bump(
                before.restrict(known_words(known)),
                word,
            ));
        } else {
            assert(bump(before, word).restrict(known_words(known)) =~= before.restrict(
                known_words(known),
            ));
        }
    } else {
        assert(known_counted_upto(
            table.restrict(known_words(known)),
            known,
            line,
            validity,
            length,
            0,
        ) == table.restrict(known_words(known)));
    }
}

proof fn lemma_single_corpus(
    known: Counts,
    lines: Seq<Seq<char>>,
    validity: Validity,
    upto: nat,
)
    requires
        upto <= lines.len(),
    ensures
        corpus_selected(no_counts(), known, lines, validity, 1, upto) == corpus_counted(
            no_counts(),
            lines,
            validity,
            1,
            upto,
        ).restrict(known_words(known)),
    decreases upto,
{
    if upto > 0 {
        lemma_single_corpus(known, lines, validity, (upto - 1) as nat);
        let counted = corpus_counted(no_counts(), lines, validity, 1, (upto - 1) as nat);
        let line = lines[upto - 1];
        lemma_single_line(counted.restrict(known_words(known)), known, line, validity);
        lemma_known_counted(counted, known, line, validity, 1, line.len());
    } else {
        assert(no_counts().restrict(known_words(known)) =~= no_counts());
    }
}

/// With a word length of 1 the words of a text are its combinations after
/// the filter: each character that counts is its own span. An entry that
/// holds 0, which only a count that wrapped round gives, would be lost
/// under a threshold of 0.
pub proof fn lemma_single_words(lines: Seq<Seq<char>>, validity: Validity, threshold: usize)
    requires
        threshold >= 1 || no_zero_entries(
            corpus_counted(no_counts(), lines, validity, 1, lines.len()),
        ),
    ensures
        corpus_selected(
            no_counts(),
            filtered(corpus_counted(no_counts(), lines, validity, 1, lines.len()), threshold),
            lines,
            validity,
            1,
            lines.len(),
        ) == filtered(corpus_counted(no_counts(), lines, validity, 1, lines.len()), threshold),
        word_counts(lines, validity, 1, threshold) == filtered(
            corpus_counted(no_counts(), lines, validity, 1, lines.len()),
            threshold,
        ),
{
    let counted = corpus_counted(no_counts(), lines, validity, 1, lines.len());
    let known = filtered(counted, threshold);
    lemma_single_corpus(known, lines, validity, lines.len());
    assert(counted.restrict(known_words(known)) =~= known) by {
        assert forall|w: Seq<char>| known.contains_key(w) implies known_words(known).contains(
            w,
        ) by {
            assert(counted.contains_key(w) && counted[w] > 0);
        }
    }
    assert(filtered(known, threshold) =~= known);
}

} // verus!
