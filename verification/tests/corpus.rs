use word_freq::corpus::{count_lines, run, select_lines, word_frequencies};
use word_freq::table::FreqTable;
use word_freq::text::{chars_of, text_of};
use word_freq::validity::Validity;

fn lines_of(lines: &[&str]) -> Vec<String> {
    lines.iter().map(|line| String::from(*line)).collect()
}

#[test]
fn chars_of_gives_each_character() {
    assert_eq!(chars_of("a\u{4e00}b"), vec!['a', '\u{4e00}', 'b']);
    assert_eq!(chars_of(""), Vec::<char>::new());
}

#[test]
fn text_of_takes_the_span() {
    let chars = vec!['a', '\u{4e00}', 'b', 'c'];
    assert_eq!(text_of(&chars, 1, 3), "\u{4e00}b");
    assert_eq!(text_of(&chars, 2, 2), "");
    assert_eq!(text_of(&chars, 0, 4), "a\u{4e00}bc");
}

#[test]
fn count_lines_scans_every_line() {
    let validity = Validity::range(97, 122);
    let mut table = FreqTable::new();
    count_lines(&mut table, &lines_of(&["aabaa", "ab"]), &validity, 2);
    assert_eq!(table.get("aa"), 2);
    assert_eq!(table.get("ab"), 2);
    assert_eq!(table.get("ba"), 1);
    assert_eq!(table.len(), 3);
}

#[test]
fn select_lines_scans_every_line() {
    let validity = Validity::range(97, 122);
    let lines = lines_of(&["aabaa", "ab"]);
    let mut combinations = FreqTable::new();
    count_lines(&mut combinations, &lines, &validity, 2);
    let mut words = FreqTable::new();
    select_lines(&mut words, &combinations, &lines, &validity, 2);
    assert_eq!(words.get("aa"), 2);
    assert_eq!(words.get("ab"), 1);
    assert_eq!(words.len(), 2);
}

#[test]
fn example_text_end_to_end() {
    let validity = Validity::range(97, 98);
    let lines = lines_of(&["aabaa"]);
    let words = word_frequencies(&lines, &validity, 2, 0);
    assert_eq!(words.len(), 1);
    assert_eq!(words.get("aa"), 2);
    assert_eq!(run(&lines, &validity, 2, 0), "aa\t2");
}

#[test]
fn threshold_filters_both_tables() {
    let validity = Validity::range(97, 122);
    let lines = lines_of(&["abab", "ab cd", "cd"]);
    let words = word_frequencies(&lines, &validity, 2, 2);
    assert_eq!(words.get("ab"), 3);
    assert_eq!(words.get("cd"), 2);
    assert_eq!(words.len(), 2);
    assert_eq!(run(&lines, &validity, 2, 2), "ab\t3\ncd\t2");
    assert_eq!(run(&lines, &validity, 2, 3), "ab\t3");
    assert_eq!(run(&lines, &validity, 2, 4), "");
}

#[test]
fn word_length_one_end_to_end() {
    let validity = Validity::range(97, 122);
    let lines = lines_of(&["abca", "b a"]);
    let words = word_frequencies(&lines, &validity, 1, 0);
    let mut combinations = FreqTable::new();
    count_lines(&mut combinations, &lines, &validity, 1);
    for word in ["a", "b", "c"] {
        assert_eq!(words.get(word), combinations.get(word));
    }
    assert_eq!(words.len(), combinations.len());
    assert_eq!(run(&lines, &validity, 1, 0), "a\t3\nb\t2\nc\t1");
}
