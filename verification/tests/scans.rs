use word_freq::counter::{count_comb, count_line};
use word_freq::report::{report, sorted_entries};
use word_freq::selector::{count_word, select_line};
use word_freq::table::{meets, FreqTable};
use word_freq::validity::{Config, ConfigError, Validity};
use word_freq::window::Window;

fn letters() -> Validity {
    Validity::range(97, 122)
}

fn counted(lines: &[&str], validity: &Validity, word_length: u8) -> FreqTable {
    let mut table = FreqTable::new();
    for line in lines {
        count_line(&mut table, line, validity, word_length);
    }
    table
}

fn selected(
    lines: &[&str],
    combinations: &FreqTable,
    validity: &Validity,
    word_length: u8,
) -> FreqTable {
    let mut words = FreqTable::new();
    for line in lines {
        select_line(&mut words, combinations, line, validity, word_length);
    }
    words
}

fn settings(use_regex: bool, extra: &str, pattern: &str) -> Config {
    Config {
        input_filename: String::from("in.txt"),
        output_filename: String::from("out.txt"),
        word_length: 2,
        freq_threshold: 0,
        use_regex,
        lower_limit: 97,
        upper_limit: 122,
        extra_chars: String::from(extra),
        regex: String::from(pattern),
    }
}

#[test]
fn new_table_is_empty() {
    let table = FreqTable::new();
    assert_eq!(table.len(), 0);
    assert_eq!(table.get("aa"), 0);
    assert!(!table.contains("aa"));
}

#[test]
fn record_enters_at_one_and_adds_one() {
    let mut table = FreqTable::new();
    table.record(String::from("ab"));
    assert_eq!(table.get("ab"), 1);
    table.record(String::from("ab"));
    table.record(String::from("cd"));
    assert_eq!(table.get("ab"), 2);
    assert_eq!(table.get("cd"), 1);
    assert_eq!(table.len(), 2);
}

#[test]
fn count_comb_takes_the_given_span() {
    let line: Vec<char> = "xyabz".chars().collect();
    let mut table = FreqTable::new();
    count_comb(&mut table, &line, 2, 4);
    assert_eq!(table.get("ab"), 1);
    assert_eq!(table.len(), 1);
}

#[test]
fn full_run_gives_one_combination_per_start() {
    let table = counted(&["abcdef"], &letters(), 3);
    assert_eq!(table.len(), 4);
    assert_eq!(table.get("abc"), 1);
    assert_eq!(table.get("bcd"), 1);
    assert_eq!(table.get("cde"), 1);
    assert_eq!(table.get("def"), 1);
}

#[test]
fn example_line_first_scan() {
    let table = counted(&["aabaa"], &letters(), 2);
    assert_eq!(table.len(), 3);
    assert_eq!(table.get("aa"), 2);
    assert_eq!(table.get("ab"), 1);
    assert_eq!(table.get("ba"), 1);
}

#[test]
fn example_line_second_scan() {
    let validity = letters();
    let combinations = counted(&["aabaa"], &validity, 2);
    let words = selected(&["aabaa"], &combinations, &validity, 2);
    assert_eq!(words.len(), 1);
    assert_eq!(words.get("aa"), 2);
    let entries = sorted_entries(words);
    assert_eq!(entries, vec![(String::from("aa"), 2)]);
    assert_eq!(report(&entries), "aa\t2");
}

#[test]
fn short_line_gives_nothing() {
    let table = counted(&["ab", "", "a"], &letters(), 3);
    assert_eq!(table.len(), 0);
}

#[test]
fn invalid_character_breaks_the_run() {
    let table = counted(&["ab cd", "abc,d"], &letters(), 2);
    assert_eq!(table.get("ab"), 2);
    assert_eq!(table.get("cd"), 1);
    assert_eq!(table.get("bc"), 1);
    assert_eq!(table.get("b "), 0);
    assert_eq!(table.get(" c"), 0);
    assert_eq!(table.len(), 3);
}

#[test]
fn characters_of_several_bytes_are_one_offset_each() {
    let validity = Validity::range(0x4e00, 0x9fff);
    let table = counted(&["\u{4e00}\u{4e8c}\u{4e09}a\u{4e00}\u{4e8c}"], &validity, 2);
    assert_eq!(table.get("\u{4e00}\u{4e8c}"), 2);
    assert_eq!(table.get("\u{4e8c}\u{4e09}"), 1);
    assert_eq!(table.len(), 2);
}

#[test]
fn order_of_lines_does_not_matter() {
    let validity = letters();
    let forward = counted(&["abab", "babb", "ab"], &validity, 2);
    let backward = counted(&["ab", "babb", "abab"], &validity, 2);
    for word in ["ab", "ba", "bb"] {
        assert_eq!(forward.get(word), backward.get(word));
    }
    assert_eq!(forward.len(), backward.len());
    assert_eq!(forward.get("ab"), 4);
    assert_eq!(forward.get("ba"), 2);
    assert_eq!(forward.get("bb"), 1);
}

#[test]
fn threshold_zero_keeps_everything() {
    let mut table = counted(&["aabaa"], &letters(), 2);
    table.retain_frequent(0);
    assert_eq!(table.len(), 3);
    assert_eq!(table.get("aa"), 2);
    assert_eq!(table.get("ab"), 1);
    assert_eq!(table.get("ba"), 1);
}

#[test]
fn threshold_drops_the_rare() {
    let mut table = counted(&["aabaa"], &letters(), 2);
    table.retain_frequent(2);
    assert_eq!(table.len(), 1);
    assert_eq!(table.get("aa"), 2);
    assert!(!table.contains("ab"));
    assert!(!table.contains("ba"));
}

#[test]
fn meets_compares_with_the_threshold() {
    assert!(meets(3, 3));
    assert!(meets(4, 3));
    assert!(!meets(2, 3));
    assert!(meets(0, 0));
}

#[test]
fn word_length_one_repeats_the_combinations() {
    let validity = letters();
    let lines = ["abca", "b a", "xyz!a"];
    let mut combinations = counted(&lines, &validity, 1);
    combinations.retain_frequent(2);
    let words = selected(&lines, &combinations, &validity, 1);
    assert_eq!(words.len(), combinations.len());
    assert_eq!(words.len(), 2);
    assert_eq!(words.get("a"), 4);
    assert_eq!(words.get("b"), 2);
    assert_eq!(combinations.get("a"), 4);
    assert_eq!(combinations.get("b"), 2);
    assert!(!words.contains("c"));
}

#[test]
fn leftmost_of_equal_candidates_wins() {
    let validity = letters();
    let mut combinations = FreqTable::new();
    for word in ["ab", "ab", "bc", "bc", "cd"] {
        combinations.record(String::from(word));
    }
    let words = selected(&["abc"], &combinations, &validity, 2);
    assert_eq!(words.get("ab"), 1);
    assert_eq!(words.get("bc"), 0);
    assert_eq!(words.len(), 1);
}

#[test]
fn greater_candidate_to_the_right_wins() {
    let validity = letters();
    let mut combinations = FreqTable::new();
    for word in ["ab", "bc", "bc"] {
        combinations.record(String::from(word));
    }
    let words = selected(&["abc"], &combinations, &validity, 2);
    assert_eq!(words.get("bc"), 1);
    assert_eq!(words.len(), 1);
}

#[test]
fn unknown_candidates_count_no_word() {
    let validity = letters();
    let combinations = FreqTable::new();
    let words = selected(&["abcdef"], &combinations, &validity, 2);
    assert_eq!(words.len(), 0);
}

#[test]
fn count_word_keeps_the_last_offsets() {
    let line: Vec<char> = "abcde".chars().collect();
    let mut combinations = FreqTable::new();
    combinations.record(String::from("bcd"));
    let mut words = FreqTable::new();
    let mut heads = Window::empty_at(0);
    for _ in 0..5 {
        heads.push_back();
    }
    count_word(&mut words, &combinations, &line, &mut heads, 3);
    assert_eq!(words.get("bcd"), 1);
    assert_eq!(words.len(), 1);
    assert_eq!(heads.len(), 2);
    assert_eq!(heads.head(), 3);
    assert_eq!(heads.tail(), 5);
}

#[test]
fn window_slides() {
    let mut heads = Window::empty_at(4);
    assert_eq!(heads.len(), 0);
    heads.push_back();
    heads.push_back();
    heads.push_back();
    assert_eq!(heads.head(), 4);
    assert_eq!(heads.tail(), 7);
    assert_eq!(heads.pop_front(1), 4);
    assert_eq!(heads.head(), 5);
    assert_eq!(heads.len(), 2);
    assert_eq!(heads.pop_front(2), 5);
    assert_eq!(heads.len(), 0);
    assert_eq!(heads.tail(), 7);
}

#[test]
fn second_scan_of_a_long_run() {
    let validity = letters();
    let mut combinations = FreqTable::new();
    for word in ["bc", "bc", "bc", "cd", "de", "de", "ef"] {
        combinations.record(String::from(word));
    }
    let words = selected(&["abcdefg"], &combinations, &validity, 2);
    assert_eq!(words.get("bc"), 1);
    assert_eq!(words.get("de"), 1);
    assert_eq!(words.get("ef"), 1);
    assert_eq!(words.len(), 3);
}

#[test]
fn range_with_extra_characters() {
    let validity = settings(false, ",b!", "").get_judge_char_func().ok().unwrap();
    assert!(validity.is_valid('a'));
    assert!(validity.is_valid('z'));
    assert!(validity.is_valid(','));
    assert!(validity.is_valid('!'));
    assert!(!validity.is_valid('A'));
    assert!(!validity.is_valid(' '));
}

#[test]
fn range_alone() {
    let validity = Validity::range(97, 98);
    assert!(validity.is_valid('a'));
    assert!(validity.is_valid('b'));
    assert!(!validity.is_valid('c'));
    assert!(!validity.is_valid('`'));
}

#[test]
fn pattern_decides() {
    let validity = settings(true, "xyz", "[0-9a-c]").get_judge_char_func().ok().unwrap();
    assert!(validity.is_valid('7'));
    assert!(validity.is_valid('b'));
    assert!(!validity.is_valid('x'));
    assert!(!validity.is_valid('d'));
}

#[test]
fn bad_pattern_is_an_error() {
    let answer = settings(true, "", "[a-").get_judge_char_func();
    assert!(matches!(answer, Err(ConfigError::BadPattern)));
}

#[test]
fn bad_pattern_is_not_read_in_range_mode() {
    assert!(settings(false, "", "[a-").get_judge_char_func().is_ok());
}

#[test]
fn word_length_zero_is_an_error() {
    let mut config = settings(true, "", "[a-");
    config.word_length = 0;
    assert!(matches!(config.get_judge_char_func(), Err(ConfigError::WordLength)));
}

#[test]
fn entries_come_highest_first() {
    let mut table = FreqTable::new();
    for word in ["lo", "hi", "hi", "mid", "hi", "mid"] {
        table.record(String::from(word));
    }
    let entries = sorted_entries(table);
    assert_eq!(
        entries,
        vec![(String::from("hi"), 3), (String::from("mid"), 2), (String::from("lo"), 1)]
    );
    assert_eq!(report(&entries), "hi\t3\nmid\t2\nlo\t1");
}

#[test]
fn report_writes_decimal_counts() {
    let entries = vec![(String::from("ab"), 1205), (String::from("c"), 0)];
    assert_eq!(report(&entries), "ab\t1205\nc\t0");
    assert_eq!(report(&Vec::new()), "");
}

#[test]
fn add_raises_by_the_given_count() {
    let mut table = FreqTable::new();
    table.add(String::from("ab"), 3);
    table.add(String::from("ab"), 4);
    table.add(String::from("cd"), 0);
    assert_eq!(table.get("ab"), 7);
    assert_eq!(table.get("cd"), 0);
    assert!(table.contains("cd"));
    assert_eq!(table.len(), 2);
}

#[test]
fn counts_wrap_round() {
    let mut table = FreqTable::new();
    table.add(String::from("ab"), usize::MAX);
    table.record(String::from("ab"));
    assert_eq!(table.get("ab"), 0);
    assert!(table.contains("ab"));
    table.add(String::from("cd"), usize::MAX);
    table.add(String::from("cd"), 5);
    assert_eq!(table.get("cd"), 4);
}

#[test]
fn absorb_adds_the_counts_up() {
    let validity = letters();
    let mut left = counted(&["abab", "cd"], &validity, 2);
    let right = counted(&["ab", "bcd"], &validity, 2);
    left.absorb(right);
    let whole = counted(&["abab", "cd", "ab", "bcd"], &validity, 2);
    for word in ["ab", "ba", "cd", "bc"] {
        assert_eq!(left.get(word), whole.get(word));
    }
    assert_eq!(left.len(), 4);
    assert_eq!(left.get("ab"), 3);
    assert_eq!(left.get("ba"), 1);
    assert_eq!(left.get("cd"), 2);
    assert_eq!(left.get("bc"), 1);
}

#[test]
fn absorb_of_word_tables() {
    let validity = letters();
    let combinations = counted(&["aabaa", "ab"], &validity, 2);
    let mut left = selected(&["aabaa"], &combinations, &validity, 2);
    let right = selected(&["ab"], &combinations, &validity, 2);
    left.absorb(right);
    assert_eq!(left.get("aa"), 2);
    assert_eq!(left.get("ab"), 1);
    assert_eq!(left.len(), 2);
}

#[test]
fn into_entries_gives_each_entry_once() {
    let mut table = FreqTable::new();
    for word in ["x", "y", "x"] {
        table.record(String::from(word));
    }
    let mut entries = table.into_entries();
    entries.sort();
    assert_eq!(entries, vec![(String::from("x"), 2), (String::from("y"), 1)]);
}

#[test]
fn many_entries_come_highest_first() {
    let mut table = FreqTable::new();
    let words = ["a", "b", "c", "d", "e", "f", "g", "h", "i", "j"];
    for (i, word) in words.iter().enumerate() {
        table.add(String::from(*word), 10 * (i + 1));
    }
    let entries = sorted_entries(table);
    assert_eq!(entries.len(), 10);
    for (i, entry) in entries.iter().enumerate() {
        assert_eq!(entry.0, words[9 - i]);
        assert_eq!(entry.1, 10 * (10 - i));
    }
    assert_eq!(
        report(&entries),
        "j\t100\ni\t90\nh\t80\ng\t70\nf\t60\ne\t50\nd\t40\nc\t30\nb\t20\na\t10"
    );
}
