//! Which characters count: the settings and the predicate made from them.
use crate::text::chars_of;
use regex::Regex;
use std::collections::HashSet;
use vstd::prelude::*;

verus! {

broadcast use vstd::std_specs::hash::group_hash_axioms;

#[verifier::external_type_specification]
#[verifier::external_body]
pub struct ExRegex(Regex);

#[verifier::external_type_specification]
#[verifier::external_body]
pub struct ExRegexError(regex::Error);

/// Whether `Regex::new` takes the pattern for a regular expression.
pub uninterp spec fn pattern_compiles(pattern: Seq<char>) -> bool;

/// The pattern that a compiled expression was made from, which it keeps.
pub uninterp spec fn compiled_source(compiled: Regex) -> Seq<char>;

/// Whether a compiled expression matches somewhere in `text`.
pub uninterp spec fn compiled_matches(compiled: Regex, text: Seq<char>) -> bool;

/// `Regex::new`: whether it succeeds depends on the pattern alone, and the
/// compiled expression keeps the pattern that it came from.
#[verifier::external_body]
fn regex_new(pattern: &str) -> (r: Result<Regex, regex::Error>)
    ensures
        r is Ok <==> pattern_compiles(pattern@),
        r is Ok ==> compiled_source(r->Ok_0) == pattern@,
{
    Regex::new(pattern)
}

/// `Regex::is_match` on the text made of the one character `c`.
#[verifier::external_body]
fn regex_matches_char(compiled: &Regex, c: char) -> (r: bool)
    ensures
        r == compiled_matches(*compiled, seq![c]),
{
    compiled.is_match(c.encode_utf8(&mut [0u8; 4]))
}

/// The code point of a character.
pub open spec fn code_point(c: char) -> u32 {
    c as u32
}

/// Whether the code point of `c` lies between `lower` and `upper`, both
/// included.
pub open spec fn in_range(c: char, lower: usize, upper: usize) -> bool {
    lower <= code_point(c) as usize && code_point(c) as usize <= upper
}

proof fn lemma_code_point_injective(c: char, d: char)
    requires
        code_point(c) == code_point(d),
    ensures
        c == d,
{
    vstd::utf8::char_u32_cast(c, c as u32);
    vstd::utf8::char_u32_cast(d, d as u32);
}

/// Why settings cannot be used.
#[derive(Debug, Clone, Copy, PartialEq, Eq, Structural)]
pub enum ConfigError {
    /// The word length is 0.
    WordLength,
    /// The character pattern is no regular expression.
    BadPattern,
}

/// The test that tells the characters that count from those that end a run.
pub enum Validity {
    /// Code points from `lower` to `upper`, both included, and the code
    /// points in `extras`.
    RangeAndExtras { lower: usize, upper: usize, extras: HashSet<u32> },
    /// The characters in which the expression matches.
    Pattern(Regex),
}

impl Validity {
    /// Whether `c` counts.
    pub open spec fn accepts(&self, c: char) -> bool {
        match self {
            Validity::RangeAndExtras { lower, upper, extras } => {
                in_range(c, *lower, *upper) || extras@.contains(code_point(c))
            },
            Validity::Pattern(compiled) => compiled_matches(*compiled, seq![c]),
        }
    }

    /// Whether `c` counts.
    pub fn is_valid(&self, c: char) -> (r: bool)
        ensures
            r == self.accepts(c),
    {
        match self {
            Validity::RangeAndExtras { lower, upper, extras } => {
                let code: u32 = c as u32;
                (*lower <= code as usize && code as usize <= *upper) || extras.contains(&code)
            },
            Validity::Pattern(compiled) => regex_matches_char(compiled, c),
        }
    }

    /// The test for a range of code points alone.
    pub fn range(lower: usize, upper: usize) -> (v: Validity)
        ensures
            forall|c: char| #[trigger] v.accepts(c) == in_range(c, lower, upper),
    {
        Validity::RangeAndExtras { lower, upper, extras: HashSet::new() }
    }
}

/// The settings of one analysis.
pub struct Config {
    /// Where the text comes from.
    pub input_filename: String,
    /// Where the result goes.
    pub output_filename: String,
    /// The number of characters in a word, from 1 to 255.
    pub word_length: u8,
    /// The count below which an entry is dropped; 0 drops none.
    pub freq_threshold: usize,
    /// Whether the pattern decides, or the range and the extra characters.
    pub use_regex: bool,
    /// The lowest code point of the range.
    pub lower_limit: usize,
    /// The highest code point of the range.
    pub upper_limit: usize,
    /// Characters that count besides those of the range.
    pub extra_chars: String,
    /// The pattern, read only where `use_regex` is set.
    pub regex: String,
}

impl Config {
    /// Whether the range and the extra characters let `c` count.
    pub open spec fn judges(&self, c: char) -> bool {
        in_range(c, self.lower_limit, self.upper_limit) || self.extra_chars@.contains(c)
    }

    /// Whether `validity` is the test that these settings ask for: the
    /// expression compiled from the pattern where the pattern decides, else a
    /// test that accepts the range and the extra characters.
    pub open spec fn describes(&self, validity: Validity) -> bool {
        if self.use_regex {
            match validity {
                Validity::Pattern(compiled) => compiled_source(compiled) == self.regex@,
                _ => false,
            }
        } else {
            forall|c: char| #[trigger] validity.accepts(c) == self.judges(c)
        }
    }

    /// Why the settings cannot be used, if they cannot: a word length of 0
    /// comes before a pattern that does not compile.
    pub open spec fn fault(&self) -> Option<ConfigError> {
        if self.word_length == 0 {
            Some(ConfigError::WordLength)
        } else if self.use_regex && !pattern_compiles(self.regex@) {
            Some(ConfigError::BadPattern)
        } else {
            None
        }
    }

    /// The character test that the settings describe.
    pub fn get_judge_char_func(&self) -> (r: Result<Validity, ConfigError>)
        ensures
            match r {
                Ok(v) => self.fault() is None && self.describes(v),
                Err(e) => self.fault() == Some(e),
            },
    {
        if self.word_length == 0 {
            return Err(ConfigError::WordLength);
        }
        if self.use_regex {
            match regex_new(self.regex.as_str()) {
                Ok(compiled) => Ok(Validity::Pattern(compiled)),
                Err(_) => Err(ConfigError::BadPattern),
            }
        } else {
            let chars = chars_of(self.extra_chars.as_str());
            let mut extras: HashSet<u32> = HashSet::new();
            let mut i: usize = 0;
            while i < chars.len()
                invariant
                    i <= chars.len(),
                    chars@ == self.extra_chars@,
                    forall|c: char|
                        extras@.contains(#[trigger] code_point(c))
                            ==> self.extra_chars@.contains(c),
                    forall|j: int|
                        0 <= j < i ==> in_range(
                            #[trigger] chars[j],
                            self.lower_limit,
                            self.upper_limit,
                        ) || extras@.contains(code_point(chars[j])),
                decreases chars.len() - i,
            {
                let c = chars[i];
                let code: u32 = c as u32;
                assert(self.extra_chars@[i as int] == c);
                if (code as usize) < self.lower_limit || code as usize > self.upper_limit {
                    extras.insert(code);
                    assert forall|d: char|
                        extras@.contains(
                            #[trigger] code_point(d),
                        ) implies self.extra_chars@.contains(d) by {
                        if code_point(d) == code {
                            lemma_code_point_injective(c, d);
                        }
                    }
                }
                i += 1;
            }
            let v = Validity::RangeAndExtras {
                lower: self.lower_limit,
                upper: self.upper_limit,
                extras,
            };
            assert forall|c: char| #[trigger] v.accepts(c) == self.judges(c) by {
                if self.extra_chars@.contains(c) {
                    let j = choose|j: int| 0 <= j < chars.len() && chars[j] == c;
                    assert(chars[j] == c);
                }
            }
            Ok(v)
        }
    }
}

} // verus!
