//! Between text and its characters.
use std::str::Chars;
use vstd::prelude::*;
use vstd::std_specs::iter::IteratorSpec;

verus! {

broadcast use vstd::string::group_string_axioms;

/// `String::push`: the character is added at the end.
#[verifier::external_body]
fn push_char(text: &mut String, c: char)
    ensures
        final(text)@ == old(text)@.push(c),
{
    text.push(c);
}

/// The characters of `text`, in order.
pub fn chars_of(text: &str) -> (chars: Vec<char>)
    ensures
        chars@ == text@,
{
    let mut chars: Vec<char> = Vec::new();
    let mut rest: Chars<'_> = text.chars();
    loop
        invariant
            chars@ + rest.remaining() == text@,
        ensures
            chars@ == text@,
        decreases text@.len() - chars@.len(),
    {
        let ghost before = rest.remaining();
        match rest.next() {
            Some(c) => {
                chars.push(c);
                assert(before == seq![c] + before.drop_first());
            },
            None => {
                assert(before.len() == 0);
                break ;
            },
        }
    }
    chars
}

/// The text made of the characters of `chars` from `from` up to `to`.
pub fn text_of(chars: &[char], from: usize, to: usize) -> (text: String)
    requires
        from <= to <= chars@.len(),
    ensures
        text@ == chars@.subrange(from as int, to as int),
{
    let mut text = String::new();
    let mut k: usize = from;
    while k < to
        invariant
            from <= k <= to <= chars@.len(),
            text@ == chars@.subrange(from as int, k as int),
        decreases to - k,
    {
        push_char(&mut text, chars[k]);
        assert(chars@.subrange(from as int, k + 1) == chars@.subrange(from as int, k as int).push(
            chars@[k as int],
        ));
        k += 1;
    }
    assert(chars@.subrange(from as int, from as int) == Seq::<char>::empty());
    text
}

} // verus!
