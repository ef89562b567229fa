//! The order of the result: the highest count first.
use vstd::prelude::*;

verus! {

/// `slice::sort_by`, comparing the counts in reverse: afterwards the same
/// entries stand with no count before a higher one.
#[verifier::external_body]
pub(crate) fn sort_by_count(entries: &mut Vec<(String, usize)>)
    ensures
        final(entries)@.to_multiset() == old(entries)@.to_multiset(),
        forall|i: int, j: int|
            0 <= i < j < final(entries)@.len() ==> final(entries)@[i].1 >= final(entries)@[j].1,
{
    entries.sort_by(|a, b| b.1.cmp(&a.1));
}

} // verus!
