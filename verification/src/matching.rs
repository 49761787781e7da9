//! Substring matching.

use vstd::prelude::*;
use vstd::string::StringSliceAdditionalSpecFns;
use crate::encoding::lemma_occurs_encoded;
use crate::text::{occurs, occurs_at};

verus! {

/// Whether `needle` stands in `haystack` from index `at` on.
fn matches_at(haystack: &[u8], needle: &[u8], at: usize) -> (found: bool)
    requires
        at + needle@.len() <= haystack@.len(),
    ensures
        found == occurs_at(needle@, haystack@, at as int),
{
    let len = needle.len();
    let room = haystack.len();
    let mut i: usize = 0;
    while i < len
        invariant
            i <= len == needle@.len(),
            at + len <= room == haystack@.len(),
            forall|j: int| 0 <= j < i ==> haystack@[at + j] == needle@[j],
        decreases needle@.len() - i,
    {
        if haystack[at + i] != needle[i] {
            return false;
        }
        i += 1;
    }
    assert(haystack@.subrange(at as int, at + needle@.len()) =~= needle@);
    true
}

/// Whether `needle` stands in `haystack`, character for character. The
/// empty needle stands in every haystack.
pub fn contains(haystack: &str, needle: &str) -> (found: bool)
    ensures
        found == occurs(needle@, haystack@),
{
    let hay = haystack.as_bytes();
    let pin = needle.as_bytes();
    proof {
        lemma_occurs_encoded(needle@, haystack@);
    }
    if pin.len() > hay.len() {
        return false;
    }
    let last: usize = hay.len() - pin.len();
    let mut at: usize = 0;
    while at < last
        invariant
            at <= last,
            last + pin@.len() == hay@.len(),
            occurs(pin@, hay@) == occurs(needle@, haystack@),
            forall|p: int| 0 <= p < at ==> !occurs_at(pin@, hay@, p),
        decreases last - at,
    {
        if matches_at(hay, pin, at) {
            return true;
        }
        at += 1;
    }
    matches_at(hay, pin, last)
}

} // verus!
