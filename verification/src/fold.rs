//! Case folding: the form in which texts are compared when case is
//! ignored.

use vstd::prelude::*;

verus! {

/// The lower-case form that `str::to_lowercase` gives a text. It follows
/// the Unicode rules, under which the form of a character may depend on
/// its neighbours and may be longer than the character, so it is named
/// here and not written out.
pub uninterp spec fn lowercase(text: Seq<char>) -> Seq<char>;

/// `str::to_lowercase` of the standard library, taken on trust. Claimed of
/// it: the result depends on the characters of the text and on nothing
/// else, and the empty text has the empty result.
pub assume_specification[ str::to_lowercase ](text: &str) -> (result: String)
    ensures
        result@ == lowercase(text@),
        text@.len() == 0 ==> result@.len() == 0,
;

} // verus!
