//! The mathematical model: texts are sequences of characters, a body of
//! text is cut into lines, and a query occurs in a line or does not.

use vstd::prelude::*;

verus! {

/// `needle` stands in `haystack` as a contiguous run that starts at `at`.
pub open spec fn occurs_at<T>(needle: Seq<T>, haystack: Seq<T>, at: int) -> bool {
    &&& 0 <= at
    &&& at + needle.len() <= haystack.len()
    &&& haystack.subrange(at, at + needle.len()) == needle
}

/// `needle` stands somewhere in `haystack` as a contiguous run.
pub open spec fn occurs<T>(needle: Seq<T>, haystack: Seq<T>) -> bool {
    exists|at: int| occurs_at(needle, haystack, at)
}

/// Index of the first line feed in `text`, or the length of `text` where it
/// holds none.
pub open spec fn first_line_feed(text: Seq<char>) -> nat
    decreases text.len(),
{
    if text.len() == 0 || text[0] == '\n' {
        0
    } else {
        1 + first_line_feed(text.drop_first())
    }
}

/// A line as it stood before its line feed, without the carriage return that
/// may close it.
pub open spec fn without_carriage_return(line: Seq<char>) -> Seq<char> {
    if line.len() > 0 && line.last() == '\r' {
        line.drop_last()
    } else {
        line
    }
}

/// The first line of a body that is not empty. A line ends at a line feed,
/// or at a carriage return directly followed by one; neither belongs to the
/// line. A body without a line feed is one line, carriage returns and all.
pub open spec fn first_line(body: Seq<char>) -> Seq<char> {
    let cut = first_line_feed(body) as int;
    if cut >= body.len() {
        body
    } else {
        without_carriage_return(body.subrange(0, cut))
    }
}

/// What follows the first line of a body and the line feed that ends it.
pub open spec fn after_first_line(body: Seq<char>) -> Seq<char> {
    let cut = first_line_feed(body) as int;
    if cut >= body.len() {
        Seq::empty()
    } else {
        body.subrange(cut + 1, body.len() as int)
    }
}

/// The lines of a body of text, in order. The empty body has no lines, so a
/// line feed that closes the body adds none.
pub open spec fn lines(body: Seq<char>) -> Seq<Seq<char>>
    decreases body.len(),
{
    if body.len() == 0 {
        Seq::empty()
    } else {
        seq![first_line(body)] + lines(after_first_line(body))
    }
}

/// What each of the slices holds, in the same order.
pub open spec fn texts(slices: Seq<&str>) -> Seq<Seq<char>> {
    slices.map_values(|slice: &str| slice@)
}

/// The empty run stands in every sequence.
pub proof fn lemma_empty_occurs<T>(needle: Seq<T>, haystack: Seq<T>)
    requires
        needle.len() == 0,
    ensures
        occurs(needle, haystack),
{
    assert(haystack.subrange(0, 0) =~= needle);
    assert(occurs_at(needle, haystack, 0));
}

/// Bounds of `first_line_feed`, and what stands on either side of it.
pub proof fn lemma_first_line_feed(text: Seq<char>)
    ensures
        first_line_feed(text) <= text.len(),
        first_line_feed(text) < text.len() ==> text[first_line_feed(text) as int] == '\n',
        forall|i: int| 0 <= i < first_line_feed(text) ==> text[i] != '\n',
    decreases text.len(),
{
    if text.len() == 0 || text[0] == '\n' {
    } else {
        let rest = text.drop_first();
        lemma_first_line_feed(rest);
        assert forall|i: int| 0 <= i < first_line_feed(text) implies text[i] != '\n' by {
            if i > 0 {
                assert(text[i] == rest[i - 1]);
            }
        }
    }
}

/// A line feed before which none stands is the first.
pub proof fn lemma_first_line_feed_at(text: Seq<char>, at: int)
    requires
        0 <= at < text.len(),
        text[at] == '\n',
        forall|i: int| 0 <= i < at ==> text[i] != '\n',
    ensures
        first_line_feed(text) == at,
{
    lemma_first_line_feed(text);
}

/// A text without a line feed counts its length as the place of the first.
pub proof fn lemma_first_line_feed_none(text: Seq<char>)
    requires
        forall|i: int| 0 <= i < text.len() ==> text[i] != '\n',
    ensures
        first_line_feed(text) == text.len(),
{
    lemma_first_line_feed(text);
}

/// Every line of a body stands in the body, as it is written there.
pub proof fn lemma_lines_stand_in_body(body: Seq<char>)
    ensures
        forall|i: int| 0 <= i < lines(body).len() ==> occurs(#[trigger] lines(body)[i], body),
    decreases body.len(),
{
    if body.len() > 0 {
        lemma_first_line_feed(body);
        let cut = first_line_feed(body) as int;
        let rest = after_first_line(body);
        lemma_lines_stand_in_body(rest);
        assert forall|i: int| 0 <= i < lines(body).len() implies occurs(
            #[trigger] lines(body)[i],
            body,
        ) by {
            if i == 0 {
                let line = first_line(body);
                assert(body.subrange(0, line.len() as int) =~= line);
                assert(occurs_at(line, body, 0));
            } else {
                let line = lines(rest)[i - 1];
                let at = choose|at: int| occurs_at(line, rest, at);
                assert(body.subrange(cut + 1 + at, cut + 1 + at + line.len()) =~= line);
                assert(occurs_at(line, body, cut + 1 + at));
            }
        }
    }
}

/// A filter that every entry passes keeps the sequence as it is.
pub proof fn lemma_filter_keeps_all<A>(entries: Seq<A>, pass: spec_fn(A) -> bool)
    requires
        forall|i: int| 0 <= i < entries.len() ==> pass(#[trigger] entries[i]),
    ensures
        entries.filter(pass) == entries,
    decreases entries.len(),
{
    if entries.len() == 0 {
        reveal(Seq::filter);
    } else {
        let front = entries.drop_last();
        lemma_filter_keeps_all(front, pass);
        front.lemma_filter_push(entries.last(), pass);
        assert(front.push(entries.last()) =~= entries);
    }
}

/// Of the lines of the empty body none passes a test, there being none.
pub proof fn lemma_no_lines_pass(body: Seq<char>, pass: spec_fn(Seq<char>) -> bool)
    requires
        body.len() == 0,
    ensures
        lines(body).filter(pass) == Seq::<Seq<char>>::empty(),
{
    reveal(Seq::filter);
}

/// Filtering by a weak test and then by a strong one gives what the strong
/// test gives alone, where every entry that passes the strong test passes
/// the weak one.
pub proof fn lemma_filter_through<A>(
    entries: Seq<A>,
    strong: spec_fn(A) -> bool,
    weak: spec_fn(A) -> bool,
)
    requires
        forall|i: int|
            0 <= i < entries.len() && strong(#[trigger] entries[i]) ==> weak(entries[i]),
    ensures
        entries.filter(strong) == entries.filter(weak).filter(strong),
    decreases entries.len(),
{
    if entries.len() == 0 {
        reveal(Seq::filter);
    } else {
        let front = entries.drop_last();
        let last = entries.last();
        lemma_filter_through(front, strong, weak);
        assert(front.push(last) =~= entries);
        front.lemma_filter_push(last, strong);
        front.lemma_filter_push(last, weak);
        front.filter(weak).lemma_filter_push(last, strong);
    }
}

} // verus!
