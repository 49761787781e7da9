//! What holds of the two searches, whatever the query and the body.

use vstd::prelude::*;
use crate::fold::lowercase;
use crate::search::{found_lines, holds, holds_folded, matching_lines, matching_lines_folded};
use crate::text::{
    lemma_empty_occurs, lemma_filter_keeps_all, lemma_filter_through, lemma_lines_stand_in_body,
    lines, occurs,
};

verus! {

/// The exact search finds the lines of the body that hold the query as
/// written, and nothing else.
pub proof fn lemma_search_finds_exactly(query: Seq<char>, body: Seq<char>)
    ensures
        forall|line: Seq<char>| #[trigger]
            matching_lines(query, body).contains(line) <==> lines(body).contains(line) && occurs(
                query,
                line,
            ),
{
    let all = lines(body);
    let found = matching_lines(query, body);
    assert forall|line: Seq<char>| #[trigger] found.contains(line) implies all.contains(line)
        && occurs(query, line) by {
        all.lemma_filter_contains_rev(holds(query), line);
        let i = choose|i: int| 0 <= i < found.len() && found[i] == line;
        all.lemma_filter_pred(holds(query), i);
    }
    assert forall|line: Seq<char>| all.contains(line) && occurs(query, line) implies #[trigger]
        found.contains(line) by {
        let i = choose|i: int| 0 <= i < all.len() && all[i] == line;
        all.lemma_filter_contains(holds(query), i);
    }
}

/// The folding search finds lines of the body, as they are written there:
/// those whose lower-case form holds the lower-case form of the query, and
/// nothing else. No line comes back in its lower-case form unless it is
/// written so in the body.
pub proof fn lemma_folding_search_finds_exactly(query: Seq<char>, body: Seq<char>)
    ensures
        forall|line: Seq<char>| #[trigger]
            matching_lines_folded(query, body).contains(line) <==> lines(body).contains(line)
                && occurs(lowercase(query), lowercase(line)),
{
    let all = lines(body);
    let found = matching_lines_folded(query, body);
    assert forall|line: Seq<char>| #[trigger] found.contains(line) implies all.contains(line)
        && occurs(lowercase(query), lowercase(line)) by {
        all.lemma_filter_contains_rev(holds_folded(query), line);
        let i = choose|i: int| 0 <= i < found.len() && found[i] == line;
        all.lemma_filter_pred(holds_folded(query), i);
    }
    assert forall|line: Seq<char>|
        all.contains(line) && occurs(lowercase(query), lowercase(line)) implies #[trigger]
        found.contains(line) by {
        let i = choose|i: int| 0 <= i < all.len() && all[i] == line;
        all.lemma_filter_contains(holds_folded(query), i);
    }
}

/// Whether case is ignored or not, every line that a search finds stands
/// in the body as it is written there: the searches hand back pieces of
/// the body, never a folded form of one.
pub proof fn lemma_found_lines_stand_in_body(query: Seq<char>, body: Seq<char>, ignore_case: bool)
    ensures
        forall|i: int|
            0 <= i < found_lines(query, body, ignore_case).len() ==> occurs(
                #[trigger] found_lines(query, body, ignore_case)[i],
                body,
            ),
{
    let found = found_lines(query, body, ignore_case);
    lemma_lines_stand_in_body(body);
    assert forall|i: int| 0 <= i < found.len() implies occurs(#[trigger] found[i], body) by {
        assert(found.contains(found[i]));
        if ignore_case {
            lines(body).lemma_filter_contains_rev(holds_folded(query), found[i]);
        } else {
            lines(body).lemma_filter_contains_rev(holds(query), found[i]);
        }
        let j = choose|j: int| 0 <= j < lines(body).len() && lines(body)[j] == found[i];
        assert(occurs(lines(body)[j], body));
    }
}

/// The exact search for the empty query finds every line.
pub proof fn lemma_empty_query_keeps_every_line(body: Seq<char>)
    ensures
        matching_lines(Seq::empty(), body) == lines(body),
{
    let query = Seq::<char>::empty();
    assert forall|i: int| 0 <= i < lines(body).len() implies holds(query)(
        #[trigger] lines(body)[i],
    ) by {
        lemma_empty_occurs(query, lines(body)[i]);
    }
    lemma_filter_keeps_all(lines(body), holds(query));
}

/// The empty body has no lines, so neither search finds anything in it.
pub proof fn lemma_empty_body_gives_nothing(query: Seq<char>)
    ensures
        lines(Seq::empty()).len() == 0,
        matching_lines(query, Seq::empty()).len() == 0,
        matching_lines_folded(query, Seq::empty()).len() == 0,
{
    reveal(Seq::filter);
}

/// Folding does not lose `query` in `line`: where the query stands in the
/// line as written, its lower-case form stands in that of the line.
pub open spec fn survives_folding(query: Seq<char>, line: Seq<char>) -> bool {
    occurs(query, line) ==> occurs(lowercase(query), lowercase(line))
}

/// The folding search finds every line that the exact search finds, in the
/// same order: what the exact search finds is what is left of the folding
/// search's lines when those that do not hold the query as written are
/// struck out.
///
/// This holds of a body in each of whose lines folding does not lose the
/// query. It is not so in every line: in lower case the Greek capital sigma
/// is written one way at the end of a word and another way elsewhere, so a
/// query that ends in it stands in a line where a letter follows, while the
/// lower-case form of the query does not stand in that of the line.
pub proof fn lemma_folding_search_keeps_exact_matches(query: Seq<char>, body: Seq<char>)
    requires
        forall|i: int|
            0 <= i < lines(body).len() ==> survives_folding(query, #[trigger] lines(body)[i]),
    ensures
        matching_lines(query, body) == matching_lines_folded(query, body).filter(holds(query)),
        forall|line: Seq<char>| #[trigger]
            matching_lines(query, body).contains(line) ==> matching_lines_folded(
                query,
                body,
            ).contains(line),
{
    lemma_filter_through(lines(body), holds(query), holds_folded(query));
    assert forall|line: Seq<char>| #[trigger]
        matching_lines(query, body).contains(line) implies matching_lines_folded(
        query,
        body,
    ).contains(line) by {
        matching_lines_folded(query, body).lemma_filter_contains_rev(holds(query), line);
    }
}

} // verus!
