//! The two searches: the lines of a body of text that hold a query, as
//! written or with case ignored.

use vstd::prelude::*;
use crate::config::Config;
use crate::fold::lowercase;
use crate::laws::lemma_empty_query_keeps_every_line;
use crate::lines::take_line;
use crate::matching::contains;
use crate::text::{
    lemma_empty_occurs, lemma_filter_keeps_all, lemma_no_lines_pass, lines, occurs, texts,
};

verus! {

/// The test that the exact search puts to a line: the query stands in it
/// as written.
pub open spec fn holds(query: Seq<char>) -> spec_fn(Seq<char>) -> bool {
    |line: Seq<char>| occurs(query, line)
}

/// The test that the folding search puts to a line: the lower-case form of
/// the query stands in the lower-case form of the line.
pub open spec fn holds_folded(query: Seq<char>) -> spec_fn(Seq<char>) -> bool {
    |line: Seq<char>| occurs(lowercase(query), lowercase(line))
}

/// The lines of `body` that hold `query` as written, in their order, each
/// as often as it stands in `body`.
pub open spec fn matching_lines(query: Seq<char>, body: Seq<char>) -> Seq<Seq<char>> {
    lines(body).filter(holds(query))
}

/// The lines of `body` whose lower-case form holds the lower-case form of
/// `query`, in their order, each as often as it stands in `body` and as it
/// is written there.
pub open spec fn matching_lines_folded(query: Seq<char>, body: Seq<char>) -> Seq<Seq<char>> {
    lines(body).filter(holds_folded(query))
}

/// What a search of `body` for `query` finds, with case ignored or not.
pub open spec fn found_lines(query: Seq<char>, body: Seq<char>, ignore_case: bool) -> Seq<
    Seq<char>,
> {
    if ignore_case {
        matching_lines_folded(query, body)
    } else {
        matching_lines(query, body)
    }
}

/// The lines of `contents` that hold `query` as written. Every such line is
/// returned, in the order of `contents`, as a slice of it. With the empty
/// query every line is returned.
pub fn search<'a>(query: &str, contents: &'a str) -> (result: Vec<&'a str>)
    ensures
        texts(result@) == matching_lines(query@, contents@),
        query@.len() == 0 ==> texts(result@) == lines(contents@),
{
    proof {
        if query@.len() == 0 {
            assert(query@ =~= Seq::<char>::empty());
            lemma_empty_query_keeps_every_line(contents@);
        }
    }
    let mut result: Vec<&'a str> = Vec::new();
    let mut rest: &'a str = contents;
    loop
        invariant_except_break
            texts(result@) + lines(rest@).filter(holds(query@)) == matching_lines(
                query@,
                contents@,
            ),
        ensures
            texts(result@) == matching_lines(query@, contents@),
        decreases rest@.len(),
    {
        match take_line(rest) {
            None => {
                proof {
                    lemma_no_lines_pass(rest@, holds(query@));
                }
                break ;
            },
            Some((line, tail)) => {
                proof {
                    lines(tail@).lemma_filter_prepend(line@, holds(query@));
                }
                if contains(line, query) {
                    result.push(line);
                }
                rest = tail;
            },
        }
    }
    result
}

/// The lines of `contents` whose lower-case form holds the lower-case form
/// of `query`. Every such line is returned, in the order of `contents`, as
/// a slice of it: folding serves the comparison and leaves the lines as
/// they are written. With the empty query every line is returned.
pub fn search_case_insensitive<'a>(query: &str, contents: &'a str) -> (result: Vec<&'a str>)
    ensures
        texts(result@) == matching_lines_folded(query@, contents@),
        query@.len() == 0 ==> texts(result@) == lines(contents@),
{
    let wanted = query.to_lowercase();
    proof {
        if query@.len() == 0 {
            assert forall|i: int| 0 <= i < lines(contents@).len() implies holds_folded(query@)(
                #[trigger] lines(contents@)[i],
            ) by {
                lemma_empty_occurs(lowercase(query@), lowercase(lines(contents@)[i]));
            }
            lemma_filter_keeps_all(lines(contents@), holds_folded(query@));
        }
    }
    let mut result: Vec<&'a str> = Vec::new();
    let mut rest: &'a str = contents;
    loop
        invariant_except_break
            wanted@ == lowercase(query@),
            texts(result@) + lines(rest@).filter(holds_folded(query@)) == matching_lines_folded(
                query@,
                contents@,
            ),
        ensures
            texts(result@) == matching_lines_folded(query@, contents@),
        decreases rest@.len(),
    {
        match take_line(rest) {
            None => {
                proof {
                    lemma_no_lines_pass(rest@, holds_folded(query@));
                }
                break ;
            },
            Some((line, tail)) => {
                proof {
                    lines(tail@).lemma_filter_prepend(line@, holds_folded(query@));
                }
                let candidate = line.to_lowercase();
                if contains(candidate.as_str(), wanted.as_str()) {
                    result.push(line);
                }
                rest = tail;
            },
        }
    }
    result
}

/// The search that `config` asks for, over `contents`: the lines that hold
/// its query, with case ignored where it says so.
pub fn run<'a>(config: &Config, contents: &'a str) -> (result: Vec<&'a str>)
    ensures
        texts(result@) == found_lines(config@.query, contents@, config@.ignore_case),
{
    if config.ignore_case() {
        search_case_insensitive(config.query(), contents)
    } else {
        search(config.query(), contents)
    }
}

} // verus!
