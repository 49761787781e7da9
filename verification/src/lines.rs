//! Cutting a body of text into its lines, one line at a time.

use vstd::prelude::*;
use vstd::string::StringSliceAdditionalSpecFns;
use vstd::utf8::*;
use crate::encoding::{
    lemma_ascii_byte_starts_char, lemma_ascii_char_shows, lemma_char_after_ascii_byte,
    lemma_decode_ascii, lemma_join, lemma_last_ascii_char_shows, lemma_no_bytes_no_chars,
};
use crate::text::{
    after_first_line, first_line, lemma_first_line_feed_at, lemma_first_line_feed_none,
    without_carriage_return,
};

verus! {

const LINE_FEED: u8 = 0x0A;

const CARRIAGE_RETURN: u8 = 0x0D;

/// Index of the first byte equal to `wanted`, or the length where there is
/// none.
fn find_byte(bytes: &[u8], wanted: u8) -> (at: usize)
    ensures
        at <= bytes@.len(),
        at < bytes@.len() ==> bytes@[at as int] == wanted,
        forall|i: int| 0 <= i < at ==> bytes@[i] != wanted,
{
    let mut at: usize = 0;
    while at < bytes.len() && bytes[at] != wanted
        invariant
            at <= bytes@.len(),
            forall|i: int| 0 <= i < at ==> bytes@[i] != wanted,
        decreases bytes@.len() - at,
    {
        at += 1;
    }
    at
}

/// The line without the carriage return that may close it.
fn strip_carriage_return<'a>(line: &'a str) -> (stripped: &'a str)
    ensures
        stripped@ == without_carriage_return(line@),
{
    let bytes = line.as_bytes();
    let len = bytes.len();
    proof {
        encode_utf8_valid_utf8(line@);
    }
    if len > 0 && bytes[len - 1] == CARRIAGE_RETURN {
        proof {
            lemma_ascii_byte_starts_char(bytes@, len - 1);
        }
        let (head, last) = line.split_at(len - 1);
        proof {
            lemma_join(line@, head@, last@, len - 1);
            assert(encode_utf8(last@) =~= seq!['\r' as u8]);
            lemma_decode_ascii(last@, '\r');
        }
        head
    } else {
        proof {
            if len == 0 {
                lemma_no_bytes_no_chars(line@);
            } else if line@.len() > 0 && line@.last() == '\r' {
                lemma_last_ascii_char_shows(line@);
            }
        }
        line
    }
}

/// Takes the first line off `contents`: the line, and what follows it and
/// the line feed that ends it. Both are slices of `contents`; no text is
/// copied. There is no first line exactly when `contents` is empty.
pub fn take_line<'a>(contents: &'a str) -> (taken: Option<(&'a str, &'a str)>)
    ensures
        match taken {
            None => contents@.len() == 0,
            Some((line, rest)) => {
                &&& contents@.len() > 0
                &&& line@ == first_line(contents@)
                &&& rest@ == after_first_line(contents@)
                &&& rest@.len() < contents@.len()
            },
        },
{
    let bytes = contents.as_bytes();
    let len = bytes.len();
    proof {
        encode_utf8_valid_utf8(contents@);
    }
    if len == 0 {
        proof {
            lemma_no_bytes_no_chars(contents@);
        }
        return None;
    }
    let cut = find_byte(bytes, LINE_FEED);
    if cut == len {
        proof {
            is_char_boundary_start_end_of_seq(bytes@);
        }
        let (whole, rest) = contents.split_at(len);
        proof {
            lemma_join(contents@, whole@, rest@, len as int);
            lemma_no_bytes_no_chars(rest@);
            assert forall|i: int| 0 <= i < contents@.len() implies contents@[i] != '\n' by {
                if contents@[i] == '\n' {
                    lemma_ascii_char_shows(contents@, i);
                }
            }
            lemma_first_line_feed_none(contents@);
        }
        return Some((whole, rest));
    }
    proof {
        lemma_ascii_byte_starts_char(bytes@, cut as int);
    }
    let (head, tail) = contents.split_at(cut);
    proof {
        lemma_join(contents@, head@, tail@, cut as int);
        encode_utf8_valid_utf8(tail@);
        lemma_char_after_ascii_byte(tail.spec_bytes());
    }
    let (feed, rest) = tail.split_at(1);
    let line = strip_carriage_return(head);
    proof {
        lemma_join(tail@, feed@, rest@, 1);
        lemma_decode_ascii(feed@, '\n');
        assert forall|i: int| 0 <= i < head@.len() implies head@[i] != '\n' by {
            if head@[i] == '\n' {
                lemma_ascii_char_shows(head@, i);
            }
        }
        let at = head@.len() as int;
        lemma_first_line_feed_at(contents@, at);
    }
    Some((line, rest))
}

} // verus!
