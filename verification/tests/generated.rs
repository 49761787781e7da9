use mgrep::lines::take_line;
use mgrep::matching::contains;
use mgrep::{search, search_case_insensitive};

/// A small deterministic generator of texts over an alphabet that mixes
/// letters in both cases, line breaks and characters of several widths.
struct Texts {
    state: u64,
}

const ALPHABET: [&str; 16] = [
    "a", "A", "b", "B", " ", "\n", "\n", "\r", "\r\n", "é", "É", "σ", "Σ", "ς", "日", "🦀",
];

impl Texts {
    fn new(seed: u64) -> Texts {
        Texts { state: seed }
    }

    fn number(&mut self, below: u64) -> u64 {
        self.state = self
            .state
            .wrapping_mul(6364136223846793005)
            .wrapping_add(1442695040888963407);
        (self.state >> 33) % below
    }

    fn text(&mut self, longest: u64) -> String {
        let length = self.number(longest + 1);
        let mut text = String::new();
        for _ in 0..length {
            text.push_str(ALPHABET[self.number(ALPHABET.len() as u64) as usize]);
        }
        text
    }
}

#[test]
fn generated_bodies_split_as_std_splits_them() {
    let mut texts = Texts::new(1);
    for _ in 0..2000 {
        let body = texts.text(24);
        let mut found = Vec::new();
        let mut rest = body.as_str();
        while let Some((line, tail)) = take_line(rest) {
            found.push(line);
            rest = tail;
        }
        let expected: Vec<&str> = body.lines().collect();
        assert_eq!(found, expected, "body {:?}", body);
    }
}

#[test]
fn generated_needles_are_found_as_std_finds_them() {
    let mut texts = Texts::new(2);
    for _ in 0..4000 {
        let haystack = texts.text(12);
        let needle = texts.text(3);
        assert_eq!(
            contains(&haystack, &needle),
            haystack.contains(needle.as_str()),
            "{:?} in {:?}",
            needle,
            haystack
        );
    }
}

#[test]
fn generated_searches_keep_the_lines_that_hold_the_query() {
    let mut texts = Texts::new(3);
    for _ in 0..2000 {
        let body = texts.text(40);
        let query = texts.text(2);
        let expected: Vec<&str> = body
            .lines()
            .filter(|line| line.contains(query.as_str()))
            .collect();
        assert_eq!(search(&query, &body), expected, "{:?} in {:?}", query, body);
    }
}

#[test]
fn generated_folding_searches_keep_the_lines_that_hold_the_folded_query() {
    let mut texts = Texts::new(4);
    for _ in 0..2000 {
        let body = texts.text(40);
        let query = texts.text(2);
        let folded = query.to_lowercase();
        let expected: Vec<&str> = body
            .lines()
            .filter(|line| line.to_lowercase().contains(folded.as_str()))
            .collect();
        assert_eq!(
            search_case_insensitive(&query, &body),
            expected,
            "{:?} in {:?}",
            query,
            body
        );
    }
}
