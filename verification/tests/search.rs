use mgrep::{search, search_case_insensitive};

#[test]
fn case_sensitive() {
    let query = "duct";
    let contents = "\
Rust:
safe, fast, productive.
Pick thers.
Duct tape.";
    assert_eq!(vec!["safe, fast, productive."], search(query, contents));
}

#[test]
fn case_insensitive() {
    let query = "rUsT";
    let contents = "\
Rust:
safe, fast, productive.
Pick thers.
Trust me.";
    assert_eq!(
        vec!["Rust:", "Trust me."],
        search_case_insensitive(query, contents),
    );
}

#[test]
fn exact_search_skips_other_casing() {
    let body = "Rust:\nsafe, fast, productive.\nPick three.\nDuct tape.";
    assert_eq!(search("duct", body), vec!["safe, fast, productive."]);
    assert_eq!(search("Duct", body), vec!["Duct tape."]);
    assert_eq!(search("DUCT", body), Vec::<&str>::new());
}

#[test]
fn folding_search_finds_any_casing() {
    let body = "Rust:\nsafe, fast, productive.\nPick three.\nDuct tape.";
    assert_eq!(search_case_insensitive("rUsT", body), vec!["Rust:"]);
    assert_eq!(
        search_case_insensitive("DUCT", body),
        vec!["safe, fast, productive.", "Duct tape."]
    );
}

#[test]
fn folding_search_returns_lines_as_written() {
    let body = "HeLLo World\nhello there\nGOODBYE\nSay HELLO";
    let found = search_case_insensitive("hello", body);
    assert_eq!(found, vec!["HeLLo World", "hello there", "Say HELLO"]);
    for line in &found {
        assert!(body.lines().any(|written| written == *line));
    }
    assert_ne!(found[0], "hello world");
}

#[test]
fn folding_search_folds_beyond_ascii() {
    let body = "ÄPFEL und Birnen\näpfel\nApfel\nÉCOLE";
    assert_eq!(
        search_case_insensitive("Äpfel", body),
        vec!["ÄPFEL und Birnen", "äpfel"]
    );
    assert_eq!(search_case_insensitive("école", body), vec!["ÉCOLE"]);
    assert_eq!(search("Äpfel", body), Vec::<&str>::new());
}

#[test]
fn empty_query_finds_every_line() {
    let body = "one\n\ntwo\r\nthree\n";
    let all: Vec<&str> = vec!["one", "", "two", "three"];
    assert_eq!(search("", body), all);
    assert_eq!(search_case_insensitive("", body), all);
}

#[test]
fn empty_body_has_nothing_to_find() {
    assert_eq!(search("duct", ""), Vec::<&str>::new());
    assert_eq!(search("", ""), Vec::<&str>::new());
    assert_eq!(search_case_insensitive("duct", ""), Vec::<&str>::new());
    assert_eq!(search_case_insensitive("", ""), Vec::<&str>::new());
}

#[test]
fn lines_come_back_in_order_and_as_often_as_they_stand() {
    let body = "b1\na\nb2\nb1\nc\nb1";
    assert_eq!(search("b", body), vec!["b1", "b2", "b1", "b1"]);
    assert_eq!(search_case_insensitive("B", body), vec!["b1", "b2", "b1", "b1"]);
}

#[test]
fn search_keeps_exactly_the_lines_that_hold_the_query() {
    let body = "to be\nor not\nto be\r\nthat is\nthe question\n";
    let query = "o";
    let found = search(query, body);
    let expected: Vec<&str> = body.lines().filter(|line| line.contains(query)).collect();
    assert_eq!(found, expected);
    assert_eq!(found, vec!["to be", "or not", "to be", "the question"]);
}

#[test]
fn folding_search_keeps_what_exact_search_finds() {
    let body = "Alpha beta\nALPHA\nalpha\ngamma\nbetalpha";
    for query in ["alpha", "ALPHA", "Alpha", "a", "", "beta", "zeta"] {
        let exact = search(query, body);
        let folding = search_case_insensitive(query, body);
        let kept: Vec<&str> = folding
            .iter()
            .copied()
            .filter(|line| line.contains(query))
            .collect();
        assert_eq!(exact, kept);
    }
}

#[test]
fn final_sigma_folds_by_its_place_in_the_word() {
    let body = "ΑΣΑ";
    let query = "ΑΣ";
    assert_eq!(search(query, body), vec!["ΑΣΑ"]);
    assert_eq!(search_case_insensitive(query, body), Vec::<&str>::new());
    assert_eq!(search_case_insensitive("ασ", body), vec!["ΑΣΑ"]);
}

#[test]
fn query_spanning_a_line_break_is_not_found() {
    let body = "ab\ncd";
    assert_eq!(search("b\nc", body), Vec::<&str>::new());
    assert_eq!(search("\n", body), Vec::<&str>::new());
    assert_eq!(search_case_insensitive("B\nC", body), Vec::<&str>::new());
}

#[test]
fn query_longer_than_line_is_not_found() {
    assert_eq!(search("abcd", "abc\nab\na"), Vec::<&str>::new());
    assert_eq!(search("abc", "abc\nab\na"), vec!["abc"]);
}

#[test]
fn found_lines_are_slices_of_the_body() {
    let body = String::from("first line\nsecond line\nthird");
    let found = search("line", &body);
    assert_eq!(found.len(), 2);
    let start = body.as_ptr() as usize;
    let end = start + body.len();
    for line in found {
        let at = line.as_ptr() as usize;
        assert!(start <= at && at + line.len() <= end);
    }
}
