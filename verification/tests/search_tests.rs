use minigrep::search;
use minigrep::search_case_insensitive;
use minigrep::search_mode;
use minigrep::CaseMode;

#[test]
fn search_returns_correct_lines() {
    let query = "safe";
    let contents = "Rust:\nsafe, fast, productive.\nPick three.";
    let results = search(query, contents);
    assert_eq!(results, vec!["safe, fast, productive."]);
}

#[test]
fn search_case_insensitive_returns_correct_lines() {
    let query = "RUST";
    let contents = "Rust:\nsafe, fast, productive.\nPick three.";
    let results = search_case_insensitive(query, contents);
    assert_eq!(results, vec!["Rust:"]);
}

#[test]
fn search_sensitive_misses_on_case_mismatch() {
    let query = "RUST";
    let contents = "Rust:\nsafe, fast, productive.\nPick three.";
    let results = search(query, contents);
    assert_eq!(results, Vec::<&str>::new());
}

#[test]
fn empty_query_matches_every_line_sensitive() {
    let results = search("", "a\nb\nc");
    assert_eq!(results, vec!["a", "b", "c"]);
}

#[test]
fn empty_query_matches_every_line_insensitive() {
    let results = search_case_insensitive("", "a\nb\nc");
    assert_eq!(results, vec!["a", "b", "c"]);
}

#[test]
fn empty_body_yields_empty_result() {
    assert_eq!(search("abc", ""), Vec::<&str>::new());
    assert_eq!(search_case_insensitive("abc", ""), Vec::<&str>::new());
}

#[test]
fn no_matching_line_yields_empty_result() {
    let results = search("missing", "one\ntwo\nthree");
    assert_eq!(results, Vec::<&str>::new());
}

#[test]
fn search_twice_yields_identical_results() {
    let query = "o";
    let contents = "one\ntwo\nthree\nfour";
    assert_eq!(search(query, contents), search(query, contents));
    assert_eq!(
        search_case_insensitive(query, contents),
        search_case_insensitive(query, contents)
    );
}

#[test]
fn matches_keep_body_order_with_duplicates() {
    let results = search("ab", "ab\nxy\nab\ncab");
    assert_eq!(results, vec!["ab", "ab", "cab"]);
}

#[test]
fn insensitive_folds_non_ascii_letters() {
    let results = search_case_insensitive("\u{e4}pfel", "\u{c4}PFEL und Birnen\nnur Birnen");
    assert_eq!(results, vec!["\u{c4}PFEL und Birnen"]);
}

#[test]
fn search_mode_selects_the_comparison() {
    let contents = "Rust:\nsafe, fast, productive.\nPick three.";
    assert_eq!(
        search_mode("RUST", contents, CaseMode::Sensitive),
        Vec::<&str>::new()
    );
    assert_eq!(
        search_mode("RUST", contents, CaseMode::Insensitive),
        vec!["Rust:"]
    );
}
