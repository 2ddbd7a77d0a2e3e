use minigrep::split_lines;
use minigrep::contains_substring;
use minigrep::Config;

#[test]
fn split_strips_bare_and_crlf_terminators() {
    assert_eq!(split_lines("a\r\nb\rc\nd"), vec!["a", "b\rc", "d"]);
}

#[test]
fn split_final_terminator_adds_no_line() {
    assert_eq!(split_lines("a\nb\n"), vec!["a", "b"]);
    assert_eq!(split_lines("a\nb"), vec!["a", "b"]);
}

#[test]
fn split_keeps_interior_empty_lines() {
    assert_eq!(split_lines("a\n\nb"), vec!["a", "", "b"]);
}

#[test]
fn split_of_empty_body_is_empty() {
    assert_eq!(split_lines(""), Vec::<&str>::new());
}

#[test]
fn contains_substring_is_exact() {
    assert!(contains_substring("three", "hre"));
    assert!(!contains_substring("three", "thre e"));
    assert!(contains_substring("three", ""));
    assert!(!contains_substring("", "x"));
}

#[test]
fn config_new_rejects_too_few_arguments() {
    let args = vec![String::from("prog"), String::from("query")];
    match Config::new(&args, true) {
        Err(e) => assert_eq!(e, "not enough arguments"),
        Ok(_) => panic!("expected an error"),
    }
}

#[test]
fn config_new_keeps_arguments_and_mode() {
    let args = vec![
        String::from("prog"),
        String::from("query"),
        String::from("filename"),
    ];
    let config = Config::new(&args, false).unwrap();
    assert_eq!(config.query, "query");
    assert_eq!(config.filename, "filename");
    assert!(!config.case_sensitive);
    let config = Config::new(&args, true).unwrap();
    assert!(config.case_sensitive);
}
