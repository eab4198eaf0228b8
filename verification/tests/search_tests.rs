use minigrep::search;
use minigrep::search_case_insentive;

const SAMPLE_CONTENT: &str = "Rust:\nsafe, fast, productive.\nPick three.\nDuct tape.\nTrust Me.";

#[test]
fn case_sensitive_search() {
    let query = "duct";

    assert_eq!(vec!["safe, fast, productive."], search(query, SAMPLE_CONTENT))
}

#[test]
fn case_insensitive_search() {
    let query = "rUst";

    assert_eq!(vec!["Rust:", "Trust Me."], search_case_insentive(query, SAMPLE_CONTENT))
}

#[test]
fn empty_query_returns_all_lines() {
    let all_lines = vec!["Rust:", "safe, fast, productive.", "Pick three.", "Duct tape.", "Trust Me."];
    assert_eq!(all_lines, search("", SAMPLE_CONTENT));
    assert_eq!(all_lines, search_case_insentive("", SAMPLE_CONTENT));
}

#[test]
fn empty_contents_give_no_matches() {
    assert_eq!(Vec::<&str>::new(), search("x", ""));
    assert_eq!(Vec::<&str>::new(), search_case_insentive("x", ""));
    assert_eq!(Vec::<&str>::new(), search("", ""));
    assert_eq!(Vec::<&str>::new(), search_case_insentive("", ""));
}

#[test]
fn search_is_idempotent() {
    let first = search("t", SAMPLE_CONTENT);
    let second = search("t", SAMPLE_CONTENT);
    assert_eq!(first, second);
    let ci_first = search_case_insentive("T", SAMPLE_CONTENT);
    let ci_second = search_case_insentive("T", SAMPLE_CONTENT);
    assert_eq!(ci_first, ci_second);
}

#[test]
fn insensitive_search_keeps_sensitive_matches() {
    let sens = search("Rust", SAMPLE_CONTENT);
    let insens = search_case_insentive("Rust", SAMPLE_CONTENT);
    assert_eq!(vec!["Rust:"], sens);
    assert_eq!(vec!["Rust:", "Trust Me."], insens);
    for line in sens {
        assert!(insens.contains(&line));
    }
}

#[test]
fn searches_agree_on_lowercase_inputs() {
    let contents = "one fish\ntwo fish\nred fish";
    assert_eq!(search("fish", contents), search_case_insentive("fish", contents));
    assert_eq!(search("two", contents), search_case_insentive("two", contents));
    assert_eq!(search("absent", contents), search_case_insentive("absent", contents));
}

#[test]
fn crlf_line_endings_are_stripped() {
    let contents = "alpha\r\nbeta\ngamma\r\n";
    assert_eq!(vec!["alpha", "beta", "gamma"], search("", contents));
    assert_eq!(vec!["alpha"], search("alpha", contents));
}

#[test]
fn final_line_without_newline_is_kept() {
    assert_eq!(vec!["tail"], search("tail", "head\ntail"));
    assert_eq!(vec!["x\r"], search("x", "x\r"));
}

#[test]
fn non_ascii_text_is_searched() {
    let contents = "caf\u{e9} au lait\nplain milk";
    assert_eq!(vec!["caf\u{e9} au lait"], search("caf\u{e9}", contents));
    assert_eq!(vec!["caf\u{e9} au lait"], search_case_insentive("CAF\u{c9}", contents));
    assert_eq!(Vec::<&str>::new(), search("CAF\u{c9}", contents));
}

#[test]
fn whitespace_only_lines_are_handled() {
    let contents = "   \n\nword";
    assert_eq!(vec!["   ", "", "word"], search("", contents));
    assert_eq!(vec!["   "], search(" ", contents));
}
