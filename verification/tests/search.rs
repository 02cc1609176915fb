use minigrep::search::{search_folded, select_lines};
use minigrep::{search, search_case_insensitive, Config};

fn config(query: &str, case_sensitive: bool) -> Config {
    Config {
        query: String::from(query),
        filename: String::from("unused"),
        case_sensitive,
    }
}

#[test]
fn case_sensitive() {
    let query = "duct";
    let content = "\
        Rust:
safe, fast, productive.
Pick three.
Duck tape.
        ";
    assert_eq!(vec!["safe, fast, productive."], search(query, content))
}

#[test]
fn case_insensitive() {
    let query = "RuSt";
    let content = "\
        Rust:
safe, fast, productive.
Pick three.
Trust me.
        ";
    assert_eq!(
        vec!["Rust:", "Trust me."],
        search_case_insensitive(query, content)
    )
}

#[test]
fn sensitive_search_skips_line_in_other_case() {
    let content = "Rust:\nsafe, fast, productive.\nPick three.\nDuck tape.";
    assert_eq!(vec!["safe, fast, productive."], search("duct", content));
    assert_eq!(Vec::<&str>::new(), search("DUCT", content));
}

#[test]
fn insensitive_search_finds_mixed_case() {
    let content = "Rust:\nsafe, fast, productive.\nPick three.\nTrust me.";
    assert_eq!(
        vec!["Rust:", "Trust me."],
        search_case_insensitive("RuSt", content)
    );
}

#[test]
fn insensitive_search_is_same_for_every_case_of_query() {
    let content = "Rust:\nsafe, fast, productive.\nPick three.\nTrust me.\nRUSTY nail";
    let expected = vec!["Rust:", "Trust me.", "RUSTY nail"];
    assert_eq!(expected, search_case_insensitive("RuSt", content));
    assert_eq!(expected, search_case_insensitive("rust", content));
    assert_eq!(expected, search_case_insensitive("RUST", content));
}

#[test]
fn insensitive_search_folds_the_line() {
    assert_eq!(vec!["RUST"], search_case_insensitive("rust", "RUST\nrest"));
}

#[test]
fn insensitive_search_folds_the_query() {
    assert_eq!(vec!["rust"], search_case_insensitive("RUST", "rust\nrest"));
}

#[test]
fn insensitive_search_returns_lines_in_their_own_case() {
    assert_eq!(
        vec!["ÄPFEL und Birnen"],
        search_case_insensitive("äpfel", "ÄPFEL und Birnen\nApfel")
    );
}

#[test]
fn folded_search_does_not_fold_the_query() {
    assert_eq!(vec!["Rust", "rust"], search_folded("rust", "Rust\nrust\nrest"));
    assert_eq!(Vec::<&str>::new(), search_folded("Rust", "Rust\nrust\nrest"));
}

#[test]
fn empty_query_returns_every_line() {
    let content = "one\n\ntwo\r\nthree\n";
    let all = vec!["one", "", "two", "three"];
    assert_eq!(all, search("", content));
    assert_eq!(all, search_case_insensitive("", content));
}

#[test]
fn no_match_is_empty() {
    assert_eq!(Vec::<&str>::new(), search("absent", "one\ntwo\nthree"));
    assert_eq!(
        Vec::<&str>::new(),
        search_case_insensitive("absent", "one\ntwo\nthree")
    );
}

#[test]
fn empty_content_has_no_lines() {
    assert_eq!(Vec::<&str>::new(), search("", ""));
    assert_eq!(Vec::<&str>::new(), search("a", ""));
    assert_eq!(Vec::<&str>::new(), search_case_insensitive("", ""));
}

#[test]
fn line_with_several_occurrences_comes_once() {
    assert_eq!(vec!["abcabcabc"], search("abc", "abcabcabc\nxyz"));
}

#[test]
fn equal_lines_come_each() {
    assert_eq!(vec!["dup", "dup"], search("dup", "dup\nother\ndup\n"));
}

#[test]
fn order_of_lines_is_kept() {
    assert_eq!(
        vec!["b1", "a1", "c1"],
        search("1", "b1\nb2\na1\na2\nc1\nc2")
    );
}

#[test]
fn query_does_not_match_across_lines() {
    assert_eq!(Vec::<&str>::new(), search("ab", "a\nb"));
    assert_eq!(Vec::<&str>::new(), search("a\nb", "a\nb"));
}

#[test]
fn terminators_are_not_searched() {
    assert_eq!(Vec::<&str>::new(), search("\n", "a\nb\n"));
    assert_eq!(Vec::<&str>::new(), search("\r", "a\r\nb\r\n"));
    assert_eq!(Vec::<&str>::new(), search("\r", "a\rb\nc"));
}

#[test]
fn return_alone_ends_a_line() {
    assert_eq!(vec!["b"], search("b", "a\rb"));
    assert_eq!(vec!["a"], search("a", "a\r"));
    assert_eq!(vec!["a", "b", "c"], search("", "a\rb\nc\r\n"));
    assert_eq!(vec!["B"], search_case_insensitive("b", "a\rB\rc"));
}

#[test]
fn text_beyond_ascii_is_searched_by_character() {
    let content = "naïve café\nплохо\n日本語のテキスト\nplain";
    assert_eq!(vec!["naïve café"], search("é", content));
    assert_eq!(vec!["плохо"], search("ох", content));
    assert_eq!(vec!["日本語のテキスト"], search("語の", content));
    assert_eq!(vec!["naïve café", "plain"], search("a", content));
    assert_eq!(Vec::<&str>::new(), search("è", content));
}

#[test]
fn results_are_slices_of_the_content() {
    let content = String::from("first\nsecond\r\nthird");
    let found = search("d", &content);
    assert_eq!(vec!["second", "third"], found);
    let start = content.as_ptr() as usize;
    assert_eq!(start + 6, found[0].as_ptr() as usize);
    assert_eq!(start + 14, found[1].as_ptr() as usize);
}

#[test]
fn select_lines_follows_the_mode() {
    let content = "Rust:\nsafe, fast, productive.\nPick three.\nTrust me.";
    assert_eq!(vec!["Trust me."], select_lines(&config("rust", true), content));
    assert_eq!(
        vec!["Rust:", "Trust me."],
        select_lines(&config("rust", false), content)
    );
    assert_eq!(vec!["Rust:"], select_lines(&config("Rust", true), content));
}

#[test]
fn select_lines_returns_every_line_for_the_empty_query() {
    let content = "one\rtwo\r\n\nThree\n";
    let all = vec!["one", "two", "", "Three"];
    assert_eq!(all, select_lines(&config("", true), content));
    assert_eq!(all, select_lines(&config("", false), content));
}
