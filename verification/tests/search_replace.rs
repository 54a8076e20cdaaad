use secure_note::search::{plain_search, replace_byte_range, replace_plain, Search};
use secure_note::session::Session;
use secure_note::storage::Tab;

fn session_with(content: &str) -> Session {
    let mut s = Session::new();
    s.open_tabs(vec![Tab { id: 1, name: "n".to_string(), content: content.to_string(), locked: false }]);
    s
}

#[test]
fn plain_search_ignores_case() {
    assert_eq!(plain_search("Foo foo FOO", "foo"), vec![(0, 3), (4, 7), (8, 11)]);
    assert_eq!(plain_search("abc", "B"), vec![(1, 2)]);
}

#[test]
fn plain_search_matches_do_not_overlap() {
    assert_eq!(plain_search("aaaa", "aa"), vec![(0, 2), (2, 4)]);
    assert_eq!(plain_search("ab", "abc"), Vec::<(usize, usize)>::new());
}

#[test]
fn plain_search_reports_byte_ranges() {
    // 'é' takes two bytes
    assert_eq!(plain_search("é x", "x"), vec![(3, 4)]);
}

#[test]
fn empty_query_finds_nothing() {
    let mut s = Search::new();
    s.idx = 0;
    s.run_search("anything");
    assert!(s.results.is_empty());
    assert!(!s.regex_error);
}

#[test]
fn regex_search() {
    let mut s = Search::new();
    s.query = "[0-9]+".to_string();
    s.regex = true;
    s.run_search("a1 b22 c");
    assert_eq!(s.results, vec![(1, 2), (4, 6)]);
    assert!(!s.regex_error);
}

#[test]
fn regex_empty_matches_are_dropped() {
    let mut s = Search::new();
    s.query = "x*".to_string();
    s.regex = true;
    s.run_search("axb");
    assert_eq!(s.results, vec![(1, 2)]);
}

#[test]
fn invalid_regex_sets_the_error_flag() {
    let mut s = Search::new();
    s.query = "(".to_string();
    s.regex = true;
    s.run_search("((");
    assert!(s.regex_error);
    assert!(s.results.is_empty());
}

#[test]
fn current_match_falls_back_to_the_first() {
    let mut s = Search::new();
    s.query = "a".to_string();
    s.run_search("a a a");
    s.idx = 2;
    s.run_search("a a a");
    assert_eq!(s.idx, 2);
    s.run_search("a");
    assert_eq!(s.idx, 0);
}

#[test]
fn next_and_previous_wrap_around() {
    let mut s = Search::new();
    s.query = "x".to_string();
    s.run_search("x x x");
    s.next_match();
    assert_eq!(s.idx, 1);
    s.next_match();
    s.next_match();
    assert_eq!(s.idx, 0);
    s.prev_match();
    assert_eq!(s.idx, 2);
}

#[test]
fn replace_a_byte_range() {
    assert_eq!(replace_byte_range("hello world", 6, 11, "there"), "hello there");
    assert_eq!(replace_byte_range("é!", 0, 2, "e"), "e!");
}

#[test]
fn replace_plain_is_case_sensitive() {
    assert_eq!(replace_plain("a A a", "a", "b"), "b A b");
    assert_eq!(replace_plain("aaa", "aa", "x"), "xa");
}

#[test]
fn session_replace_current_then_searches_again() {
    let mut s = session_with("cat Cat cat");
    s.search.query = "cat".to_string();
    s.search.replace = "dog".to_string();
    s.run_search();
    assert_eq!(s.search.results.len(), 3);
    s.search.next_match();
    s.replace_current();
    assert_eq!(s.tabs[0].content, "cat dog cat");
    assert!(s.dirty);
    assert_eq!(s.search.results, vec![(0, 3), (8, 11)]);
    assert_eq!(s.search.idx, 1);
}

#[test]
fn session_replace_all_plain() {
    let mut s = session_with("one two one");
    s.search.query = "one".to_string();
    s.search.replace = "1".to_string();
    s.replace_all();
    assert_eq!(s.tabs[0].content, "1 two 1");
    assert!(s.search.results.is_empty());
}

#[test]
fn session_replace_all_regex() {
    let mut s = session_with("a1b22");
    s.search.query = "[0-9]+".to_string();
    s.search.replace = "#".to_string();
    s.search.regex = true;
    s.replace_all();
    assert_eq!(s.tabs[0].content, "a#b#");
}

#[test]
fn session_replace_all_with_bad_regex_changes_nothing() {
    let mut s = session_with("keep");
    s.search.query = "(".to_string();
    s.search.regex = true;
    s.replace_all();
    assert_eq!(s.tabs[0].content, "keep");
    assert!(!s.dirty);
    assert!(s.search.regex_error);
}

#[test]
fn session_search_without_tabs_finds_nothing() {
    let mut s = Session::new();
    s.search.query = "x".to_string();
    s.run_search();
    assert!(s.search.results.is_empty());
}
