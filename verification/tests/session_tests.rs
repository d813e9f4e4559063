use file_explorer::session::{Navigator, SearchAction, SearchState};

#[test]
fn typing_starts_a_search_and_clearing_ends_it() {
    let mut s = SearchState::new();
    assert!(!s.is_searching());
    assert_eq!(s.on_text_changed("foo".to_string()), SearchAction::Search("foo".to_string()));
    assert!(s.is_searching());
    assert_eq!(s.query(), "foo");
    assert_eq!(s.on_text_changed(String::new()), SearchAction::ShowListing);
    assert!(!s.is_searching());
    assert_eq!(s.query(), "");
}

#[test]
fn submitting_repeats_the_last_query() {
    let mut s = SearchState::new();
    assert_eq!(s.on_submitted(), SearchAction::Nothing);
    assert!(!s.is_searching());
    s.on_text_changed("bar".to_string());
    s.on_search_finished();
    assert!(!s.is_searching());
    assert_eq!(s.on_submitted(), SearchAction::Search("bar".to_string()));
    assert!(s.is_searching());
}

#[test]
fn finishing_ends_the_search_but_keeps_the_query() {
    let mut s = SearchState::new();
    s.on_text_changed("q".to_string());
    s.on_search_finished();
    assert!(!s.is_searching());
    assert_eq!(s.query(), "q");
}

#[test]
fn begin_search_with_empty_query_does_nothing() {
    let mut s = SearchState::new();
    assert!(!s.begin_search(""));
    assert!(!s.is_searching());
    assert!(s.begin_search("x"));
    assert!(s.is_searching());
    assert!(!s.begin_search(""));
    assert!(!s.is_searching());
}

#[test]
fn navigation() {
    let mut n = Navigator::new("/".to_string());
    assert_eq!(n.current(), "/");
    assert!(!n.navigate("/nowhere".to_string(), false));
    assert_eq!(n.current(), "/");
    assert!(n.navigate("/usr/lib".to_string(), true));
    assert_eq!(n.current(), "/usr/lib");
    assert!(n.go_up(Some("/usr".to_string())));
    assert_eq!(n.current(), "/usr");
    n.go_to_root();
    assert_eq!(n.current(), "/");
    assert!(!n.go_up(None));
    assert_eq!(n.current(), "/");
}
