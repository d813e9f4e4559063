use file_explorer::pattern::NamePattern;
use file_explorer::search::DirectorySearch;

#[test]
fn directories_are_read_in_the_order_found() {
    let mut s = DirectorySearch::new(b"/".to_vec(), NamePattern::for_query("log"));
    assert_eq!(s.next_directory(), Some(b"/".to_vec()));
    assert!(!s.visit_entry(b"/etc".to_vec(), true, "etc"));
    assert!(s.visit_entry(b"/syslog".to_vec(), false, "syslog"));
    assert!(s.visit_entry(b"/logs".to_vec(), true, "logs"));
    assert_eq!(s.next_directory(), Some(b"/etc".to_vec()));
    assert!(!s.visit_entry(b"/etc/passwd".to_vec(), false, "passwd"));
    assert!(!s.visit_entry(b"/etc/ssh".to_vec(), true, "ssh"));
    assert_eq!(s.next_directory(), Some(b"/logs".to_vec()));
    assert!(s.visit_entry(b"/logs/LOG.1".to_vec(), false, "LOG.1"));
    assert_eq!(s.next_directory(), Some(b"/etc/ssh".to_vec()));
    assert_eq!(s.next_directory(), None);
    assert_eq!(s.next_directory(), None);
}

#[test]
fn files_are_never_queued() {
    let mut s = DirectorySearch::new(b"/r".to_vec(), NamePattern::for_query("x"));
    assert_eq!(s.next_directory(), Some(b"/r".to_vec()));
    assert!(s.visit_entry(b"/r/x".to_vec(), false, "x"));
    assert_eq!(s.next_directory(), None);
}

#[test]
fn non_utf8_paths_are_kept_byte_for_byte() {
    let root = vec![b'/', 0xff, 0xfe];
    let mut s = DirectorySearch::new(root.clone(), NamePattern::for_query("q"));
    assert_eq!(s.next_directory(), Some(root));
}
