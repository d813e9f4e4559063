use file_explorer::entry::{create_file_entry, FileEntry};
use file_explorer::order::{ranks_first, sort_entries};
use std::cmp::Ordering;

fn entry(name: &str, dir: bool, path: &str) -> FileEntry {
    create_file_entry(name.to_string(), dir, false, path.to_string(), 0, Some(0))
}

/// The listing order of the file explorer, written with `sort_by`.
fn sort_like_std(v: &mut Vec<FileEntry>) {
    v.sort_by(|a, b| match (a.is_directory, b.is_directory) {
        (true, false) => Ordering::Less,
        (false, true) => Ordering::Greater,
        _ => a.name.as_str().cmp(b.name.as_str()),
    });
}

fn names(v: &[FileEntry]) -> Vec<(String, bool, String)> {
    v.iter().map(|e| (e.name.clone(), e.is_directory, e.path.clone())).collect()
}

#[test]
fn directories_come_first_then_names() {
    let mut v = vec![
        entry("zeta.txt", false, "/a/zeta.txt"),
        entry("beta", true, "/a/beta"),
        entry("Alpha.txt", false, "/a/Alpha.txt"),
        entry("alpha", true, "/a/alpha"),
        entry("", false, "/a/"),
    ];
    sort_entries(&mut v);
    let got: Vec<&str> = v.iter().map(|e| e.name.as_str()).collect();
    assert_eq!(got, vec!["alpha", "beta", "", "Alpha.txt", "zeta.txt"]);
}

#[test]
fn sort_is_stable_for_equal_names() {
    let mut v = vec![
        entry("same", false, "/x/same"),
        entry("other", false, "/x/other"),
        entry("same", false, "/y/same"),
        entry("same", true, "/z/same"),
        entry("same", false, "/w/same"),
    ];
    sort_entries(&mut v);
    let got: Vec<&str> = v.iter().map(|e| e.path.as_str()).collect();
    assert_eq!(got, vec!["/z/same", "/x/other", "/x/same", "/y/same", "/w/same"]);
}

#[test]
fn sort_agrees_with_std_sort_by() {
    let words = ["a", "b", "ab", "B", "é", "z", "aa", "", "Z9", "a.b", "ä", "日本", "ab", "a"];
    let mut x: u64 = 7;
    for round in 0..300 {
        let mut v = Vec::new();
        let n = round % 25;
        for i in 0..n {
            x = x.wrapping_mul(6364136223846793005).wrapping_add(1442695040888963407);
            let w = words[(x >> 33) as usize % words.len()];
            let dir = (x >> 20) % 3 == 0;
            v.push(entry(w, dir, &format!("/p{}", i)));
        }
        let mut expected = names(&v).into_iter().map(|(n, d, p)| entry(&n, d, &p)).collect::<Vec<_>>();
        sort_like_std(&mut expected);
        sort_entries(&mut v);
        assert_eq!(names(&v), names(&expected));
    }
}

#[test]
fn sorting_twice_changes_nothing() {
    let mut v = vec![
        entry("b", false, "/b"),
        entry("a", false, "/a"),
        entry("c", true, "/c"),
    ];
    sort_entries(&mut v);
    let once = names(&v);
    sort_entries(&mut v);
    assert_eq!(names(&v), once);
}

#[test]
fn rank_comparison() {
    let d = entry("zzz", true, "/zzz");
    let f = entry("aaa", false, "/aaa");
    assert!(ranks_first(&d, &f));
    assert!(!ranks_first(&f, &d));
    assert!(!ranks_first(&f, &f));
    let g = entry("aab", false, "/aab");
    assert!(ranks_first(&f, &g));
    let h = entry("aa", false, "/aa");
    assert!(ranks_first(&h, &f));
}

#[test]
fn empty_listing_stays_empty() {
    let mut v: Vec<FileEntry> = Vec::new();
    sort_entries(&mut v);
    assert!(v.is_empty());
}

#[test]
fn large_listing_agrees_with_std_sort_by() {
    let mut v = Vec::new();
    let mut x: u64 = 99;
    for i in 0..20_000 {
        x = x.wrapping_mul(6364136223846793005).wrapping_add(1442695040888963407);
        let name = format!("f{}", (x >> 40) % 500);
        v.push(entry(&name, (x >> 7) % 4 == 0, &format!("/d/{}", i)));
    }
    let mut expected = names(&v).into_iter().map(|(n, d, p)| entry(&n, d, &p)).collect::<Vec<_>>();
    sort_like_std(&mut expected);
    sort_entries(&mut v);
    assert_eq!(names(&v), names(&expected));
}
