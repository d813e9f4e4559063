use file_explorer::pattern::NamePattern;

#[test]
fn query_matches_case_insensitively() {
    let p = NamePattern::for_query("readme");
    assert!(p.matches("README.md"));
    assert!(p.matches("my-readme"));
    assert!(p.matches("ReadMe"));
    assert!(!p.matches("read me"));
}

#[test]
fn meta_characters_are_taken_literally() {
    let p = NamePattern::for_query("a.b");
    assert!(p.matches("xa.by"));
    assert!(!p.matches("axb"));
    let q = NamePattern::for_query("(x)+[y]*");
    assert!(q.matches("file (x)+[y]*.txt"));
    assert!(!q.matches("xxy"));
    let r = NamePattern::for_query("^$|\\#&-~");
    assert!(r.matches("a^$|\\#&-~b"));
    assert!(!r.matches(""));
}

#[test]
fn agrees_with_regex_built_like_the_explorer() {
    let queries = ["a.b", "Foo", "x+y", "ß", "日本", "c++", "[]", "{1}"];
    let names = ["A.B", "axb", "foo.rs", "X+Y", "SS", "ẞ", "日本語", "C++", "[]", "a{1}"];
    for q in queries {
        let p = NamePattern::for_query(q);
        let re = regex::RegexBuilder::new(&regex::escape(q))
            .case_insensitive(true)
            .build()
            .unwrap();
        for n in names {
            assert_eq!(p.matches(n), re.is_match(n), "{} / {}", q, n);
        }
    }
}

#[test]
fn empty_query_matches_everything() {
    let p = NamePattern::for_query("");
    assert!(p.matches(""));
    assert!(p.matches("anything"));
}
