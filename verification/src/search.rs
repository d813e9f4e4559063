//! Breadth-first search of a directory tree for file names that match a
//! pattern.  The caller reads the directories; the search decides which
//! directory is read next and which entries are reported.

use vstd::prelude::*;
use std::collections::VecDeque;
use crate::pattern::{name_matches, regex_is_match, NamePattern};

verus! {

/// The state of a breadth-first search: the directories still to be read, in
/// the order they were found, and the pattern names are matched against.
pub struct DirectorySearch {
    queue: VecDeque<Vec<u8>>,
    pattern: NamePattern,
}

impl DirectorySearch {
    /// The directories still to be read, oldest first, as raw path bytes.
    pub closed spec fn pending(&self) -> Seq<Seq<u8>> {
        self.queue@.map_values(|d: Vec<u8>| d@)
    }

    /// The pattern that file names are matched against.
    pub closed spec fn pattern(&self) -> (Seq<char>, bool) {
        self.pattern@
    }

    /// A search that starts at the directory `root` (raw path bytes).
    pub fn new(root: Vec<u8>, pattern: NamePattern) -> (search: DirectorySearch)
        ensures
            search.pending() == seq![root@],
            search.pattern() == pattern@,
    {
        let mut queue: VecDeque<Vec<u8>> = VecDeque::new();
        queue.push_back(root);
        let search = DirectorySearch { queue, pattern };
        assert(search.pending() =~= seq![search.queue@[0]@]);
        search
    }

    /// The directory to read next: the one found longest ago, or `None` when
    /// the search is over.
    pub fn next_directory(&mut self) -> (dir: Option<Vec<u8>>)
        ensures
            final(self).pattern() == old(self).pattern(),
            old(self).pending().len() == 0 ==> dir is None && final(self).pending() == old(self).pending(),
            old(self).pending().len() > 0 ==> (dir matches Some(d) && d@ == old(self).pending()[0]),
            old(self).pending().len() > 0 ==> final(self).pending() == old(self).pending().drop_first(),
    {
        let ghost before = self.queue@;
        let dir = self.queue.pop_front();
        proof {
            if before.len() > 0 {
                assert(self.pending() =~= before.map_values(|d: Vec<u8>| d@).drop_first());
            }
        }
        dir
    }

    /// Takes in one entry of the directory just read: a directory is queued to
    /// be read after all those found before it, and the result says whether
    /// the entry's name matches the pattern, so that it is reported.
    pub fn visit_entry(&mut self, path: Vec<u8>, is_directory: bool, file_name: &str) -> (report: bool)
        ensures
            final(self).pattern() == old(self).pattern(),
            final(self).pending() == (if is_directory {
                old(self).pending().push(path@)
            } else {
                old(self).pending()
            }),
            report == name_matches(old(self).pattern(), file_name@),
            report == regex_is_match(old(self).pattern().0, old(self).pattern().1, file_name@),
    {
        if is_directory {
            let ghost before = self.queue@;
            self.queue.push_back(path);
            assert(self.pending() =~= before.map_values(|d: Vec<u8>| d@).push(self.queue@.last()@));
        }
        self.pattern.matches(file_name)
    }
}

} // verus!
