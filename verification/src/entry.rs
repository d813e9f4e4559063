//! One row of a listing and the facts that decide how it is shown.

use vstd::prelude::*;
use crate::format::{format_size, format_time, size_text, time_text};

verus! {

/// A file or directory as shown in a listing or among search results.
#[derive(Debug, PartialEq, Eq)]
pub struct FileEntry {
    /// The last component of the path.
    pub name: String,
    pub is_directory: bool,
    pub is_executable: bool,
    /// The full path.
    pub path: String,
    /// The size, formatted by `format_size`.
    pub size: String,
    /// The modification time, formatted by `format_time`.
    pub modified: String,
}

/// Builds the row for a file from what its metadata says: its name and path,
/// whether it is a directory or executable, its length in bytes, and its
/// modification time in whole seconds since the epoch (`None` before it).
pub fn create_file_entry(
    name: String,
    is_directory: bool,
    is_executable: bool,
    path: String,
    len: u64,
    modified_since_epoch: Option<u64>,
) -> (entry: FileEntry)
    ensures
        entry.name@ == name@,
        entry.is_directory == is_directory,
        entry.is_executable == is_executable,
        entry.path@ == path@,
        entry.size@ == size_text(len as nat),
        entry.modified@ == time_text(modified_since_epoch),
{
    FileEntry {
        name,
        is_directory,
        is_executable,
        path,
        size: format_size(len),
        modified: format_time(modified_since_epoch),
    }
}

/// The permission bits that let someone execute a file: owner, group, other.
pub const EXECUTE_BITS: u32 = 0o111;

/// Whether Unix permission bits `mode` let anyone execute the file; a file
/// whose metadata could not be read (`None`) counts as not executable.
pub fn is_executable(mode: Option<u32>) -> (executable: bool)
    ensures
        executable == match mode {
            Some(m) => m & EXECUTE_BITS != 0,
            None => false,
        },
{
    match mode {
        Some(m) => m & EXECUTE_BITS != 0,
        None => false,
    }
}

/// `c` with an ASCII capital letter turned into its small letter.
pub open spec fn ascii_lower(c: char) -> char {
    if 'A' <= c && c <= 'Z' {
        ((c as u32) + 32) as char
    } else {
        c
    }
}

/// Whether `s` equals `word` (given in small letters) ignoring ASCII case.
pub open spec fn equals_ignoring_ascii_case(s: Seq<char>, word: Seq<char>) -> bool {
    &&& s.len() == word.len()
    &&& forall|i: int| 0 <= i < s.len() ==> ascii_lower(#[trigger] s[i]) == word[i]
}

/// Whether a file extension marks an executable on Windows: "exe", "bat", "cmd"
/// or "com" in any ASCII case.
pub open spec fn executable_extension(ext: Seq<char>) -> bool {
    ||| equals_ignoring_ascii_case(ext, seq!['e', 'x', 'e'])
    ||| equals_ignoring_ascii_case(ext, seq!['b', 'a', 't'])
    ||| equals_ignoring_ascii_case(ext, seq!['c', 'm', 'd'])
    ||| equals_ignoring_ascii_case(ext, seq!['c', 'o', 'm'])
}

/// A character lowers to the small letter `l` exactly when it is `l` or its
/// capital `u`.
proof fn lemma_lower_is(c: char, l: char, u: char)
    requires
        'a' <= l <= 'z',
        (u as u32) + 32 == l as u32,
    ensures
        (ascii_lower(c) == l) == (c == l || c == u),
{
}

/// The extensions that count as executable are exactly "exe", "bat", "cmd"
/// and "com", each letter in either case, and nothing else.
pub proof fn lemma_executable_extensions(ext: Seq<char>)
    ensures
        executable_extension(ext) == (ext.len() == 3 && ((
            (ext[0] == 'e' || ext[0] == 'E') && (ext[1] == 'x' || ext[1] == 'X') && (ext[2] == 'e' || ext[2] == 'E')) || (
            (ext[0] == 'b' || ext[0] == 'B') && (ext[1] == 'a' || ext[1] == 'A') && (ext[2] == 't' || ext[2] == 'T')) || (
            (ext[0] == 'c' || ext[0] == 'C') && (ext[1] == 'm' || ext[1] == 'M') && (ext[2] == 'd' || ext[2] == 'D')) || (
            (ext[0] == 'c' || ext[0] == 'C') && (ext[1] == 'o' || ext[1] == 'O') && (ext[2] == 'm' || ext[2] == 'M')))),
{
    if ext.len() == 3 {
        let w1 = seq!['e', 'x', 'e'];
        let w2 = seq!['b', 'a', 't'];
        let w3 = seq!['c', 'm', 'd'];
        let w4 = seq!['c', 'o', 'm'];
        assert forall|w: Seq<char>| w.len() == 3 implies (equals_ignoring_ascii_case(ext, w) <==> (
            ascii_lower(ext[0]) == w[0] && ascii_lower(ext[1]) == w[1] && ascii_lower(ext[2]) == w[2])) by {
            if ascii_lower(ext[0]) == w[0] && ascii_lower(ext[1]) == w[1] && ascii_lower(ext[2]) == w[2] {
                assert forall|i: int| 0 <= i < ext.len() implies ascii_lower(#[trigger] ext[i]) == w[i] by {
                    if i == 0 {
                    } else if i == 1 {
                    } else {
                    }
                }
            }
        }
        assert(w1[0] == 'e' && w1[1] == 'x' && w1[2] == 'e');
        assert(w2[0] == 'b' && w2[1] == 'a' && w2[2] == 't');
        assert(w3[0] == 'c' && w3[1] == 'm' && w3[2] == 'd');
        assert(w4[0] == 'c' && w4[1] == 'o' && w4[2] == 'm');
        lemma_lower_is(ext[0], 'e', 'E');
        lemma_lower_is(ext[0], 'x', 'X');
        lemma_lower_is(ext[0], 'b', 'B');
        lemma_lower_is(ext[0], 'a', 'A');
        lemma_lower_is(ext[0], 't', 'T');
        lemma_lower_is(ext[0], 'c', 'C');
        lemma_lower_is(ext[0], 'm', 'M');
        lemma_lower_is(ext[0], 'd', 'D');
        lemma_lower_is(ext[0], 'o', 'O');
        lemma_lower_is(ext[1], 'e', 'E');
        lemma_lower_is(ext[1], 'x', 'X');
        lemma_lower_is(ext[1], 'b', 'B');
        lemma_lower_is(ext[1], 'a', 'A');
        lemma_lower_is(ext[1], 't', 'T');
        lemma_lower_is(ext[1], 'c', 'C');
        lemma_lower_is(ext[1], 'm', 'M');
        lemma_lower_is(ext[1], 'd', 'D');
        lemma_lower_is(ext[1], 'o', 'O');
        lemma_lower_is(ext[2], 'e', 'E');
        lemma_lower_is(ext[2], 'x', 'X');
        lemma_lower_is(ext[2], 'b', 'B');
        lemma_lower_is(ext[2], 'a', 'A');
        lemma_lower_is(ext[2], 't', 'T');
        lemma_lower_is(ext[2], 'c', 'C');
        lemma_lower_is(ext[2], 'm', 'M');
        lemma_lower_is(ext[2], 'd', 'D');
        lemma_lower_is(ext[2], 'o', 'O');
    }
}

fn lower(c: char) -> (r: char)
    ensures
        r == ascii_lower(c),
{
    if 'A' <= c && c <= 'Z' {
        let u: u32 = (c as u32) + 32;
        let b: u8 = u as u8;
        b as char
    } else {
        c
    }
}

/// Whether the three characters `a`, `b`, `c` spell `word` ignoring ASCII case.
fn spells(a: char, b: char, c: char, word: (char, char, char)) -> (r: bool)
    ensures
        r == (ascii_lower(a) == word.0 && ascii_lower(b) == word.1 && ascii_lower(c) == word.2),
{
    lower(a) == word.0 && lower(b) == word.1 && lower(c) == word.2
}

/// Whether a file extension marks an executable on Windows ("exe", "bat",
/// "cmd", "com", in any ASCII case).
pub fn is_executable_extension(ext: &str) -> (executable: bool)
    ensures
        executable == executable_extension(ext@),
        executable == (ext@.len() == 3 && ((
            (ext@[0] == 'e' || ext@[0] == 'E') && (ext@[1] == 'x' || ext@[1] == 'X') && (ext@[2] == 'e' || ext@[2] == 'E')) || (
            (ext@[0] == 'b' || ext@[0] == 'B') && (ext@[1] == 'a' || ext@[1] == 'A') && (ext@[2] == 't' || ext@[2] == 'T')) || (
            (ext@[0] == 'c' || ext@[0] == 'C') && (ext@[1] == 'm' || ext@[1] == 'M') && (ext@[2] == 'd' || ext@[2] == 'D')) || (
            (ext@[0] == 'c' || ext@[0] == 'C') && (ext@[1] == 'o' || ext@[1] == 'O') && (ext@[2] == 'm' || ext@[2] == 'M')))),
{
    proof {
        lemma_executable_extensions(ext@);
    }
    let n = ext.unicode_len();
    if n != 3 {
        return false;
    }
    let a = ext.get_char(0);
    let b = ext.get_char(1);
    let c = ext.get_char(2);
    let r = spells(a, b, c, ('e', 'x', 'e')) || spells(a, b, c, ('b', 'a', 't'))
        || spells(a, b, c, ('c', 'm', 'd')) || spells(a, b, c, ('c', 'o', 'm'));
    proof {
        let e = ext@;
        assert(e =~= seq![a, b, c]);
        assert(forall|w: Seq<char>| w.len() == 3 ==> (equals_ignoring_ascii_case(e, w) <==> (
            ascii_lower(a) == w[0] && ascii_lower(b) == w[1] && ascii_lower(c) == w[2]))) by {
            assert forall|w: Seq<char>| w.len() == 3 && ascii_lower(a) == w[0] && ascii_lower(b)
                == w[1] && ascii_lower(c) == w[2] implies equals_ignoring_ascii_case(e, w) by {
                assert forall|i: int| 0 <= i < e.len() implies ascii_lower(#[trigger] e[i]) == w[i] by {
                    if i == 0 {
                    } else if i == 1 {
                    } else {
                    }
                }
            }
            assert forall|w: Seq<char>| w.len() == 3 && equals_ignoring_ascii_case(e, w) implies (
                ascii_lower(a) == w[0] && ascii_lower(b) == w[1] && ascii_lower(c) == w[2]) by {
                assert(ascii_lower(e[0]) == w[0]);
                assert(ascii_lower(e[1]) == w[1]);
                assert(ascii_lower(e[2]) == w[2]);
            }
        }
    }
    r
}

} // verus!
