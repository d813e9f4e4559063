//! The order of a listing: directories first, then by name, byte by byte as
//! `str` compares; entries of equal rank keep the order they came in.

use vstd::prelude::*;
use vstd::utf8::encode_utf8;
use crate::entry::FileEntry;

verus! {

broadcast use vstd::seq_lib::group_seq_properties;

// ---------------------------------------------------------------------------
// Lexicographic order on bytes
// ---------------------------------------------------------------------------

/// `a` comes strictly before `b` in lexicographic byte order (a proper prefix
/// comes first).
pub open spec fn bytes_before(a: Seq<u8>, b: Seq<u8>) -> bool
    decreases a.len(),
{
    if b.len() == 0 {
        false
    } else if a.len() == 0 {
        true
    } else if a[0] != b[0] {
        a[0] < b[0]
    } else {
        bytes_before(a.drop_first(), b.drop_first())
    }
}

/// No byte string comes before itself.
pub proof fn lemma_bytes_before_irreflexive(a: Seq<u8>)
    ensures
        !bytes_before(a, a),
    decreases a.len(),
{
    if a.len() > 0 {
        lemma_bytes_before_irreflexive(a.drop_first());
    }
}

/// Lexicographic order is transitive.
pub proof fn lemma_bytes_before_transitive(a: Seq<u8>, b: Seq<u8>, c: Seq<u8>)
    requires
        bytes_before(a, b),
        bytes_before(b, c),
    ensures
        bytes_before(a, c),
    decreases a.len(),
{
    if a.len() > 0 && b.len() > 0 && c.len() > 0 && a[0] == b[0] && b[0] == c[0] {
        lemma_bytes_before_transitive(a.drop_first(), b.drop_first(), c.drop_first());
    }
}

/// Of two different byte strings, one comes before the other.
pub proof fn lemma_bytes_before_total(a: Seq<u8>, b: Seq<u8>)
    ensures
        a == b || bytes_before(a, b) || bytes_before(b, a),
    decreases a.len(),
{
    if a.len() > 0 && b.len() > 0 && a[0] == b[0] {
        lemma_bytes_before_total(a.drop_first(), b.drop_first());
        if a.drop_first() == b.drop_first() {
            assert(a =~= seq![a[0]] + a.drop_first());
            assert(b =~= seq![b[0]] + b.drop_first());
        }
    } else if a.len() == 0 && b.len() == 0 {
        assert(a =~= b);
    }
}

/// A common prefix does not decide the order.
proof fn lemma_bytes_before_skip(a: Seq<u8>, b: Seq<u8>, i: int)
    requires
        0 <= i < a.len(),
        i < b.len(),
        a[i] == b[i],
    ensures
        bytes_before(a.skip(i), b.skip(i)) == bytes_before(a.skip(i + 1), b.skip(i + 1)),
{
    assert(a.skip(i).drop_first() =~= a.skip(i + 1));
    assert(b.skip(i).drop_first() =~= b.skip(i + 1));
}

/// `a` precedes `b` in byte order: they agree on the first `k` bytes, and
/// then either `a` ends while `b` goes on, or `a` has the smaller byte.
pub open spec fn precedes_in_byte_order(a: Seq<u8>, b: Seq<u8>) -> bool {
    exists|k: int|
        0 <= k <= a.len() && k <= b.len() && #[trigger] a.take(k) == b.take(k) && ((k == a.len()
            && k < b.len()) || (k < a.len() && k < b.len() && a[k] < b[k]))
}

/// `bytes_before` is exactly the order "first difference decides, a proper
/// prefix comes first".
pub proof fn lemma_bytes_before_is_byte_order(a: Seq<u8>, b: Seq<u8>)
    ensures
        bytes_before(a, b) == precedes_in_byte_order(a, b),
    decreases a.len(),
{
    if b.len() == 0 {
        if precedes_in_byte_order(a, b) {
            let k = choose|k: int|
                0 <= k <= a.len() && k <= b.len() && #[trigger] a.take(k) == b.take(k) && ((k
                    == a.len() && k < b.len()) || (k < a.len() && k < b.len() && a[k] < b[k]));
        }
    } else if a.len() == 0 {
        assert(a.take(0) =~= b.take(0));
    } else if a[0] != b[0] {
        if a[0] < b[0] {
            assert(a.take(0) =~= b.take(0));
        }
        if precedes_in_byte_order(a, b) {
            let k = choose|k: int|
                0 <= k <= a.len() && k <= b.len() && #[trigger] a.take(k) == b.take(k) && ((k
                    == a.len() && k < b.len()) || (k < a.len() && k < b.len() && a[k] < b[k]));
            if k > 0 {
                assert(a.take(k)[0] == b.take(k)[0]);
            }
        }
    } else {
        let a1 = a.drop_first();
        let b1 = b.drop_first();
        lemma_bytes_before_is_byte_order(a1, b1);
        if precedes_in_byte_order(a1, b1) {
            let k = choose|k: int|
                0 <= k <= a1.len() && k <= b1.len() && #[trigger] a1.take(k) == b1.take(k) && ((k
                    == a1.len() && k < b1.len()) || (k < a1.len() && k < b1.len() && a1[k]
                    < b1[k]));
            assert(a.take(k + 1) =~= seq![a[0]] + a1.take(k));
            assert(b.take(k + 1) =~= seq![b[0]] + b1.take(k));
        }
        if precedes_in_byte_order(a, b) {
            let k = choose|k: int|
                0 <= k <= a.len() && k <= b.len() && #[trigger] a.take(k) == b.take(k) && ((k
                    == a.len() && k < b.len()) || (k < a.len() && k < b.len() && a[k] < b[k]));
            if k == 0 {
            } else {
                assert(a1.take(k - 1) =~= a.take(k).drop_first());
                assert(b1.take(k - 1) =~= b.take(k).drop_first());
                if k < a.len() && k < b.len() {
                    assert(a1[k - 1] == a[k]);
                    assert(b1[k - 1] == b[k]);
                }
            }
        }
    }
}

/// Whether `a` comes strictly before `b` byte by byte.
pub fn bytes_come_before(a: &[u8], b: &[u8]) -> (before: bool)
    ensures
        before == bytes_before(a@, b@),
{
    let mut i: usize = 0;
    assert(a@.skip(0) =~= a@);
    assert(b@.skip(0) =~= b@);
    while i < a.len() && i < b.len()
        invariant
            i <= a@.len(),
            i <= b@.len(),
            bytes_before(a@, b@) == bytes_before(a@.skip(i as int), b@.skip(i as int)),
        decreases a@.len() - i,
    {
        if a[i] != b[i] {
            return a[i] < b[i];
        }
        proof {
            lemma_bytes_before_skip(a@, b@, i as int);
        }
        i = i + 1;
    }
    i < b.len()
}

// ---------------------------------------------------------------------------
// Rank of an entry
// ---------------------------------------------------------------------------

/// The bytes by which names are compared: the name's UTF-8 encoding.
pub open spec fn name_key(e: FileEntry) -> Seq<u8> {
    encode_utf8(e.name@)
}

/// `a` is listed before `b` whatever their input order: a directory before a
/// file, and within each kind the smaller name first.
pub open spec fn ranks_before(a: FileEntry, b: FileEntry) -> bool {
    ||| a.is_directory && !b.is_directory
    ||| a.is_directory == b.is_directory && bytes_before(name_key(a), name_key(b))
}

/// `a` and `b` have the same rank: same kind and same name.
pub open spec fn same_rank(a: FileEntry, b: FileEntry) -> bool {
    a.is_directory == b.is_directory && name_key(a) == name_key(b)
}

/// Exactly one of: `a` ranks before `b`, `b` ranks before `a`, same rank.
pub proof fn lemma_rank_trichotomy(a: FileEntry, b: FileEntry)
    ensures
        ranks_before(a, b) || ranks_before(b, a) || same_rank(a, b),
        !(ranks_before(a, b) && ranks_before(b, a)),
        same_rank(a, b) ==> !ranks_before(a, b),
{
    lemma_bytes_before_total(name_key(a), name_key(b));
    lemma_bytes_before_irreflexive(name_key(a));
    if bytes_before(name_key(a), name_key(b)) && bytes_before(name_key(b), name_key(a)) {
        lemma_bytes_before_transitive(name_key(a), name_key(b), name_key(a));
    }
}

/// Ranking is transitive.
pub proof fn lemma_rank_transitive(a: FileEntry, b: FileEntry, c: FileEntry)
    requires
        ranks_before(a, b),
        ranks_before(b, c),
    ensures
        ranks_before(a, c),
{
    if a.is_directory == b.is_directory && b.is_directory == c.is_directory {
        lemma_bytes_before_transitive(name_key(a), name_key(b), name_key(c));
    }
}

/// In a sorted listing every directory comes before every file, and of two
/// entries of the same kind with different names the one listed first has the
/// whole name that comes first in byte order (the order of `str::cmp`).
pub proof fn lemma_sorted_listing_order(s: Seq<FileEntry>, i: int, j: int)
    requires
        listing_sorted(s),
        0 <= i < j < s.len(),
    ensures
        s[j].is_directory ==> s[i].is_directory,
        s[i].is_directory == s[j].is_directory && s[i].name@ != s[j].name@ ==> precedes_in_byte_order(
            encode_utf8(s[i].name@),
            encode_utf8(s[j].name@),
        ),
{
    let a = encode_utf8(s[i].name@);
    let b = encode_utf8(s[j].name@);
    assert(!ranks_before(s[j], s[i]));
    if s[i].is_directory == s[j].is_directory && s[i].name@ != s[j].name@ {
        vstd::utf8::encode_utf8_decode_utf8(s[i].name@);
        vstd::utf8::encode_utf8_decode_utf8(s[j].name@);
        assert(a != b);
        lemma_bytes_before_total(a, b);
        lemma_bytes_before_is_byte_order(a, b);
    }
}

/// Listed order: no entry ranks before one listed earlier.
pub open spec fn listing_sorted(s: Seq<FileEntry>) -> bool {
    forall|i: int, j: int| 0 <= i < j < s.len() ==> !ranks_before(#[trigger] s[j], #[trigger] s[i])
}

/// The entries of `s` that have the same rank as `e`, in their order in `s`.
pub open spec fn rank_class(s: Seq<FileEntry>, e: FileEntry) -> Seq<FileEntry> {
    s.filter(|x: FileEntry| same_rank(x, e))
}

/// `t` holds the entries of `s`, and entries of equal rank stand in the same
/// order in both.
pub open spec fn same_classes(s: Seq<FileEntry>, t: Seq<FileEntry>) -> bool {
    forall|e: FileEntry| #[trigger] rank_class(s, e) == rank_class(t, e)
}

/// Whether `a` is listed before `b` whatever their input order.
pub fn ranks_first(a: &FileEntry, b: &FileEntry) -> (before: bool)
    ensures
        before == ranks_before(*a, *b),
        before == ((a.is_directory && !b.is_directory) || (a.is_directory == b.is_directory
            && precedes_in_byte_order(encode_utf8(a.name@), encode_utf8(b.name@)))),
{
    proof {
        lemma_bytes_before_is_byte_order(encode_utf8(a.name@), encode_utf8(b.name@));
    }
    if a.is_directory != b.is_directory {
        a.is_directory
    } else {
        bytes_come_before(a.name.as_str().as_bytes(), b.name.as_str().as_bytes())
    }
}

/// A sequence none of whose entries has the rank of `e` has an empty class.
proof fn lemma_class_empty(s: Seq<FileEntry>, e: FileEntry)
    requires
        forall|i: int| 0 <= i < s.len() ==> !same_rank(#[trigger] s[i], e),
    ensures
        rank_class(s, e) == Seq::<FileEntry>::empty(),
    decreases s.len(),
{
    reveal(Seq::filter);
    if s.len() > 0 {
        assert(!same_rank(s[s.len() - 1], e));
        lemma_class_empty(s.drop_last(), e);
    }
}

/// The class of `e` in a non-empty `s` starts with `s[0]` when it has that rank.
proof fn lemma_class_front(s: Seq<FileEntry>, e: FileEntry)
    requires
        s.len() > 0,
    ensures
        rank_class(s, e) == (if same_rank(s[0], e) {
            seq![s[0]]
        } else {
            Seq::<FileEntry>::empty()
        }) + rank_class(s.drop_first(), e),
{
    let p = |y: FileEntry| same_rank(y, e);
    s.drop_first().lemma_filter_prepend(s[0], p);
    assert(s =~= seq![s[0]] + s.drop_first());
}

/// If `a` ranks before the first entry of a sorted `t`, then no entry of `t`
/// has the rank of `a`.
proof fn lemma_rank_absent(t: Seq<FileEntry>, a: FileEntry)
    requires
        listing_sorted(t),
        t.len() > 0,
        ranks_before(a, t[0]),
    ensures
        !rank_class(t, a).contains(a),
{
    let p = |y: FileEntry| same_rank(y, a);
    if rank_class(t, a).contains(a) {
        t.lemma_filter_contains_rev(p, a);
        let k = choose|k: int| 0 <= k < t.len() && t[k] == a;
        lemma_rank_trichotomy(a, t[0]);
        if k > 0 {
            assert(!ranks_before(t[k], t[0]));
        }
    }
}

/// The listed order is fixed by the entries alone: two sorted listings that
/// hold the entries of each rank in the same order are equal.  So sorting is
/// deterministic, and sorting a sorted listing leaves it as it is.
pub proof fn lemma_sorted_listing_unique(s: Seq<FileEntry>, t: Seq<FileEntry>)
    requires
        listing_sorted(s),
        listing_sorted(t),
        same_classes(s, t),
    ensures
        s == t,
    decreases s.len() + t.len(),
{
    if s.len() == 0 && t.len() == 0 {
        assert(s =~= t);
    } else if s.len() == 0 || t.len() == 0 {
        let (u, v) = if s.len() == 0 { (t, s) } else { (s, t) };
        let e = u[0];
        lemma_class_front(u, e);
        lemma_rank_trichotomy(e, e);
        assert(rank_class(v, e) =~= Seq::<FileEntry>::empty()) by {
            reveal(Seq::filter);
        }
        assert(rank_class(u, e).len() > 0);
        assert(rank_class(s, e) == rank_class(t, e));
    } else {
        let a = s[0];
        let b = t[0];
        lemma_rank_trichotomy(a, a);
        lemma_rank_trichotomy(b, b);
        lemma_rank_trichotomy(a, b);
        lemma_class_front(s, a);
        lemma_class_front(t, b);
        assert(rank_class(s, a)[0] == a);
        assert(rank_class(t, b)[0] == b);
        assert(rank_class(s, a) == rank_class(t, a));
        assert(rank_class(s, b) == rank_class(t, b));
        if ranks_before(a, b) {
            lemma_rank_absent(t, a);
            assert(rank_class(t, a).contains(a));
        }
        if ranks_before(b, a) {
            lemma_rank_absent(s, b);
            assert(rank_class(s, b).contains(b));
        }
        assert(same_rank(a, b));
        lemma_class_front(t, a);
        assert(a == b);
        let s1 = s.drop_first();
        let t1 = t.drop_first();
        assert forall|e: FileEntry| #[trigger] rank_class(s1, e) == rank_class(t1, e) by {
            lemma_class_front(s, e);
            lemma_class_front(t, e);
            assert(rank_class(s, e) == rank_class(t, e));
            if same_rank(a, e) {
                assert(rank_class(s1, e) =~= rank_class(s, e).drop_first());
                assert(rank_class(t1, e) =~= rank_class(t, e).drop_first());
            } else {
                assert(rank_class(s1, e) =~= rank_class(s, e));
                assert(rank_class(t1, e) =~= rank_class(t, e));
            }
        }
        assert(listing_sorted(s1));
        assert(listing_sorted(t1));
        lemma_sorted_listing_unique(s1, t1);
        assert(s =~= seq![a] + s1);
        assert(t =~= seq![b] + t1);
    }
}

/// "`a` is listed no later than `b`" is transitive.
proof fn lemma_no_later_transitive(a: FileEntry, b: FileEntry, c: FileEntry)
    requires
        !ranks_before(b, a),
        !ranks_before(c, b),
    ensures
        !ranks_before(c, a),
{
    lemma_rank_trichotomy(a, b);
    lemma_rank_trichotomy(b, c);
    lemma_rank_trichotomy(a, c);
    if ranks_before(c, a) {
        if ranks_before(a, b) {
            lemma_rank_transitive(c, a, b);
        }
    }
}

/// An entry listed no later than one that ranks before a third ranks before it too.
proof fn lemma_no_later_then_before(a: FileEntry, b: FileEntry, c: FileEntry)
    requires
        !ranks_before(b, a),
        ranks_before(b, c),
    ensures
        ranks_before(a, c),
{
    lemma_rank_trichotomy(a, b);
    if ranks_before(a, b) {
        lemma_rank_transitive(a, b, c);
    }
}

/// Putting `x` in front of a sorted `t` whose first entry it does not rank
/// after keeps it sorted.
proof fn lemma_prepend_sorted(t: Seq<FileEntry>, x: FileEntry)
    requires
        listing_sorted(t),
        t.len() > 0 ==> !ranks_before(t[0], x),
    ensures
        listing_sorted(seq![x] + t),
{
    let u = seq![x] + t;
    assert forall|a: int, b: int| 0 <= a < b < u.len() implies !ranks_before(#[trigger] u[b], #[trigger] u[a]) by {
        if a == 0 {
            assert(u[b] == t[b - 1]);
            if b - 1 > 0 {
                lemma_no_later_transitive(x, t[0], t[b - 1]);
            }
        } else {
            assert(u[a] == t[a - 1]);
            assert(u[b] == t[b - 1]);
        }
    }
}

/// Merges two sorted listings into one; of entries with equal rank, those of
/// `left` come first, each side in its own order.
fn merge(left: Vec<FileEntry>, right: Vec<FileEntry>) -> (merged: Vec<FileEntry>)
    requires
        listing_sorted(left@),
        listing_sorted(right@),
    ensures
        listing_sorted(merged@),
        merged@.len() == left@.len() + right@.len(),
        merged@.to_multiset() == left@.to_multiset().add(right@.to_multiset()),
        forall|e: FileEntry| #[trigger] rank_class(merged@, e) == rank_class(left@, e) + rank_class(right@, e),
{
    broadcast use vstd::seq_lib::group_to_multiset_ensures, vstd::multiset::group_multiset_axioms;

    let ghost l0 = left@;
    let ghost r0 = right@;
    let mut left = left;
    let mut right = right;
    // `taken` holds the merged tail, largest first.
    let mut taken: Vec<FileEntry> = Vec::new();
    assert(l0.skip(l0.len() as int) =~= Seq::<FileEntry>::empty());
    assert(r0.skip(r0.len() as int) =~= Seq::<FileEntry>::empty());
    assert(taken@.reverse() =~= Seq::<FileEntry>::empty());
    assert forall|e: FileEntry| #[trigger] rank_class(taken@.reverse(), e) == rank_class(
        l0.skip(left@.len() as int), e) + rank_class(r0.skip(right@.len() as int), e) by {
        reveal(Seq::filter);
        assert(rank_class(Seq::<FileEntry>::empty(), e) =~= Seq::<FileEntry>::empty());
    }
    while left.len() > 0 || right.len() > 0
        invariant
            left@ == l0.subrange(0, left@.len() as int),
            right@ == r0.subrange(0, right@.len() as int),
            left@.len() <= l0.len(),
            right@.len() <= r0.len(),
            listing_sorted(l0),
            listing_sorted(r0),
            listing_sorted(taken@.reverse()),
            taken@.len() == (l0.len() - left@.len()) + (r0.len() - right@.len()),
            taken@.len() > 0 ==> forall|i: int| 0 <= i < left@.len() ==> !ranks_before(
                taken@.reverse()[0], #[trigger] l0[i]),
            taken@.len() > 0 ==> forall|i: int| 0 <= i < right@.len() ==> !ranks_before(
                taken@.reverse()[0], #[trigger] r0[i]),
            forall|i: int, k: int| left@.len() <= i < l0.len() && 0 <= k < right@.len() ==> ranks_before(
                #[trigger] r0[k], #[trigger] l0[i]),
            forall|e: FileEntry| #[trigger] rank_class(taken@.reverse(), e) == rank_class(
                l0.skip(left@.len() as int), e) + rank_class(r0.skip(right@.len() as int), e),
            taken@.to_multiset().add(left@.to_multiset()).add(right@.to_multiset())
                == l0.to_multiset().add(r0.to_multiset()),
        decreases left@.len() + right@.len(),
    {
        let nl = left.len();
        let nr = right.len();
        let take_right = if nl == 0 {
            true
        } else if nr == 0 {
            false
        } else {
            !ranks_first(&right[nr - 1], &left[nl - 1])
        };
        let ghost t = taken@.reverse();
        let ghost before_left = left@;
        let ghost before_right = right@;
        let x = if take_right {
            right.pop().unwrap()
        } else {
            left.pop().unwrap()
        };
        proof {
            if take_right {
                assert(x == r0[nr - 1]);
                assert(before_right == right@.push(x));
                assert(r0.skip(nr - 1) =~= seq![x] + r0.skip(nr as int));
                // What stays is listed no later than `x`.
                assert forall|i: int| 0 <= i < left@.len() implies !ranks_before(x, #[trigger] l0[i]) by {
                    if i < nl - 1 {
                        lemma_no_later_transitive(l0[i], l0[nl - 1], x);
                    }
                }
                assert forall|k: int| 0 <= k < right@.len() implies !ranks_before(x, #[trigger] r0[k]) by {}
                // Entries of the rank of `x` already taken all come from the right.
                assert forall|e: FileEntry| #[trigger] rank_class(seq![x] + t, e) == rank_class(
                    l0.skip(left@.len() as int), e) + rank_class(r0.skip(right@.len() as int), e) by {
                    let p = |y: FileEntry| same_rank(y, e);
                    let ls = l0.skip(nl as int);
                    let rs = r0.skip(nr as int);
                    t.lemma_filter_prepend(x, p);
                    rs.lemma_filter_prepend(x, p);
                    assert(rank_class(t, e) == rank_class(ls, e) + rank_class(rs, e));
                    assert(r0.skip(nr - 1) == seq![x] + rs);
                    if same_rank(x, e) {
                        assert forall|i: int| 0 <= i < ls.len() implies !same_rank(#[trigger] ls[i], e) by {
                            assert(ranks_before(r0[nr - 1], l0[nl + i]));
                            lemma_rank_trichotomy(x, ls[i]);
                        }
                        lemma_class_empty(ls, e);
                        assert(rank_class(seq![x] + t, e) =~= rank_class(ls, e) + rank_class(seq![x] + rs, e));
                    } else {
                        assert(rank_class(seq![x] + t, e) =~= rank_class(ls, e) + rank_class(seq![x] + rs, e));
                    }
                }
            } else {
                assert(x == l0[nl - 1]);
                assert(before_left == left@.push(x));
                assert(l0.skip(nl - 1) =~= seq![x] + l0.skip(nl as int));
                assert forall|i: int| 0 <= i < left@.len() implies !ranks_before(x, #[trigger] l0[i]) by {}
                assert forall|k: int| 0 <= k < right@.len() implies ranks_before(#[trigger] r0[k], x) by {
                    if k < nr - 1 {
                        lemma_no_later_then_before(r0[k], r0[nr - 1], x);
                    }
                }
                assert forall|k: int| 0 <= k < right@.len() implies !ranks_before(x, #[trigger] r0[k]) by {
                    assert(ranks_before(r0[k], x));
                    lemma_rank_trichotomy(r0[k], x);
                }
                assert forall|i: int, k: int| left@.len() <= i < l0.len() && 0 <= k < right@.len() implies ranks_before(
                    #[trigger] r0[k], #[trigger] l0[i]) by {
                    if i == nl - 1 {
                        assert(ranks_before(r0[k], x));
                    }
                }
                assert forall|e: FileEntry| #[trigger] rank_class(seq![x] + t, e) == rank_class(
                    l0.skip(left@.len() as int), e) + rank_class(r0.skip(right@.len() as int), e) by {
                    let p = |y: FileEntry| same_rank(y, e);
                    let ls = l0.skip(nl as int);
                    let rs = r0.skip(nr as int);
                    t.lemma_filter_prepend(x, p);
                    ls.lemma_filter_prepend(x, p);
                    assert(rank_class(t, e) == rank_class(ls, e) + rank_class(rs, e));
                    assert(l0.skip(nl - 1) == seq![x] + ls);
                    assert(rank_class(seq![x] + t, e) =~= rank_class(seq![x] + ls, e) + rank_class(rs, e));
                }
            }
            if t.len() > 0 {
                assert(!ranks_before(t[0], x));
            }
            lemma_prepend_sorted(t, x);
        }
        let ghost taken_before = taken@;
        taken.push(x);
        assert(taken@.reverse() =~= seq![x] + taken_before.reverse());
        assert(taken@.to_multiset() == taken_before.to_multiset().insert(x));
    }
    assert(l0.skip(0) =~= l0);
    assert(r0.skip(0) =~= r0);
    assert(left@.to_multiset() =~= vstd::multiset::Multiset::<FileEntry>::empty());
    assert(right@.to_multiset() =~= vstd::multiset::Multiset::<FileEntry>::empty());
    let ghost all = taken@.reverse();
    let ghost taken_all = taken@;
    let mut merged: Vec<FileEntry> = Vec::new();
    while taken.len() > 0
        invariant
            merged@ + taken@.reverse() == all,
        decreases taken@.len(),
    {
        let ghost before = taken@;
        let x = taken.pop().unwrap();
        assert(before == taken@.push(x));
        assert(before.reverse() =~= seq![x] + taken@.reverse());
        merged.push(x);
        assert(merged@ + taken@.reverse() =~= all);
    }
    assert(taken@.reverse() =~= Seq::<FileEntry>::empty());
    assert(merged@ =~= all);
    proof {
        taken_all.lemma_reverse_to_multiset();
    }
    merged
}

/// Sorts a listing by merging sorted halves; stable.
fn merge_sort(v: Vec<FileEntry>) -> (sorted: Vec<FileEntry>)
    ensures
        listing_sorted(sorted@),
        sorted@.len() == v@.len(),
        sorted@.to_multiset() == v@.to_multiset(),
        same_classes(v@, sorted@),
    decreases v@.len(),
{
    if v.len() <= 1 {
        return v;
    }
    let mut left = v;
    let ghost all = left@;
    let mid = left.len() / 2;
    let right = left.split_off(mid);
    let ghost l_in = left@;
    let ghost r_in = right@;
    assert(all =~= l_in + r_in);
    let left = merge_sort(left);
    let right = merge_sort(right);
    let merged = merge(left, right);
    proof {
        vstd::seq_lib::lemma_multiset_commutative(l_in, r_in);
        assert forall|e: FileEntry| #[trigger] rank_class(all, e) == rank_class(merged@, e) by {
            Seq::filter_distributes_over_add(l_in, r_in, |y: FileEntry| same_rank(y, e));
            assert(rank_class(l_in, e) == rank_class(left@, e));
            assert(rank_class(r_in, e) == rank_class(right@, e));
            assert(rank_class(merged@, e) == rank_class(left@, e) + rank_class(right@, e));
        }
    }
    merged
}

/// Sorts a listing: directories first, then by name; entries of equal rank
/// keep their order (a stable sort).
pub fn sort_entries(entries: &mut Vec<FileEntry>)
    ensures
        listing_sorted(final(entries)@),
        final(entries)@.len() == old(entries)@.len(),
        final(entries)@.to_multiset() == old(entries)@.to_multiset(),
        same_classes(old(entries)@, final(entries)@),
        forall|i: int, j: int|
            0 <= i < j < final(entries)@.len() && #[trigger] final(entries)@[i].is_directory
                == #[trigger] final(entries)@[j].is_directory && final(entries)@[i].name@
                != final(entries)@[j].name@ ==> precedes_in_byte_order(
                encode_utf8(final(entries)@[i].name@),
                encode_utf8(final(entries)@[j].name@),
            ),
        forall|i: int, j: int|
            0 <= i < j < final(entries)@.len() && #[trigger] final(entries)@[j].is_directory
                ==> #[trigger] final(entries)@[i].is_directory,
{
    let mut input: Vec<FileEntry> = Vec::new();
    std::mem::swap(entries, &mut input);
    let mut sorted = merge_sort(input);
    std::mem::swap(entries, &mut sorted);
    proof {
        let r = entries@;
        assert forall|i: int, j: int| 0 <= i < j < r.len() implies (#[trigger] r[i].is_directory
            == #[trigger] r[j].is_directory && r[i].name@ != r[j].name@ ==> precedes_in_byte_order(
            encode_utf8(r[i].name@),
            encode_utf8(r[j].name@),
        )) && (r[j].is_directory ==> r[i].is_directory) by {
            lemma_sorted_listing_order(r, i, j);
        }
    }
}

} // verus!
