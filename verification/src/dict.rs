//! Model of an append-only, order-preserving, deduplicating dictionary.
//!
//! A dictionary is a sequence without repeated entries.  Looking a value up
//! finds the first equal entry; a missing value is appended at the end, so
//! indices are stable once assigned.

use vstd::prelude::*;

verus! {

/// Index of the first entry equal to `x`, or `s.len()` when there is none.
pub open spec fn find_first<T>(s: Seq<T>, x: T) -> int
    decreases s.len(),
{
    if s.len() == 0 {
        0
    } else if s[0] == x {
        0
    } else {
        1 + find_first(s.drop_first(), x)
    }
}

/// The dictionary after a find-or-insert of `x`: unchanged when `x` is
/// already present, extended by `x` at the end otherwise.
pub open spec fn dict_insert<T>(s: Seq<T>, x: T) -> Seq<T> {
    if s.contains(x) {
        s
    } else {
        s.push(x)
    }
}

/// No two entries of the sequence are equal.
pub open spec fn distinct<T>(s: Seq<T>) -> bool {
    forall|i: int, j: int| 0 <= i < j < s.len() ==> s[i] != s[j]
}

/// `find_first` returns the position of the first occurrence of `x`, and
/// `s.len()` exactly when `x` is absent.
pub proof fn lemma_find_first<T>(s: Seq<T>, x: T)
    ensures
        0 <= find_first(s, x) <= s.len(),
        s.contains(x) ==> find_first(s, x) < s.len() && s[find_first(s, x)] == x,
        !s.contains(x) ==> find_first(s, x) == s.len(),
        forall|j: int| 0 <= j < find_first(s, x) ==> s[j] != x,
    decreases s.len(),
{
    if s.len() == 0 {
        assert(!s.contains(x));
    } else if s[0] == x {
        assert(s.contains(x));
    } else {
        let t = s.drop_first();
        lemma_find_first(t, x);
        assert forall|j: int| 0 <= j < find_first(s, x) implies s[j] != x by {
            if j > 0 {
                assert(s[j] == t[j - 1]);
            }
        }
        if s.contains(x) {
            let w = choose|w: int| 0 <= w < s.len() && s[w] == x;
            assert(t[w - 1] == x);
            assert(t.contains(x));
            assert(s[find_first(s, x)] == t[find_first(t, x)]);
        } else {
            if t.contains(x) {
                let w = choose|w: int| 0 <= w < t.len() && t[w] == x;
                assert(s[w + 1] == x);
            }
        }
    }
}

/// A find-or-insert leaves the value present, keeps every earlier entry at
/// its index, and changes nothing when the value is already there.
pub proof fn lemma_dict_insert<T>(s: Seq<T>, x: T)
    ensures
        dict_insert(s, x).contains(x),
        s.len() <= dict_insert(s, x).len() <= s.len() + 1,
        forall|j: int| 0 <= j < s.len() ==> dict_insert(s, x)[j] == s[j],
        s.contains(x) ==> dict_insert(s, x) == s,
        !s.contains(x) ==> dict_insert(s, x) == s.push(x),
        find_first(dict_insert(s, x), x) == find_first(s, x),
{
    lemma_find_first(s, x);
    if !s.contains(x) {
        let t = s.push(x);
        assert(t[s.len() as int] == x);
        assert(t.contains(x));
        lemma_find_first(t, x);
        if find_first(t, x) < s.len() {
            assert(s[find_first(t, x)] == x);
            assert(s.contains(x));
        }
    }
}

/// Inserting the same value twice gives the same dictionary as inserting
/// it once; in a duplicate-free dictionary the value sits at exactly one
/// index afterwards.
pub proof fn lemma_dict_insert_dedup<T>(s: Seq<T>, x: T)
    requires
        distinct(s),
    ensures
        dict_insert(dict_insert(s, x), x) == dict_insert(s, x),
        distinct(dict_insert(s, x)),
        dict_insert(s, x).contains(x),
        forall|i: int, j: int|
            0 <= i < j < dict_insert(s, x).len() ==> !(dict_insert(s, x)[i] == x
                && dict_insert(s, x)[j] == x),
{
    lemma_dict_insert(s, x);
    let t = dict_insert(s, x);
    assert(t.contains(x));
    assert(dict_insert(t, x) == t);
    assert forall|i: int, j: int| 0 <= i < j < t.len() implies t[i] != t[j] by {
        if !s.contains(x) && j == s.len() {
            assert(t[i] == s[i]);
            assert(!(s[i] == x)) by {
                if s[i] == x {
                    assert(s.contains(x));
                }
            }
        }
    }
}

/// Two values that differ always get two distinct dictionary entries:
/// inserting both into a dictionary holding neither grows it by exactly two,
/// and their indices differ.
pub proof fn lemma_dict_insert_two<T>(s: Seq<T>, x: T, y: T)
    requires
        x != y,
        !s.contains(x),
        !s.contains(y),
    ensures
        dict_insert(dict_insert(s, x), y).len() == s.len() + 2,
        dict_insert(dict_insert(s, x), y).contains(x),
        dict_insert(dict_insert(s, x), y).contains(y),
        find_first(dict_insert(dict_insert(s, x), y), x) != find_first(
            dict_insert(dict_insert(s, x), y),
            y,
        ),
{
    lemma_dict_insert(s, x);
    let t = dict_insert(s, x);
    assert(!t.contains(y)) by {
        if t.contains(y) {
            let w = choose|w: int| 0 <= w < t.len() && t[w] == y;
            if w < s.len() {
                assert(s.contains(y));
            }
        }
    }
    lemma_dict_insert(t, y);
    let u = dict_insert(t, y);
    assert(u.contains(x)) by {
        assert(u[find_first(t, x)] == t[find_first(t, x)]) by {
            lemma_find_first(t, x);
        }
        lemma_find_first(t, x);
    }
    lemma_find_first(u, x);
    lemma_find_first(u, y);
    assert(u[find_first(u, x)] == x && u[find_first(u, y)] == y);
}

} // verus!
