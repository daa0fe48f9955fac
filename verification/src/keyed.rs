//! Lists of records kept unique by a text key: lookup, and what insertion, replacement
//! and removal do to lookups.

use vstd::prelude::*;

verus! {

/// No two records of `s` have the same key.
pub open spec fn keys_unique<A>(s: Seq<A>, key: spec_fn(A) -> Seq<char>) -> bool {
    forall|i: int, j: int| 0 <= i < s.len() && 0 <= j < s.len() && i != j ==> key(s[i]) != key(s[j])
}

/// Some record of `s` has key `k`.
pub open spec fn has_key<A>(s: Seq<A>, key: spec_fn(A) -> Seq<char>, k: Seq<char>) -> bool {
    exists|i: int| 0 <= i < s.len() && key(s[i]) == k
}

/// The record of `s` with key `k`, if there is one.
pub open spec fn find_by_key<A>(s: Seq<A>, key: spec_fn(A) -> Seq<char>, k: Seq<char>) -> Option<A> {
    if has_key(s, key, k) {
        Some(s[choose|i: int| 0 <= i < s.len() && key(s[i]) == k])
    } else {
        None
    }
}

/// In a list with unique keys, the record found for the key of `s[i]` is `s[i]`.
pub proof fn lemma_find_at<A>(s: Seq<A>, key: spec_fn(A) -> Seq<char>, i: int)
    requires
        keys_unique(s, key),
        0 <= i < s.len(),
    ensures
        find_by_key(s, key, key(s[i])) == Some(s[i]),
{
    assert(has_key(s, key, key(s[i])));
    let j = choose|j: int| 0 <= j < s.len() && key(s[j]) == key(s[i]);
    assert(j == i);
}

/// Replacing the record at `i` by one with the same key keeps keys unique, makes the
/// new record the one found for its key, and changes no other lookup.
pub proof fn lemma_replace<A>(s: Seq<A>, key: spec_fn(A) -> Seq<char>, i: int, a: A)
    requires
        keys_unique(s, key),
        0 <= i < s.len(),
        key(a) == key(s[i]),
    ensures
        keys_unique(s.update(i, a), key),
        find_by_key(s.update(i, a), key, key(a)) == Some(a),
        forall|k: Seq<char>| k != key(a) ==> find_by_key(s.update(i, a), key, k) == find_by_key(s, key, k),
{
    let t = s.update(i, a);
    assert forall|x: int, y: int| 0 <= x < t.len() && 0 <= y < t.len() && x != y implies key(t[x]) != key(t[y]) by {
        assert(key(t[x]) == key(s[x]));
        assert(key(t[y]) == key(s[y]));
    }
    lemma_find_at(t, key, i);
    assert forall|k: Seq<char>| k != key(a) implies find_by_key(t, key, k) == find_by_key(s, key, k) by {
        if has_key(s, key, k) {
            let j = choose|j: int| 0 <= j < s.len() && key(s[j]) == k;
            assert(j != i);
            assert(key(t[j]) == k);
            lemma_find_at(s, key, j);
            lemma_find_at(t, key, j);
        } else {
            if has_key(t, key, k) {
                let j = choose|j: int| 0 <= j < t.len() && key(t[j]) == k;
                assert(key(s[j]) == k);
            }
        }
    }
}

/// Appending a record with a new key keeps keys unique, makes it the one found for its
/// key, and changes no other lookup.
pub proof fn lemma_append<A>(s: Seq<A>, key: spec_fn(A) -> Seq<char>, a: A)
    requires
        keys_unique(s, key),
        !has_key(s, key, key(a)),
    ensures
        keys_unique(s.push(a), key),
        find_by_key(s.push(a), key, key(a)) == Some(a),
        forall|k: Seq<char>| k != key(a) ==> find_by_key(s.push(a), key, k) == find_by_key(s, key, k),
{
    let t = s.push(a);
    assert forall|x: int, y: int| 0 <= x < t.len() && 0 <= y < t.len() && x != y implies key(t[x]) != key(t[y]) by {
        if x < s.len() && y < s.len() {
            assert(key(t[x]) == key(s[x]));
        } else if x < s.len() {
            assert(key(t[x]) == key(s[x]));
        } else {
            assert(key(t[y]) == key(s[y]));
        }
    }
    lemma_find_at(t, key, s.len() as int);
    assert forall|k: Seq<char>| k != key(a) implies find_by_key(t, key, k) == find_by_key(s, key, k) by {
        if has_key(s, key, k) {
            let j = choose|j: int| 0 <= j < s.len() && key(s[j]) == k;
            assert(key(t[j]) == k);
            lemma_find_at(s, key, j);
            lemma_find_at(t, key, j);
        } else {
            if has_key(t, key, k) {
                let j = choose|j: int| 0 <= j < t.len() && key(t[j]) == k;
                assert(j < s.len());
                assert(key(s[j]) == k);
            }
        }
    }
}

/// Removing the record at `i` keeps keys unique, leaves nothing found for its key, and
/// changes no other lookup.
pub proof fn lemma_remove<A>(s: Seq<A>, key: spec_fn(A) -> Seq<char>, i: int)
    requires
        keys_unique(s, key),
        0 <= i < s.len(),
    ensures
        keys_unique(s.remove(i), key),
        find_by_key(s.remove(i), key, key(s[i])) is None,
        forall|k: Seq<char>| k != key(s[i]) ==> find_by_key(s.remove(i), key, k) == find_by_key(s, key, k),
{
    let t = s.remove(i);
    assert forall|x: int| 0 <= x < t.len() implies #[trigger] t[x] == (if x < i { s[x] } else { s[x + 1] }) by {}
    assert forall|x: int, y: int| 0 <= x < t.len() && 0 <= y < t.len() && x != y implies key(t[x]) != key(t[y]) by {
        let sx = if x < i { x } else { x + 1 };
        let sy = if y < i { y } else { y + 1 };
        assert(t[x] == s[sx]);
        assert(t[y] == s[sy]);
    }
    if has_key(t, key, key(s[i])) {
        let j = choose|j: int| 0 <= j < t.len() && key(t[j]) == key(s[i]);
        let sj = if j < i { j } else { j + 1 };
        assert(t[j] == s[sj]);
    }
    assert forall|k: Seq<char>| k != key(s[i]) implies find_by_key(t, key, k) == find_by_key(s, key, k) by {
        if has_key(s, key, k) {
            let j = choose|j: int| 0 <= j < s.len() && key(s[j]) == k;
            assert(j != i);
            let tj = if j < i { j } else { j - 1 };
            assert(t[tj] == s[j]);
            lemma_find_at(s, key, j);
            lemma_find_at(t, key, tj);
        } else {
            if has_key(t, key, k) {
                let j = choose|j: int| 0 <= j < t.len() && key(t[j]) == k;
                let sj = if j < i { j } else { j + 1 };
                assert(t[j] == s[sj]);
            }
        }
    }
}

} // verus!

verus! {

/// One step of filtering a prefix: the filter of `s.take(i + 1)` extends the filter of
/// `s.take(i)` by `s[i]` exactly when `s[i]` passes.
pub proof fn lemma_filter_step<A>(s: Seq<A>, pred: spec_fn(A) -> bool, i: int)
    requires
        0 <= i < s.len(),
    ensures
        s.take(i + 1).filter(pred) == (if pred(s[i]) {
            s.take(i).filter(pred).push(s[i])
        } else {
            s.take(i).filter(pred)
        }),
{
    reveal_with_fuel(Seq::filter, 1);
    assert(s.take(i + 1).drop_last() =~= s.take(i));
    assert(s.take(i + 1).last() == s[i]);
}

/// The filter of a whole sequence is the filter of its full prefix.
pub proof fn lemma_take_full<A>(s: Seq<A>)
    ensures
        s.take(s.len() as int) == s,
{
    assert(s.take(s.len() as int) =~= s);
}

} // verus!

verus! {

/// `s` without its (only) occurrence of `e`, if there is one.
pub open spec fn remove_value<A>(s: Seq<A>, e: A) -> Seq<A> {
    if s.contains(e) { s.remove(s.index_of(e)) } else { s }
}

/// Removing one element from a list without duplicates leaves a list without duplicates
/// that no longer holds it and still holds every other element it held.
pub proof fn lemma_remove_value<A>(s: Seq<A>, i: int)
    requires
        s.no_duplicates(),
        0 <= i < s.len(),
    ensures
        remove_value(s, s[i]) == s.remove(i),
        s.remove(i).no_duplicates(),
        !s.remove(i).contains(s[i]),
        forall|x: A| x != s[i] ==> (s.remove(i).contains(x) == s.contains(x)),
{
    let t = s.remove(i);
    assert(s.contains(s[i]));
    let j = s.index_of(s[i]);
    assert(s[j] == s[i]);
    assert(j == i);
    assert forall|x: int| 0 <= x < t.len() implies #[trigger] t[x] == (if x < i { s[x] } else { s[x + 1] }) by {}
    assert forall|x: int, y: int| 0 <= x < t.len() && 0 <= y < t.len() && x != y implies t[x] != t[y] by {
        let sx = if x < i { x } else { x + 1 };
        let sy = if y < i { y } else { y + 1 };
        assert(t[x] == s[sx]);
        assert(t[y] == s[sy]);
    }
    if t.contains(s[i]) {
        let k = choose|k: int| 0 <= k < t.len() && t[k] == s[i];
        let sk = if k < i { k } else { k + 1 };
        assert(t[k] == s[sk]);
    }
    assert forall|x: A| x != s[i] implies (t.contains(x) == s.contains(x)) by {
        if s.contains(x) {
            let k = choose|k: int| 0 <= k < s.len() && s[k] == x;
            let tk = if k < i { k } else { k - 1 };
            assert(t[tk] == x);
        }
        if t.contains(x) {
            let k = choose|k: int| 0 <= k < t.len() && t[k] == x;
            let sk = if k < i { k } else { k + 1 };
            assert(s[sk] == x);
        }
    }
}

} // verus!

verus! {

/// The elements of a filter are exactly the elements of the sequence that pass.
pub proof fn lemma_filter_members<A>(s: Seq<A>, pred: spec_fn(A) -> bool)
    ensures
        forall|i: int| 0 <= i < s.filter(pred).len() ==> pred(#[trigger] s.filter(pred)[i]) && s.contains(s.filter(pred)[i]),
        forall|i: int| 0 <= i < s.len() && pred(#[trigger] s[i]) ==> s.filter(pred).contains(s[i]),
    decreases s.len(),
{
    reveal_with_fuel(Seq::filter, 1);
    if s.len() > 0 {
        let p = s.drop_last();
        lemma_filter_members(p, pred);
        let f = s.filter(pred);
        let fp = p.filter(pred);
        assert forall|i: int| 0 <= i < f.len() implies pred(#[trigger] f[i]) && s.contains(f[i]) by {
            if i < fp.len() {
                assert(f[i] == fp[i]);
                let k = choose|k: int| 0 <= k < p.len() && p[k] == fp[i];
                assert(s[k] == p[k]);
            } else {
                assert(f[i] == s.last());
                assert(s[s.len() - 1] == s.last());
            }
        }
        assert forall|i: int| 0 <= i < s.len() && pred(#[trigger] s[i]) implies f.contains(s[i]) by {
            if i < p.len() {
                assert(p[i] == s[i]);
                assert(fp.contains(p[i]));
                let k = choose|k: int| 0 <= k < fp.len() && fp[k] == p[i];
                assert(f[k] == fp[k]);
            } else {
                assert(f[f.len() - 1] == s.last());
            }
        }
    }
}

/// Filtering a list without duplicates leaves a list without duplicates.
pub proof fn lemma_filter_no_dup<A>(s: Seq<A>, pred: spec_fn(A) -> bool)
    requires
        s.no_duplicates(),
    ensures
        s.filter(pred).no_duplicates(),
    decreases s.len(),
{
    reveal_with_fuel(Seq::filter, 1);
    if s.len() > 0 {
        let p = s.drop_last();
        assert(p.no_duplicates()) by {
            assert forall|i: int, j: int| 0 <= i < p.len() && 0 <= j < p.len() && i != j implies p[i] != p[j] by {
                assert(p[i] == s[i] && p[j] == s[j]);
            }
        }
        lemma_filter_no_dup(p, pred);
        lemma_filter_members(p, pred);
        let f = p.filter(pred);
        if pred(s.last()) {
            assert(!f.contains(s.last())) by {
                if f.contains(s.last()) {
                    let k = choose|k: int| 0 <= k < f.len() && f[k] == s.last();
                    assert(p.contains(f[k]));
                    let m = choose|m: int| 0 <= m < p.len() && p[m] == f[k];
                    assert(s[m] == s[s.len() - 1]);
                }
            }
            let g = f.push(s.last());
            assert forall|i: int, j: int| 0 <= i < g.len() && 0 <= j < g.len() && i != j implies g[i] != g[j] by {
                if i < f.len() && j < f.len() {
                } else if i < f.len() {
                    assert(f.contains(f[i]));
                } else {
                    assert(f.contains(f[j]));
                }
            }
        }
    }
}

} // verus!
