//! The order of texts by their characters (code points), as `str` and `String` order
//! them, and sorting a list of texts without repeats.

use vstd::prelude::*;
use crate::text::views_of;

verus! {

/// `a` comes before `b`: at the first position where they differ `a` has the smaller
/// character, or `a` is a proper prefix of `b`.
pub open spec fn text_lt(a: Seq<char>, b: Seq<char>) -> bool {
    exists|k: int| #[trigger] diverge(a, b, k)
}

/// `a` and `b` agree before `k`, and at `k` either `a` ends while `b` goes on, or both go
/// on and `a` has the smaller character.
pub open spec fn diverge(a: Seq<char>, b: Seq<char>, k: int) -> bool {
    &&& 0 <= k <= a.len()
    &&& k <= b.len()
    &&& forall|j: int| 0 <= j < k ==> a[j] == b[j]
    &&& ((k == a.len() && k < b.len()) || (k < a.len() && k < b.len() && a[k] < b[k]))
}

/// `s` is strictly increasing.
pub open spec fn strictly_sorted(s: Seq<Seq<char>>) -> bool {
    forall|i: int, j: int| 0 <= i < j < s.len() ==> text_lt(#[trigger] s[i], #[trigger] s[j])
}

/// No text comes before itself.
pub proof fn lemma_text_lt_irreflexive(a: Seq<char>)
    ensures
        !text_lt(a, a),
{
    if text_lt(a, a) {
        let k = choose|k: int| #[trigger] diverge(a, a, k);
    }
}

/// The order is transitive.
pub proof fn lemma_text_lt_transitive(a: Seq<char>, b: Seq<char>, c: Seq<char>)
    requires
        text_lt(a, b),
        text_lt(b, c),
    ensures
        text_lt(a, c),
{
    let k1 = choose|k: int| #[trigger] diverge(a, b, k);
    let k2 = choose|k: int| #[trigger] diverge(b, c, k);
    if k1 < k2 {
        assert(b[k1] == c[k1]);
        assert(diverge(a, c, k1));
    } else if k2 < k1 {
        assert(a[k2] == b[k2]);
        assert(diverge(a, c, k2));
    } else {
        assert(diverge(a, c, k1));
    }
}

/// Whether `a` comes before `b`.
pub fn text_less(a: &Vec<char>, b: &Vec<char>) -> (r: bool)
    ensures
        r == text_lt(a@, b@),
{
    let mut k: usize = 0;
    while k < a.len() && k < b.len()
        invariant
            k <= a.len(),
            k <= b.len(),
            forall|j: int| 0 <= j < k ==> a@[j] == b@[j],
        decreases a.len() - k,
    {
        if a[k] != b[k] {
            let lt = a[k] < b[k];
            proof {
                if lt {
                    assert(diverge(a@, b@, k as int));
                } else {
                    assert forall|m: int| !diverge(a@, b@, m) by {
                        if diverge(a@, b@, m) {
                            if m < k {
                                assert(a@[m] == b@[m]);
                            } else if m > k {
                                assert(a@[k as int] == b@[k as int]);
                            }
                        }
                    }
                }
            }
            return lt;
        }
        k += 1;
    }
    let r = k == a.len() && k < b.len();
    proof {
        if r {
            assert(diverge(a@, b@, k as int));
        } else {
            assert forall|m: int| !diverge(a@, b@, m) by {
                if diverge(a@, b@, m) {
                    if m < k {
                        assert(a@[m] == b@[m]);
                    }
                }
            }
        }
    }
    r
}

/// Two different texts are ordered one way or the other.
pub proof fn lemma_text_lt_total(a: Seq<char>, b: Seq<char>)
    requires
        a != b,
    ensures
        text_lt(a, b) || text_lt(b, a),
{
    let n = if a.len() < b.len() { a.len() } else { b.len() };
    if forall|j: int| 0 <= j < n ==> a[j] == b[j] {
        if a.len() < b.len() {
            assert(diverge(a, b, a.len() as int));
        } else if b.len() < a.len() {
            assert(forall|j: int| 0 <= j < b.len() ==> b[j] == a[j]);
            assert(diverge(b, a, b.len() as int));
        } else {
            assert(a =~= b);
        }
    } else {
        let k = choose|k: int| 0 <= k < n && a[k] != b[k];
        lemma_first_difference(a, b, k);
    }
}

/// Texts that differ within their common length diverge at their first difference.
proof fn lemma_first_difference(a: Seq<char>, b: Seq<char>, k: int)
    requires
        0 <= k < a.len(),
        k < b.len(),
        a[k] != b[k],
    ensures
        text_lt(a, b) || text_lt(b, a),
    decreases k,
{
    if exists|j: int| 0 <= j < k && a[j] != b[j] {
        let j = choose|j: int| 0 <= j < k && a[j] != b[j];
        lemma_first_difference(a, b, j);
    } else {
        if a[k] < b[k] {
            assert(diverge(a, b, k));
        } else {
            assert(b[k] < a[k]);
            assert(forall|j: int| 0 <= j < k ==> b[j] == a[j]);
            assert(diverge(b, a, k));
        }
    }
}

/// The texts of `all` in increasing order, each once.
pub fn sorted_unique(all: &Vec<Vec<char>>) -> (r: Vec<Vec<char>>)
    ensures
        strictly_sorted(views_of(r@)),
        views_of(r@).to_set() == views_of(all@).to_set(),
{
    let ghost av = views_of(all@);
    let mut r: Vec<Vec<char>> = Vec::new();
    let mut i: usize = 0;
    proof {
        assert(views_of(r@).to_set() =~= av.take(0).to_set());
    }
    while i < all.len()
        invariant
            i <= all.len(),
            av == views_of(all@),
            strictly_sorted(views_of(r@)),
            views_of(r@).to_set() == av.take(i as int).to_set(),
        decreases all.len() - i,
    {
        let x = &all[i];
        assert(av[i as int] == x@);
        let ghost rv = views_of(r@);
        // the first position whose text is not before x
        let mut p: usize = 0;
        while p < r.len() && text_less(&r[p], x)
            invariant
                p <= r.len(),
                rv == views_of(r@),
                forall|j: int| 0 <= j < p ==> text_lt(rv[j], x@),
            decreases r.len() - p,
        {
            p += 1;
        }
        let dup = p < r.len() && !text_less(x, &r[p]);
        if dup {
            proof {
                assert(!text_lt(rv[p as int], x@));
                assert(!text_lt(x@, rv[p as int]));
                if rv[p as int] != x@ {
                    lemma_text_lt_total(rv[p as int], x@);
                }
                assert(rv[p as int] == x@);
                assert(av.take(i + 1) =~= av.take(i as int).push(x@));
                assert(rv.contains(x@));
                av.take(i as int).lemma_push_to_set_commute(x@);
                assert(rv.to_set().contains(x@));
                assert(rv.to_set().insert(x@) =~= rv.to_set());
            }
        } else {
            proof {
                if p < r.len() {
                    assert(text_lt(x@, rv[p as int]));
                }
            }
            r.insert(p, x.clone());
            let ghost nv = views_of(r@);
            proof {
                assert(nv =~= rv.insert(p as int, x@));
                assert forall|a: int, b: int| 0 <= a < b < nv.len() implies text_lt(#[trigger] nv[a], #[trigger] nv[b]) by {
                    if b < p {
                        assert(nv[a] == rv[a] && nv[b] == rv[b]);
                    } else if b == p {
                        assert(nv[a] == rv[a] && nv[b] == x@);
                    } else if a < p {
                        assert(nv[a] == rv[a] && nv[b] == rv[b - 1]);
                        assert(text_lt(rv[a], x@));
                        assert(text_lt(x@, rv[p as int]));
                        if b - 1 > p {
                            assert(text_lt(rv[p as int], rv[b - 1]));
                            lemma_text_lt_transitive(x@, rv[p as int], rv[b - 1]);
                        }
                        lemma_text_lt_transitive(rv[a], x@, rv[b - 1]);
                    } else if a == p {
                        assert(nv[a] == x@ && nv[b] == rv[b - 1]);
                        if b - 1 > p {
                            assert(text_lt(rv[p as int], rv[b - 1]));
                            lemma_text_lt_transitive(x@, rv[p as int], rv[b - 1]);
                        }
                    } else {
                        assert(nv[a] == rv[a - 1] && nv[b] == rv[b - 1]);
                    }
                }
                assert(av.take(i + 1) =~= av.take(i as int).push(x@));
                av.take(i as int).lemma_push_to_set_commute(x@);
                assert(nv.to_set() =~= rv.to_set().insert(x@)) by {
                    assert forall|t: Seq<char>| nv.to_set().contains(t) <==> rv.to_set().insert(x@).contains(t) by {
                        if nv.contains(t) {
                            let m = choose|m: int| 0 <= m < nv.len() && nv[m] == t;
                            if m < p {
                                assert(rv[m] == t);
                            } else if m > p {
                                assert(rv[m - 1] == t);
                            }
                        }
                        if rv.contains(t) {
                            let m = choose|m: int| 0 <= m < rv.len() && rv[m] == t;
                            if m < p {
                                assert(nv[m] == t);
                            } else {
                                assert(nv[m + 1] == t);
                            }
                        }
                        if t == x@ {
                            assert(nv[p as int] == t);
                        }
                    }
                }
            }
        }
        i += 1;
    }
    proof {
        assert(av.take(all.len() as int) =~= av);
    }
    r
}

} // verus!
