//! Text utilities over character sequences: conversion, search, case folding and
//! whitespace splitting.

use vstd::prelude::*;

verus! {

broadcast use {vstd::string::group_string_axioms, vstd::seq_lib::seq_to_set_is_finite};

/// `needle` occurs in `hay` as a contiguous run of characters.
pub open spec fn is_substring(hay: Seq<char>, needle: Seq<char>) -> bool {
    exists|i: int| 0 <= i && i + needle.len() <= hay.len() && #[trigger] hay.subrange(i, i + needle.len()) == needle
}

/// `s` begins with `p`.
pub open spec fn has_prefix(s: Seq<char>, p: Seq<char>) -> bool {
    p.len() <= s.len() && s.subrange(0, p.len() as int) == p
}

/// `s` ends with `p`.
pub open spec fn has_suffix(s: Seq<char>, p: Seq<char>) -> bool {
    p.len() <= s.len() && s.subrange(s.len() - p.len(), s.len() as int) == p
}

/// Unicode `White_Space` characters (what `char::is_whitespace` accepts).
pub open spec fn is_ws(c: char) -> bool {
    ||| '\t' <= c <= '\r'
    ||| c == ' '
    ||| c == '\u{85}'
    ||| c == '\u{A0}'
    ||| c == '\u{1680}'
    ||| '\u{2000}' <= c <= '\u{200A}'
    ||| c == '\u{2028}'
    ||| c == '\u{2029}'
    ||| c == '\u{202F}'
    ||| c == '\u{205F}'
    ||| c == '\u{3000}'
}

/// The whitespace-separated words of `s`, in order (what `str::split_whitespace` yields).
pub open spec fn words(s: Seq<char>) -> Seq<Seq<char>>
    decreases s.len(),
{
    if s.len() == 0 {
        Seq::empty()
    } else {
        let prev = words(s.drop_last());
        let c = s.last();
        if is_ws(c) {
            prev
        } else if s.len() >= 2 && !is_ws(s[s.len() - 2]) {
            prev.update(prev.len() - 1, prev.last().push(c))
        } else {
            prev.push(seq![c])
        }
    }
}

/// `s` with leading and trailing whitespace removed (what `str::trim` yields).
pub open spec fn trim_start(s: Seq<char>) -> Seq<char>
    decreases s.len(),
{
    if s.len() > 0 && is_ws(s[0]) { trim_start(s.drop_first()) } else { s }
}

pub open spec fn trim_end(s: Seq<char>) -> Seq<char>
    decreases s.len(),
{
    if s.len() > 0 && is_ws(s.last()) { trim_end(s.drop_last()) } else { s }
}

pub open spec fn trim(s: Seq<char>) -> Seq<char> {
    trim_end(trim_start(s))
}

/// The Unicode lower-case form of `s` (what `str::to_lowercase` returns).
pub uninterp spec fn lowercase(s: Seq<char>) -> Seq<char>;

/// `str::to_lowercase`: the Unicode lower-case mapping of `s`. Its result is named by
/// `lowercase`; no property of the mapping is stated.
#[verifier::external_body]
pub(crate) fn to_lowercase(s: &str) -> (r: String)
    ensures
        r@ == lowercase(s@),
{
    s.to_lowercase()
}

/// A `String` holding exactly the characters of `v` (`Iterator::collect` into `String`).
#[verifier::external_body]
pub(crate) fn string_from_chars(v: &[char]) -> (s: String)
    ensures
        s@ == v@,
{
    v.iter().collect()
}

/// The characters of `s`, in order.
pub fn chars_of(s: &str) -> (v: Vec<char>)
    ensures
        v@ == s@,
{
    let mut v: Vec<char> = Vec::new();
    for c in it: s.chars()
        invariant
            v@ == it.seq().take(it.index() as int),
            it.seq() == s@,
    {
        v.push(c);
    }
    v
}

/// Whether `c` is Unicode whitespace.
pub fn is_whitespace(c: char) -> (b: bool)
    ensures
        b == is_ws(c),
{
    ('\t' <= c && c <= '\r') || c == ' ' || c == '\u{85}' || c == '\u{A0}' || c == '\u{1680}'
        || ('\u{2000}' <= c && c <= '\u{200A}') || c == '\u{2028}' || c == '\u{2029}'
        || c == '\u{202F}' || c == '\u{205F}' || c == '\u{3000}'
}

/// Whether `needle` occurs in `hay` at position `at`.
pub fn matches_at(hay: &Vec<char>, needle: &Vec<char>, at: usize) -> (b: bool)
    requires
        at + needle.len() <= hay.len(),
    ensures
        b == (hay@.subrange(at as int, at + needle.len()) == needle@),
{
    let mut j: usize = 0;
    while j < needle.len()
        invariant
            j <= needle.len(),
            at + needle.len() <= hay.len(),
            forall|k: int| 0 <= k < j ==> hay@[at + k] == needle@[k],
        decreases needle.len() - j,
    {
        if hay[at + j] != needle[j] {
            assert(hay@.subrange(at as int, at + needle.len())[j as int] != needle@[j as int]);
            return false;
        }
        j += 1;
    }
    assert(hay@.subrange(at as int, at + needle.len()) =~= needle@);
    true
}

/// Whether `needle` occurs in `hay`.
pub fn contains_chars(hay: &Vec<char>, needle: &Vec<char>) -> (b: bool)
    ensures
        b == is_substring(hay@, needle@),
{
    if needle.len() > hay.len() {
        return false;
    }
    let last = hay.len() - needle.len();
    let mut i: usize = 0;
    loop
        invariant
            last == hay.len() - needle.len(),
            needle.len() <= hay.len(),
            i <= last,
            forall|k: int| 0 <= k < i ==> #[trigger] hay@.subrange(k, k + needle.len()) != needle@,
        ensures
            forall|k: int| 0 <= k <= last ==> #[trigger] hay@.subrange(k, k + needle.len()) != needle@,
        decreases last - i,
    {
        if matches_at(hay, needle, i) {
            return true;
        }
        if i == last {
            break;
        }
        i += 1;
    }
    proof {
        assert forall|k: int| 0 <= k && k + needle.len() <= hay.len() implies
            #[trigger] hay@.subrange(k, k + needle.len()) != needle@ by {}
    }
    false
}

/// Whether the text `needle` occurs in the text `hay`.
pub fn str_contains(hay: &str, needle: &str) -> (b: bool)
    ensures
        b == is_substring(hay@, needle@),
{
    let h = chars_of(hay);
    let n = chars_of(needle);
    contains_chars(&h, &n)
}

/// Whether `s` begins with `p`.
pub fn starts_with_chars(s: &Vec<char>, p: &Vec<char>) -> (b: bool)
    ensures
        b == has_prefix(s@, p@),
{
    if p.len() > s.len() {
        return false;
    }
    matches_at(s, p, 0)
}

/// Whether `s` ends with `p`.
pub fn ends_with_chars(s: &Vec<char>, p: &Vec<char>) -> (b: bool)
    ensures
        b == has_suffix(s@, p@),
{
    if p.len() > s.len() {
        return false;
    }
    matches_at(s, p, s.len() - p.len())
}

proof fn lemma_words_last_nonempty(s: Seq<char>)
    requires
        s.len() > 0,
        !is_ws(s.last()),
    ensures
        words(s).len() > 0,
    decreases s.len(),
{
    if s.len() >= 2 && !is_ws(s[s.len() - 2]) {
        let p = s.drop_last();
        assert(p.last() == s[s.len() - 2]);
        lemma_words_last_nonempty(p);
    }
}

/// The character sequences held by a vector of character vectors.
pub open spec fn views_of(v: Seq<Vec<char>>) -> Seq<Seq<char>> {
    v.map_values(|x: Vec<char>| x@)
}

/// The whitespace-separated words of `s`.
pub fn split_words(s: &Vec<char>) -> (r: Vec<Vec<char>>)
    ensures
        views_of(r@) == words(s@),
{
    let mut done: Vec<Vec<char>> = Vec::new();
    let mut cur: Vec<char> = Vec::new();
    let mut i: usize = 0;
    while i < s.len()
        invariant
            i <= s.len(),
            (i > 0 && !is_ws(s@[i - 1])) ==> cur.len() > 0 && words(s@.take(i as int))
                == views_of(done@).push(cur@),
            !(i > 0 && !is_ws(s@[i - 1])) ==> cur.len() == 0 && words(s@.take(i as int))
                == views_of(done@),
        decreases s.len() - i,
    {
        let c = s[i];
        let ghost pre = s@.take(i as int);
        let ghost post = s@.take(i + 1);
        assert(post.drop_last() =~= pre);
        assert(post.last() == c);
        if is_whitespace(c) {
            if cur.len() > 0 {
                let ghost before = views_of(done@);
                let w = cur;
                cur = Vec::new();
                done.push(w);
                assert(views_of(done@) =~= before.push(w@));
            }
        } else if i > 0 && !is_whitespace(s[i - 1]) {
            assert(post[post.len() - 2] == s@[i - 1]);
            cur.push(c);
            assert(words(post) =~= views_of(done@).push(cur@));
        } else {
            let ghost before = views_of(done@);
            assert(cur.len() == 0);
            cur.push(c);
            assert(cur@ =~= seq![c]);
            assert(words(post) =~= views_of(done@).push(cur@));
        }
        i += 1;
    }
    assert(s@.take(s.len() as int) =~= s@);
    if cur.len() > 0 {
        let ghost before = views_of(done@);
        let ghost cv = cur@;
        done.push(cur);
        assert(views_of(done@) =~= before.push(cv));
    }
    done
}

/// Whether two texts are equal, character by character.
pub fn same_text(a: &str, b: &str) -> (r: bool)
    ensures
        r == (a@ == b@),
{
    let x = chars_of(a);
    let y = chars_of(b);
    if x.len() != y.len() {
        return false;
    }
    let mut i: usize = 0;
    while i < x.len()
        invariant
            i <= x.len(),
            x@ == a@,
            y@ == b@,
            x.len() == y.len(),
            forall|k: int| 0 <= k < i ==> x@[k] == y@[k],
        decreases x.len() - i,
    {
        if x[i] != y[i] {
            assert(a@[i as int] != b@[i as int]);
            return false;
        }
        i += 1;
    }
    assert(x@ =~= y@);
    true
}

/// Whether the optional text `v` is present and equal to one of `options`.
pub fn text_is_one_of(v: Option<&str>, options: &[&str]) -> (r: bool)
    ensures
        r == (v matches Some(s) && exists|i: int| 0 <= i < options@.len() && options@[i]@ == s@),
{
    match v {
        None => false,
        Some(s) => {
            let mut i: usize = 0;
            while i < options.len()
                invariant
                    i <= options@.len(),
                    v == Some(s),
                    forall|k: int| 0 <= k < i ==> options@[k]@ != s@,
                decreases options@.len() - i,
            {
                if same_text(s, options[i]) {
                    assert(options@[i as int]@ == s@);
                    return true;
                }
                i += 1;
            }
            false
        },
    }
}

/// When the first `k` characters are whitespace and the next is not (or there is none),
/// trimming the start leaves the text from `k` on.
pub proof fn lemma_trim_start_at(s: Seq<char>, k: int)
    requires
        0 <= k <= s.len(),
        forall|j: int| 0 <= j < k ==> is_ws(#[trigger] s[j]),
        k == s.len() || !is_ws(s[k]),
    ensures
        trim_start(s) == s.subrange(k, s.len() as int),
    decreases k,
{
    if k == 0 {
        assert(s.subrange(0, s.len() as int) =~= s);
    } else {
        let t = s.drop_first();
        assert forall|j: int| 0 <= j < k - 1 implies is_ws(#[trigger] t[j]) by {
            assert(t[j] == s[j + 1]);
        }
        lemma_trim_start_at(t, k - 1);
        assert(t.subrange(k - 1, t.len() as int) =~= s.subrange(k, s.len() as int));
    }
}

/// When the characters from `k` on are whitespace and the one before is not (or there is
/// none), trimming the end leaves the first `k` characters.
pub proof fn lemma_trim_end_at(s: Seq<char>, k: int)
    requires
        0 <= k <= s.len(),
        forall|j: int| k <= j < s.len() ==> is_ws(#[trigger] s[j]),
        k == 0 || !is_ws(s[k - 1]),
    ensures
        trim_end(s) == s.subrange(0, k),
    decreases s.len(),
{
    if s.len() > k {
        let t = s.drop_last();
        assert forall|j: int| k <= j < t.len() implies is_ws(#[trigger] t[j]) by {
            assert(t[j] == s[j]);
        }
        lemma_trim_end_at(t, k);
        assert(t.subrange(0, k) =~= s.subrange(0, k));
    } else {
        assert(s.subrange(0, k) =~= s);
    }
}

/// The characters of `v` from `a` up to `b`.
pub fn copy_range(v: &Vec<char>, a: usize, b: usize) -> (r: Vec<char>)
    requires
        a <= b <= v.len(),
    ensures
        r@ == v@.subrange(a as int, b as int),
{
    let mut r: Vec<char> = Vec::new();
    let mut i: usize = a;
    while i < b
        invariant
            a <= i <= b <= v.len(),
            r@ == v@.subrange(a as int, i as int),
        decreases b - i,
    {
        r.push(v[i]);
        assert(v@.subrange(a as int, i + 1) =~= v@.subrange(a as int, i as int).push(v@[i as int]));
        i += 1;
    }
    r
}

/// `v` without leading and trailing whitespace.
pub fn trim_chars(v: &Vec<char>) -> (r: Vec<char>)
    ensures
        r@ == trim(v@),
{
    let mut a: usize = 0;
    while a < v.len() && is_whitespace(v[a])
        invariant
            a <= v.len(),
            forall|j: int| 0 <= j < a ==> is_ws(#[trigger] v@[j]),
        decreases v.len() - a,
    {
        a += 1;
    }
    let mut b: usize = v.len();
    while b > a && is_whitespace(v[b - 1])
        invariant
            a <= b <= v.len(),
            forall|j: int| b <= j < v.len() ==> is_ws(#[trigger] v@[j]),
        decreases b,
    {
        b -= 1;
    }
    proof {
        lemma_trim_start_at(v@, a as int);
        let t = v@.subrange(a as int, v.len() as int);
        assert forall|j: int| b - a <= j < t.len() implies is_ws(#[trigger] t[j]) by {
            assert(t[j] == v@[a + j]);
        }
        if b > a {
            assert(t[b - a - 1] == v@[b - 1]);
        }
        lemma_trim_end_at(t, b - a);
        assert(t.subrange(0, b - a) =~= v@.subrange(a as int, b as int));
    }
    copy_range(v, a, b)
}

/// Whether two character vectors hold the same characters.
pub fn same_chars(a: &Vec<char>, b: &Vec<char>) -> (r: bool)
    ensures
        r == (a@ == b@),
{
    if a.len() != b.len() {
        return false;
    }
    let mut i: usize = 0;
    while i < a.len()
        invariant
            i <= a.len(),
            a.len() == b.len(),
            forall|k: int| 0 <= k < i ==> a@[k] == b@[k],
        decreases a.len() - i,
    {
        if a[i] != b[i] {
            return false;
        }
        i += 1;
    }
    assert(a@ =~= b@);
    true
}

/// Whether `v` holds the word `w`.
pub fn has_word(v: &Vec<Vec<char>>, w: &Vec<char>) -> (r: bool)
    ensures
        r == views_of(v@).contains(w@),
{
    let mut i: usize = 0;
    while i < v.len()
        invariant
            i <= v.len(),
            forall|k: int| 0 <= k < i ==> views_of(v@)[k] != w@,
        decreases v.len() - i,
    {
        if same_chars(&v[i], w) {
            assert(views_of(v@)[i as int] == w@);
            return true;
        }
        i += 1;
    }
    false
}

/// The set of whitespace-separated words of `s`.
pub open spec fn word_set(s: Seq<char>) -> Set<Seq<char>> {
    words(s).to_set()
}

/// The words of `all`, each once, in order of first occurrence.
pub fn dedup_words(all: &Vec<Vec<char>>) -> (r: Vec<Vec<char>>)
    ensures
        views_of(r@).no_duplicates(),
        views_of(r@).to_set() == views_of(all@).to_set(),
{
    let ghost ws = views_of(all@);
    let mut r: Vec<Vec<char>> = Vec::new();
    let mut i: usize = 0;
    proof {
        assert(ws.take(0).to_set() =~= views_of(r@).to_set());
    }
    while i < all.len()
        invariant
            i <= all.len(),
            views_of(all@) == ws,
            views_of(r@).no_duplicates(),
            views_of(r@).to_set() == ws.take(i as int).to_set(),
        decreases all.len() - i,
    {
        let ghost before = views_of(r@);
        let ghost t0 = ws.take(i as int);
        let ghost w = ws[i as int];
        proof {
            assert(ws.take(i + 1) =~= t0.push(w));
            t0.lemma_push_to_set_commute(w);
            assert(w == all@[i as int]@);
        }
        if !has_word(&r, &all[i]) {
            r.push(copy_range(&all[i], 0, all[i].len()));
            proof {
                assert(all@[i as int]@.subrange(0, all@[i as int]@.len() as int) =~= all@[i as int]@);
                assert(views_of(r@) =~= before.push(w));
                before.lemma_push_to_set_commute(w);
                assert forall|p: int, q: int| 0 <= p < views_of(r@).len() && 0 <= q < views_of(r@).len() && p != q
                    implies views_of(r@)[p] != views_of(r@)[q] by {
                    if p < before.len() && q < before.len() {
                    } else if p < before.len() {
                        assert(before.contains(before[p]));
                    } else {
                        assert(before.contains(before[q]));
                    }
                }
            }
        } else {
            proof {
                assert(before.to_set().contains(w));
                assert(before.to_set().insert(w) =~= before.to_set());
            }
        }
        i += 1;
    }
    assert(ws.take(all.len() as int) =~= ws);
    r
}

/// The distinct words of `s`, each once.
pub fn distinct_words(s: &Vec<char>) -> (r: Vec<Vec<char>>)
    ensures
        views_of(r@).no_duplicates(),
        views_of(r@).to_set() == word_set(s@),
{
    let all = split_words(s);
    dedup_words(&all)
}

/// `n`, or `usize::MAX` when it does not fit.
pub open spec fn capped(n: nat) -> nat {
    if n <= usize::MAX { n } else { usize::MAX as nat }
}

/// The number of words two distinct-word lists share, and the number of words in either
/// (at most `usize::MAX`).
pub fn overlap_counts(a: &Vec<Vec<char>>, b: &Vec<Vec<char>>) -> (r: (usize, usize))
    requires
        views_of(a@).no_duplicates(),
        views_of(b@).no_duplicates(),
    ensures
        r.0 == views_of(a@).to_set().intersect(views_of(b@).to_set()).len(),
        r.1 == capped(views_of(a@).to_set().union(views_of(b@).to_set()).len()),
{
    let ghost sa = views_of(a@);
    let ghost sb = views_of(b@).to_set();
    let mut inter: usize = 0;
    let mut i: usize = 0;
    proof {
        assert(sa.take(0).to_set().intersect(sb) =~= Set::empty());
    }
    while i < a.len()
        invariant
            i <= a.len(),
            sa == views_of(a@),
            sb == views_of(b@).to_set(),
            sa.no_duplicates(),
            inter <= i,
            inter == sa.take(i as int).to_set().intersect(sb).len(),
        decreases a.len() - i,
    {
        let ghost pre = sa.take(i as int).to_set();
        assert(sa.take(i + 1) =~= sa.take(i as int).push(sa[i as int]));
        proof {
            sa.take(i as int).lemma_push_to_set_commute(sa[i as int]);
        }
        assert(!pre.contains(sa[i as int])) by {
            if pre.contains(sa[i as int]) {
                let k = choose|k: int| 0 <= k < sa.take(i as int).len() && sa.take(i as int)[k] == sa[i as int];
                assert(sa[k] == sa[i as int]);
            }
        }
        assert(sa[i as int] == a@[i as int]@);
        if has_word(b, &a[i]) {
            assert(pre.insert(sa[i as int]).intersect(sb) =~= pre.intersect(sb).insert(sa[i as int]));
            inter += 1;
        } else {
            assert(pre.insert(sa[i as int]).intersect(sb) =~= pre.intersect(sb));
        }
        i += 1;
    }
    proof {
        assert(sa.take(a.len() as int) =~= sa);
        sa.unique_seq_to_set();
        views_of(b@).unique_seq_to_set();
        vstd::set_lib::lemma_set_intersect_union_lens(sa.to_set(), sb);
        assert(sa.to_set() + sb == sa.to_set().union(sb));
        assert(sa.to_set().intersect(sb).len() <= sb.len()) by {
            vstd::set_lib::lemma_len_intersect(sb, sa.to_set());
            assert(sb.intersect(sa.to_set()) =~= sa.to_set().intersect(sb));
        }
    }
    let rest = b.len() - inter;
    if a.len() <= usize::MAX - rest {
        (inter, a.len() + rest)
    } else {
        (inter, usize::MAX)
    }
}

/// Whether `c` is alphabetic or numeric in Unicode (what `char::is_alphanumeric` says).
pub uninterp spec fn alnum(c: char) -> bool;

/// Whether `c` is alphabetic or numeric: `char::is_alphanumeric`. The result is named
/// `alnum(c)`; no property of the Unicode tables behind it is stated.
#[verifier::external_body]
pub(crate) fn is_alphanumeric(c: char) -> (b: bool)
    ensures
        b == alnum(c),
{
    c.is_alphanumeric()
}

/// Whether `c` is numeric in Unicode (what `char::is_numeric` says).
pub uninterp spec fn numeric(c: char) -> bool;

/// Whether `c` is numeric: `char::is_numeric`. The result is named `numeric(c)`; no
/// property of the Unicode tables behind it is stated.
#[verifier::external_body]
pub(crate) fn is_numeric(c: char) -> (b: bool)
    ensures
        b == numeric(c),
{
    c.is_numeric()
}

/// `s` without its leading characters that are not alphanumeric.
pub open spec fn strip_start_non_alnum(s: Seq<char>) -> Seq<char>
    decreases s.len(),
{
    if s.len() > 0 && !alnum(s[0]) { strip_start_non_alnum(s.drop_first()) } else { s }
}

/// `s` without its trailing characters that are not alphanumeric.
pub open spec fn strip_end_non_alnum(s: Seq<char>) -> Seq<char>
    decreases s.len(),
{
    if s.len() > 0 && !alnum(s.last()) { strip_end_non_alnum(s.drop_last()) } else { s }
}

/// `s` without the characters that are not alphanumeric at either end (what
/// `str::trim_matches(|c| !c.is_alphanumeric())` yields).
pub open spec fn strip_non_alnum(s: Seq<char>) -> Seq<char> {
    strip_end_non_alnum(strip_start_non_alnum(s))
}

proof fn lemma_strip_start_at(s: Seq<char>, k: int)
    requires
        0 <= k <= s.len(),
        forall|j: int| 0 <= j < k ==> !alnum(#[trigger] s[j]),
        k == s.len() || alnum(s[k]),
    ensures
        strip_start_non_alnum(s) == s.subrange(k, s.len() as int),
    decreases k,
{
    if k == 0 {
        assert(s.subrange(0, s.len() as int) =~= s);
    } else {
        let t = s.drop_first();
        assert forall|j: int| 0 <= j < k - 1 implies !alnum(#[trigger] t[j]) by {
            assert(t[j] == s[j + 1]);
        }
        lemma_strip_start_at(t, k - 1);
        assert(t.subrange(k - 1, t.len() as int) =~= s.subrange(k, s.len() as int));
    }
}

proof fn lemma_strip_end_at(s: Seq<char>, k: int)
    requires
        0 <= k <= s.len(),
        forall|j: int| k <= j < s.len() ==> !alnum(#[trigger] s[j]),
        k == 0 || alnum(s[k - 1]),
    ensures
        strip_end_non_alnum(s) == s.subrange(0, k),
    decreases s.len(),
{
    if s.len() > k {
        let t = s.drop_last();
        assert forall|j: int| k <= j < t.len() implies !alnum(#[trigger] t[j]) by {
            assert(t[j] == s[j]);
        }
        lemma_strip_end_at(t, k);
        assert(t.subrange(0, k) =~= s.subrange(0, k));
    } else {
        assert(s.subrange(0, k) =~= s);
    }
}

/// `v` without the characters that are not alphanumeric at either end.
pub fn strip_non_alnum_chars(v: &Vec<char>) -> (r: Vec<char>)
    ensures
        r@ == strip_non_alnum(v@),
{
    let mut a: usize = 0;
    while a < v.len() && !is_alphanumeric(v[a])
        invariant
            a <= v.len(),
            forall|j: int| 0 <= j < a ==> !alnum(#[trigger] v@[j]),
        decreases v.len() - a,
    {
        a += 1;
    }
    let mut b: usize = v.len();
    while b > a && !is_alphanumeric(v[b - 1])
        invariant
            a <= b <= v.len(),
            forall|j: int| b <= j < v.len() ==> !alnum(#[trigger] v@[j]),
        decreases b,
    {
        b -= 1;
    }
    proof {
        lemma_strip_start_at(v@, a as int);
        let t = v@.subrange(a as int, v.len() as int);
        assert forall|j: int| b - a <= j < t.len() implies !alnum(#[trigger] t[j]) by {
            assert(t[j] == v@[a + j]);
        }
        if b > a {
            assert(t[b - a - 1] == v@[b - 1]);
        }
        lemma_strip_end_at(t, b - a);
        assert(t.subrange(0, b - a) =~= v@.subrange(a as int, b as int));
    }
    copy_range(v, a, b)
}

} // verus!
