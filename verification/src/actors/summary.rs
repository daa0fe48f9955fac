//! Texts that name a group of nodes: their first contents joined, with the group's size
//! when it is larger.

use vstd::prelude::*;
use crate::graph::node::{Node, NodeId, NodeView, nodes_view};
use crate::text::string_from_chars;

verus! {

/// The decimal digit of `d` (below 10).
pub open spec fn digit_char(d: nat) -> char {
    if d == 0 { '0' } else if d == 1 { '1' } else if d == 2 { '2' } else if d == 3 { '3' } else if d == 4 { '4' }
    else if d == 5 { '5' } else if d == 6 { '6' } else if d == 7 { '7' } else if d == 8 { '8' } else { '9' }
}

/// The decimal notation of `n`.
pub open spec fn decimal_of(n: nat) -> Seq<char>
    decreases n,
{
    if n < 10 { seq![digit_char(n)] } else { decimal_of(n / 10).push(digit_char(n % 10)) }
}

fn digit(d: usize) -> (c: char)
    requires
        d < 10,
    ensures
        c == digit_char(d as nat),
{
    if d == 0 { '0' } else if d == 1 { '1' } else if d == 2 { '2' } else if d == 3 { '3' } else if d == 4 { '4' }
    else if d == 5 { '5' } else if d == 6 { '6' } else if d == 7 { '7' } else if d == 8 { '8' } else { '9' }
}

/// The decimal notation of `n`.
pub fn decimal(n: usize) -> (r: Vec<char>)
    ensures
        r@ == decimal_of(n as nat),
    decreases n,
{
    if n < 10 {
        let mut v: Vec<char> = Vec::new();
        v.push(digit(n));
        assert(v@ =~= seq![digit_char(n as nat)]);
        v
    } else {
        let mut v = decimal(n / 10);
        v.push(digit(n % 10));
        v
    }
}

/// Texts joined with `", "` between them.
pub open spec fn comma_joined(cs: Seq<Seq<char>>) -> Seq<char>
    decreases cs.len(),
{
    if cs.len() == 0 {
        Seq::empty()
    } else if cs.len() == 1 {
        cs[0]
    } else {
        comma_joined(cs.drop_last()) + seq![',', ' '] + cs.last()
    }
}

/// The position of the first node with id `id`, if any.
pub open spec fn first_with_id(ns: Seq<NodeView>, id: Seq<char>, from: int) -> Option<int>
    decreases ns.len() - from,
{
    if from < 0 || from >= ns.len() {
        None
    } else if ns[from].id == id {
        Some(from)
    } else {
        first_with_id(ns, id, from + 1)
    }
}

/// The contents of the nodes named by `ids` (the first node with each id), in order,
/// skipping ids no node has.
pub open spec fn member_contents(ns: Seq<NodeView>, ids: Seq<Seq<char>>) -> Seq<Seq<char>>
    decreases ids.len(),
{
    if ids.len() == 0 {
        Seq::empty()
    } else {
        let r = member_contents(ns, ids.drop_last());
        match first_with_id(ns, ids.last(), 0) {
            Some(k) => r.push(ns[k].content),
            None => r,
        }
    }
}

/// The name of a group: `<word>: ` and its first three contents joined; for more than
/// three, `<word> (<count> <unit>): `, the first three and ` и др.`.
pub open spec fn group_name(word: Seq<char>, unit: Seq<char>, cs: Seq<Seq<char>>) -> Seq<char> {
    let j = comma_joined(cs.take(if cs.len() < 3 { cs.len() as int } else { 3 }));
    if cs.len() <= 3 {
        word + seq![':', ' '] + j
    } else {
        word + seq![' ', '('] + decimal_of(cs.len()) + seq![' '] + unit + seq![')', ':', ' '] + j + " и др."@
    }
}

/// The content of the first node of `ns` with id `id`, if any.
fn content_of<'a>(ns: &'a Vec<Node>, id: &NodeId) -> (r: Option<&'a String>)
    ensures
        match first_with_id(nodes_view(ns@), id@, 0) {
            Some(k) => r matches Some(c) && c@ == nodes_view(ns@)[k].content,
            None => r is None,
        },
{
    let ghost nv = nodes_view(ns@);
    let mut i: usize = 0;
    while i < ns.len()
        invariant
            i <= ns.len(),
            nv == nodes_view(ns@),
            first_with_id(nv, id@, 0) == first_with_id(nv, id@, i as int),
        decreases ns.len() - i,
    {
        assert(nv[i as int] == ns@[i as int]@);
        if ns[i].id.same(id) {
            return Some(&ns[i].content);
        }
        i += 1;
    }
    None
}

/// The contents of the nodes named by `ids` (see `member_contents`).
pub fn collect_contents(ns: &Vec<Node>, ids: &Vec<NodeId>) -> (r: Vec<Vec<char>>)
    ensures
        crate::text::views_of(r@) == member_contents(nodes_view(ns@), crate::components::ids_view(ids@)),
{
    let ghost iv = crate::components::ids_view(ids@);
    let mut r: Vec<Vec<char>> = Vec::new();
    let mut i: usize = 0;
    while i < ids.len()
        invariant
            i <= ids.len(),
            iv == crate::components::ids_view(ids@),
            crate::text::views_of(r@) == member_contents(nodes_view(ns@), iv.take(i as int)),
        decreases ids.len() - i,
    {
        assert(iv.take(i + 1).drop_last() =~= iv.take(i as int));
        assert(iv.take(i + 1).last() == ids@[i as int]@);
        match content_of(ns, &ids[i]) {
            Some(c) => {
                let ghost before = crate::text::views_of(r@);
                r.push(crate::text::chars_of(c.as_str()));
                assert(crate::text::views_of(r@) =~= before.push(c@));
            },
            None => {},
        }
        i += 1;
    }
    assert(iv.take(ids.len() as int) =~= iv);
    r
}

/// The name of a group (see `group_name`).
pub fn name_group(word: &str, unit: &str, cs: &Vec<Vec<char>>) -> (r: String)
    ensures
        r@ == group_name(word@, unit@, crate::text::views_of(cs@)),
{
    let ghost cv = crate::text::views_of(cs@);
    let k: usize = if cs.len() < 3 { cs.len() } else { 3 };
    let mut j: Vec<char> = Vec::new();
    let mut i: usize = 0;
    while i < k
        invariant
            k <= cs.len(),
            k <= 3,
            k == (if cs.len() < 3 { cs.len() } else { 3 }),
            i <= k,
            cv == crate::text::views_of(cs@),
            j@ == comma_joined(cv.take(i as int)),
        decreases k - i,
    {
        let ghost t1 = cv.take(i + 1);
        assert(t1.drop_last() =~= cv.take(i as int));
        assert(t1.last() == cs@[i as int]@);
        if i > 0 {
            j.push(',');
            j.push(' ');
        } else {
            assert(t1 =~= seq![cs@[0]@]);
        }
        let ghost before = j@;
        let mut m: usize = 0;
        while m < cs[i].len()
            invariant
                i < cs.len(),
                m <= cs@[i as int]@.len(),
                j@ == before + cs@[i as int]@.take(m as int),
            decreases cs@[i as int]@.len() - m,
        {
            j.push(cs[i][m]);
            assert(cs@[i as int]@.take(m + 1) =~= cs@[i as int]@.take(m as int).push(cs@[i as int]@[m as int]));
            m += 1;
        }
        assert(cs@[i as int]@.take(cs@[i as int]@.len() as int) =~= cs@[i as int]@);
        i += 1;
    }
    let joined = string_from_chars(j.as_slice());
    let mut out = word.to_owned();
    if cs.len() <= 3 {
        out.append(": ");
        proof { reveal_strlit(": "); }
        out.append(joined.as_str());
    } else {
        out.append(" (");
        proof { reveal_strlit(" ("); }
        let d = decimal(cs.len());
        out.append(string_from_chars(d.as_slice()).as_str());
        out.append(" ");
        proof { reveal_strlit(" "); }
        out.append(unit);
        out.append("): ");
        proof { reveal_strlit("): "); }
        out.append(joined.as_str());
        out.append(" и др.");
    }
    out
}

} // verus!
