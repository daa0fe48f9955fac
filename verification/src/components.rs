//! Connected components of an undirected graph given as a list of links, found by depth-
//! first search from seeds taken in order.

use vstd::prelude::*;
use crate::graph::node::NodeId;
use crate::graph::{id_set, ids_contain, lemma_id_set_push};

verus! {

broadcast use vstd::seq_lib::seq_to_set_is_finite;

/// The views of a list of links.
pub open spec fn links_of(v: Seq<(NodeId, NodeId)>) -> Seq<(Seq<char>, Seq<char>)> {
    v.map_values(|l: (NodeId, NodeId)| (l.0@, l.1@))
}

/// The views of a list of ids.
pub open spec fn ids_view(v: Seq<NodeId>) -> Seq<Seq<char>> {
    v.map_values(|i: NodeId| i@)
}

/// Some link joins `a` and `b`, in either direction.
pub open spec fn adjacent(links: Seq<(Seq<char>, Seq<char>)>, a: Seq<char>, b: Seq<char>) -> bool {
    exists|i: int| 0 <= i < links.len() && (#[trigger] links[i] == (a, b) || links[i] == (b, a))
}

/// `p` is a walk along links.
pub open spec fn is_walk(links: Seq<(Seq<char>, Seq<char>)>, p: Seq<Seq<char>>) -> bool {
    &&& p.len() >= 1
    &&& forall|i: int| 0 <= i < p.len() - 1 ==> adjacent(links, #[trigger] p[i], p[i + 1])
}

/// A walk leads from `a` to `b`.
pub open spec fn connected(links: Seq<(Seq<char>, Seq<char>)>, a: Seq<char>, b: Seq<char>) -> bool {
    exists|p: Seq<Seq<char>>| #[trigger] is_walk(links, p) && p[0] == a && p.last() == b
}

/// No link leaves the set `c`.
pub open spec fn closed(links: Seq<(Seq<char>, Seq<char>)>, c: Set<Seq<char>>) -> bool {
    forall|x: Seq<char>, y: Seq<char>| c.contains(x) && #[trigger] adjacent(links, x, y) ==> c.contains(y)
}

/// The position `i` holds the first occurrence of its seed.
pub open spec fn first_occurrence(seeds: Seq<Seq<char>>, i: int) -> bool {
    forall|i3: int| 0 <= i3 < i ==> seeds[i3] != seeds[i]
}

/// Each component is a duplicate-free list, closed under links, of nodes connected to its
/// first member, which is a seed.
#[verifier::opaque]
pub open spec fn comps_sound(seeds: Seq<Seq<char>>, links: Seq<(Seq<char>, Seq<char>)>, comps: Seq<Seq<Seq<char>>>) -> bool {
    forall|k: int| 0 <= k < comps.len() ==> {
        &&& (#[trigger] comps[k]).len() >= 1
        &&& comps[k].no_duplicates()
        &&& seeds.contains(comps[k][0])
        &&& closed(links, comps[k].to_set())
        &&& forall|j: int| 0 <= j < comps[k].len() ==> connected(links, comps[k][0], #[trigger] comps[k][j])
    }
}

/// No node is in two components.
#[verifier::opaque]
pub open spec fn comps_disjoint(comps: Seq<Seq<Seq<char>>>) -> bool {
    forall|k1: int, k2: int, a: int, b: int| 0 <= k1 < comps.len() && 0 <= k2 < comps.len() && k1 != k2
        && 0 <= a < comps[k1].len() && 0 <= b < comps[k2].len() ==> #[trigger] comps[k1][a] != #[trigger] comps[k2][b]
}

/// Every seed lies in some component.
#[verifier::opaque]
pub open spec fn seeds_met(seeds: Seq<Seq<char>>, comps: Seq<Seq<Seq<char>>>) -> bool {
    forall|i: int| 0 <= i < seeds.len() ==> met(comps).contains(#[trigger] seeds[i])
}

/// A component starting at the first occurrence of a seed comes after the components
/// holding every earlier seed.
#[verifier::opaque]
pub open spec fn starts_first(seeds: Seq<Seq<char>>, comps: Seq<Seq<Seq<char>>>) -> bool {
    forall|k: int, i: int| 0 <= k < comps.len() && 0 <= i < seeds.len() && #[trigger] comps[k][0] == #[trigger] seeds[i]
        && first_occurrence(seeds, i) ==>
        forall|i2: int| 0 <= i2 < i ==> met(comps.take(k)).contains(#[trigger] seeds[i2])
}

/// `comps` are the connected components met from `seeds` in order: each starts with a
/// seed not met before (the first such seed after the previous component's), holds that
/// seed's whole component once, and every seed is met.
pub open spec fn components_of(
    seeds: Seq<Seq<char>>,
    links: Seq<(Seq<char>, Seq<char>)>,
    comps: Seq<Seq<Seq<char>>>,
) -> bool {
    &&& comps_sound(seeds, links, comps)
    &&& comps_disjoint(comps)
    &&& seeds_met(seeds, comps)
    &&& starts_first(seeds, comps)
}

/// A walk extended by a node adjacent to its last one is still a walk, from the same
/// first node to the new one.
pub proof fn lemma_walk_extend(links: Seq<(Seq<char>, Seq<char>)>, p: Seq<Seq<char>>, y: Seq<char>)
    requires
        is_walk(links, p),
        adjacent(links, p.last(), y),
    ensures
        is_walk(links, p.push(y)),
        p.push(y)[0] == p[0],
        p.push(y).last() == y,
{
    let q = p.push(y);
    assert forall|i: int| 0 <= i < q.len() - 1 implies adjacent(links, #[trigger] q[i], q[i + 1]) by {
        if i < p.len() - 1 {
            assert(q[i] == p[i] && q[i + 1] == p[i + 1]);
        } else {
            assert(q[i] == p.last());
        }
    }
}

/// A walk that starts inside a set no link leaves ends inside it.
pub proof fn lemma_walk_stays(links: Seq<(Seq<char>, Seq<char>)>, c: Set<Seq<char>>, p: Seq<Seq<char>>)
    requires
        closed(links, c),
        is_walk(links, p),
        c.contains(p[0]),
    ensures
        c.contains(p.last()),
    decreases p.len(),
{
    if p.len() > 1 {
        let q = p.drop_last();
        assert forall|i: int| 0 <= i < q.len() - 1 implies adjacent(links, #[trigger] q[i], q[i + 1]) by {
            assert(q[i] == p[i] && q[i + 1] == p[i + 1]);
            assert(adjacent(links, p[i], p[i + 1]));
        }
        lemma_walk_stays(links, c, q);
        assert(adjacent(links, p[p.len() - 2], p[p.len() - 1]));
    }
}

/// Components are exactly connectivity classes: a node lies in a component if and only
/// if a walk leads to it from the component's first member; every seed lies in some
/// component, and no node in two.
pub proof fn law_components_are_classes(
    seeds: Seq<Seq<char>>,
    links: Seq<(Seq<char>, Seq<char>)>,
    comps: Seq<Seq<Seq<char>>>,
)
    requires
        components_of(seeds, links, comps),
    ensures
        forall|k: int, y: Seq<char>| 0 <= k < comps.len() ==>
            (#[trigger] comps[k].contains(y) <==> connected(links, comps[k][0], y)),
        forall|i: int| 0 <= i < seeds.len() ==> met(comps).contains(#[trigger] seeds[i]),
        forall|k1: int, k2: int, y: Seq<char>| 0 <= k1 < comps.len() && 0 <= k2 < comps.len()
            && #[trigger] comps[k1].contains(y) && #[trigger] comps[k2].contains(y) ==> k1 == k2,
{
    reveal(comps_sound);
    reveal(comps_disjoint);
    reveal(seeds_met);
    assert forall|k: int, y: Seq<char>| 0 <= k < comps.len() implies
        (#[trigger] comps[k].contains(y) <==> connected(links, comps[k][0], y)) by {
        if comps[k].contains(y) {
            let j = choose|j: int| 0 <= j < comps[k].len() && comps[k][j] == y;
            assert(connected(links, comps[k][0], comps[k][j]));
        }
        if connected(links, comps[k][0], y) {
            let p = choose|p: Seq<Seq<char>>| #[trigger] is_walk(links, p) && p[0] == comps[k][0] && p.last() == y;
            assert(comps[k].to_set().contains(comps[k][0]));
            lemma_walk_stays(links, comps[k].to_set(), p);
            assert(comps[k].to_set().contains(y));
        }
    }
    assert forall|k1: int, k2: int, y: Seq<char>| 0 <= k1 < comps.len() && 0 <= k2 < comps.len()
        && #[trigger] comps[k1].contains(y) && #[trigger] comps[k2].contains(y) implies k1 == k2 by {
        if k1 != k2 {
            let a = choose|a: int| 0 <= a < comps[k1].len() && comps[k1][a] == y;
            let b = choose|b: int| 0 <= b < comps[k2].len() && comps[k2][b] == y;
            assert(comps[k1][a] != comps[k2][b]);
        }
    }
}

/// The views of a list of components.
pub open spec fn comps_view(v: Seq<Vec<NodeId>>) -> Seq<Seq<Seq<char>>> {
    v.map_values(|c: Vec<NodeId>| ids_view(c@))
}

/// The nodes of some component.
pub open spec fn met(cs: Seq<Seq<Seq<char>>>) -> Set<Seq<char>> {
    Set::new(|x: Seq<char>| exists|k: int| 0 <= k < cs.len() && (#[trigger] cs[k]).contains(x))
}

/// Every node the search can meet: the seeds and the ends of the links.
pub open spec fn meetable(seeds: Seq<Seq<char>>, links: Seq<(Seq<char>, Seq<char>)>) -> Set<Seq<char>> {
    (seeds + links.map_values(|l: (Seq<char>, Seq<char>)| l.0) + links.map_values(|l: (Seq<char>, Seq<char>)| l.1)).to_set()
}

proof fn lemma_meetable(seeds: Seq<Seq<char>>, links: Seq<(Seq<char>, Seq<char>)>)
    ensures
        forall|i: int| 0 <= i < seeds.len() ==> meetable(seeds, links).contains(#[trigger] seeds[i]),
        forall|j: int| 0 <= j < links.len() ==> meetable(seeds, links).contains((#[trigger] links[j]).0)
            && meetable(seeds, links).contains(links[j].1),
{
    let s = seeds + links.map_values(|l: (Seq<char>, Seq<char>)| l.0) + links.map_values(|l: (Seq<char>, Seq<char>)| l.1);
    assert forall|i: int| 0 <= i < seeds.len() implies meetable(seeds, links).contains(#[trigger] seeds[i]) by {
        assert(s[i] == seeds[i]);
    }
    assert forall|j: int| 0 <= j < links.len() implies meetable(seeds, links).contains((#[trigger] links[j]).0)
        && meetable(seeds, links).contains(links[j].1) by {
        assert(s[seeds.len() + j] == links[j].0);
        assert(s[seeds.len() + links.len() + j] == links[j].1);
    }
}

/// The invariant of the search between components.
pub open spec fn outer_inv(
    seeds: Seq<Seq<char>>,
    links: Seq<(Seq<char>, Seq<char>)>,
    cs: Seq<Seq<Seq<char>>>,
    vis: Set<Seq<char>>,
    si: int,
) -> bool {
    &&& 0 <= si <= seeds.len()
    &&& vis == met(cs)
    &&& vis.subset_of(meetable(seeds, links))
    &&& comps_sound(seeds, links, cs)
    &&& comps_disjoint(cs)
    &&& seeds_met(seeds.take(si), cs)
    &&& starts_first(seeds, cs)
    &&& starts_before(seeds, cs, si)
}

/// Every component starts at a seed before `si`.
#[verifier::opaque]
pub open spec fn starts_before(seeds: Seq<Seq<char>>, cs: Seq<Seq<Seq<char>>>, si: int) -> bool {
    forall|k: int| 0 <= k < cs.len() ==> exists|i: int| 0 <= i < si && (#[trigger] cs[k])[0] == #[trigger] seeds[i]
}

/// The invariant of the depth-first search of one component from `seed`.
#[verifier::opaque]
pub open spec fn dfs_inv(
    seeds: Seq<Seq<char>>,
    links: Seq<(Seq<char>, Seq<char>)>,
    cs: Seq<Seq<Seq<char>>>,
    vis: Set<Seq<char>>,
    comp: Seq<Seq<char>>,
    stack: Seq<Seq<char>>,
    seed: Seq<char>,
) -> bool {
    &&& vis == met(cs).union(comp.to_set())
    &&& vis.subset_of(meetable(seeds, links))
    &&& stack.to_set().subset_of(meetable(seeds, links))
    &&& comp.len() > 0 ==> comp[0] == seed
    &&& comp.len() == 0 ==> stack == seq![seed] && !vis.contains(seed)
    &&& comp.no_duplicates()
    &&& forall|j: int| 0 <= j < comp.len() ==> !met(cs).contains(#[trigger] comp[j])
    &&& forall|j: int| 0 <= j < comp.len() ==> connected(links, seed, #[trigger] comp[j])
    &&& forall|j: int| 0 <= j < stack.len() ==> connected(links, seed, #[trigger] stack[j])
    &&& forall|x: Seq<char>, y: Seq<char>| comp.contains(x) && #[trigger] adjacent(links, x, y) ==>
        vis.contains(y) || stack.contains(y)
}

/// Link `j` joins `x` and `y`, in either direction.
pub open spec fn joins(l: Seq<(Seq<char>, Seq<char>)>, j: int, x: Seq<char>, y: Seq<char>) -> bool {
    l[j] == (x, y) || l[j] == (y, x)
}

proof fn lemma_adjacent_sym(links: Seq<(Seq<char>, Seq<char>)>, a: Seq<char>, b: Seq<char>)
    requires
        adjacent(links, a, b),
    ensures
        adjacent(links, b, a),
{
    let i = choose|i: int| 0 <= i < links.len() && (#[trigger] links[i] == (a, b) || links[i] == (b, a));
    assert(links[i] == (b, a) || links[i] == (a, b));
}

proof fn lemma_connected_self(links: Seq<(Seq<char>, Seq<char>)>, a: Seq<char>)
    ensures
        connected(links, a, a),
{
    let p = seq![a];
    assert(is_walk(links, p));
}

proof fn lemma_connected_step(links: Seq<(Seq<char>, Seq<char>)>, a: Seq<char>, x: Seq<char>, y: Seq<char>)
    requires
        connected(links, a, x),
        adjacent(links, x, y),
    ensures
        connected(links, a, y),
{
    let p = choose|p: Seq<Seq<char>>| #[trigger] is_walk(links, p) && p[0] == a && p.last() == x;
    lemma_walk_extend(links, p, y);
    assert(is_walk(links, p.push(y)));
}

/// Push onto `stack` every neighbour of `x` not yet visited.
fn push_neighbors(x: &NodeId, links: &Vec<(NodeId, NodeId)>, visited: &Vec<NodeId>, stack: &mut Vec<NodeId>)
    ensures
        ids_view(final(stack)@).len() >= ids_view(old(stack)@).len(),
        ids_view(final(stack)@).subrange(0, ids_view(old(stack)@).len() as int) == ids_view(old(stack)@),
        forall|k: int| ids_view(old(stack)@).len() <= k < ids_view(final(stack)@).len() ==>
            adjacent(links_of(links@), x@, #[trigger] ids_view(final(stack)@)[k]),
        forall|y: Seq<char>| #[trigger] adjacent(links_of(links@), x@, y) ==>
            id_set(visited@).contains(y) || ids_view(final(stack)@).contains(y),
{
    let ghost l = links_of(links@);
    let ghost s0 = ids_view(stack@);
    let mut j: usize = 0;
    while j < links.len()
        invariant
            j <= links.len(),
            l == links_of(links@),
            ids_view(stack@).len() >= s0.len(),
            ids_view(stack@).subrange(0, s0.len() as int) == s0,
            forall|k: int| s0.len() <= k < ids_view(stack@).len() ==>
                adjacent(l, x@, #[trigger] ids_view(stack@)[k]),
            forall|y: Seq<char>, j2: int| 0 <= j2 < j && #[trigger] joins(l, j2, x@, y) ==>
                id_set(visited@).contains(y) || ids_view(stack@).contains(y),
        decreases links.len() - j,
    {
        let ghost before = ids_view(stack@);
        assert(l[j as int] == (links@[j as int].0@, links@[j as int].1@));
        if links[j].0.same(x) && !ids_contain(visited, &links[j].1) {
            stack.push(links[j].1.clone());
            assert(ids_view(stack@) =~= before.push(l[j as int].1));
        }
        let ghost mid = ids_view(stack@);
        if links[j].1.same(x) && !ids_contain(visited, &links[j].0) {
            stack.push(links[j].0.clone());
            assert(ids_view(stack@) =~= mid.push(l[j as int].0));
        }
        proof {
            let now_s = ids_view(stack@);
            assert(now_s.subrange(0, s0.len() as int) =~= s0) by {
                assert forall|k: int| 0 <= k < s0.len() implies now_s[k] == s0[k] by {
                    assert(before[k] == s0[k]);
                }
            }
            assert forall|k: int| 0 <= k < before.len() implies now_s[k] == before[k] by {}
            assert forall|y: Seq<char>, j2: int| 0 <= j2 < j + 1 && #[trigger] joins(l, j2, x@, y) implies
                id_set(visited@).contains(y) || now_s.contains(y) by {
                if j2 < j {
                    if before.contains(y) {
                        let k = choose|k: int| 0 <= k < before.len() && before[k] == y;
                        assert(now_s[k] == y);
                    }
                } else {
                    if !id_set(visited@).contains(y) {
                        if l[j2] == (x@, y) {
                            assert(mid[before.len() as int] == y);
                            assert(now_s[before.len() as int] == y);
                        } else {
                            assert(now_s[mid.len() as int] == y);
                        }
                    }
                }
            }
            assert forall|k: int| s0.len() <= k < now_s.len() implies adjacent(l, x@, #[trigger] now_s[k]) by {
                if k < before.len() {
                    assert(now_s[k] == before[k]);
                    assert(adjacent(l, x@, before[k]));
                } else if k < mid.len() {
                    assert(now_s[k] == mid[k]);
                    assert(l[j as int] == (x@, now_s[k]));
                } else {
                    assert(l[j as int] == (now_s[k], x@));
                }
            }
        }
        j += 1;
    }
    proof {
        assert forall|y: Seq<char>| #[trigger] adjacent(l, x@, y) implies
            id_set(visited@).contains(y) || ids_view(stack@).contains(y) by {
            let j2 = choose|j2: int| 0 <= j2 < l.len() && (#[trigger] l[j2] == (x@, y) || l[j2] == (y, x@));
            assert(joins(l, j2, x@, y));
        }
    }
}

proof fn lemma_met_push(cs: Seq<Seq<Seq<char>>>, c: Seq<Seq<char>>)
    ensures
        met(cs.push(c)) == met(cs).union(c.to_set()),
{
    let a = met(cs.push(c));
    let b = met(cs).union(c.to_set());
    assert forall|x: Seq<char>| a.contains(x) <==> b.contains(x) by {
        if a.contains(x) {
            let k = choose|k: int| 0 <= k < cs.push(c).len() && (#[trigger] cs.push(c)[k]).contains(x);
            if k < cs.len() {
                assert(cs.push(c)[k] == cs[k]);
            }
        }
        if met(cs).contains(x) {
            let k = choose|k: int| 0 <= k < cs.len() && (#[trigger] cs[k]).contains(x);
            assert(cs.push(c)[k] == cs[k]);
        }
        if c.to_set().contains(x) {
            assert(cs.push(c)[cs.len() as int] == c);
        }
    }
    assert(a =~= b);
}

proof fn lemma_adjacent_meetable(seeds: Seq<Seq<char>>, links: Seq<(Seq<char>, Seq<char>)>, x: Seq<char>, y: Seq<char>)
    requires
        adjacent(links, x, y),
    ensures
        meetable(seeds, links).contains(y),
{
    lemma_meetable(seeds, links);
    let i = choose|i: int| 0 <= i < links.len() && (#[trigger] links[i] == (x, y) || links[i] == (y, x));
    assert(meetable(seeds, links).contains(links[i].0) && meetable(seeds, links).contains(links[i].1));
}

proof fn lemma_outer_init(seeds: Seq<Seq<char>>, links: Seq<(Seq<char>, Seq<char>)>)
    ensures
        outer_inv(seeds, links, Seq::empty(), Set::empty(), 0),
{
    assert(met(Seq::<Seq<Seq<char>>>::empty()) =~= Set::<Seq<char>>::empty());
    reveal(comps_sound);
    reveal(comps_disjoint);
    reveal(seeds_met);
    reveal(starts_first);
    reveal(starts_before);
}

proof fn lemma_outer_skip(
    seeds: Seq<Seq<char>>, links: Seq<(Seq<char>, Seq<char>)>, cs: Seq<Seq<Seq<char>>>, vis: Set<Seq<char>>, si: int,
)
    requires
        outer_inv(seeds, links, cs, vis, si),
        si < seeds.len(),
        vis.contains(seeds[si]),
    ensures
        outer_inv(seeds, links, cs, vis, si + 1),
{
    reveal(seeds_met);
    reveal(starts_before);
    let t = seeds.take(si + 1);
    assert forall|i: int| 0 <= i < t.len() implies met(cs).contains(#[trigger] t[i]) by {
        if i < si {
            assert(seeds.take(si)[i] == t[i]);
        }
    }
    assert forall|k: int| 0 <= k < cs.len() implies exists|i: int| 0 <= i < si + 1 && (#[trigger] cs[k])[0] == #[trigger] seeds[i] by {
        let i = choose|i: int| 0 <= i < si && (#[trigger] cs[k])[0] == #[trigger] seeds[i];
    }
}

proof fn lemma_dfs_init(
    seeds: Seq<Seq<char>>, links: Seq<(Seq<char>, Seq<char>)>, cs: Seq<Seq<Seq<char>>>, vis: Set<Seq<char>>, si: int,
)
    requires
        outer_inv(seeds, links, cs, vis, si),
        si < seeds.len(),
        !vis.contains(seeds[si]),
    ensures
        dfs_inv(seeds, links, cs, vis, Seq::empty(), seq![seeds[si]], seeds[si]),
{
    reveal(dfs_inv);
    lemma_meetable(seeds, links);
    lemma_connected_self(links, seeds[si]);
    assert(Seq::<Seq<char>>::empty().to_set() =~= Set::<Seq<char>>::empty());
    assert(met(cs).union(Set::<Seq<char>>::empty()) =~= met(cs));
    assert(seq![seeds[si]] =~= Seq::<Seq<char>>::empty().push(seeds[si]));
    Seq::<Seq<char>>::empty().lemma_push_to_set_commute(seeds[si]);
    assert(seq![seeds[si]].to_set() =~= Set::<Seq<char>>::empty().insert(seeds[si]));
}

proof fn lemma_dfs_pop_seen(
    seeds: Seq<Seq<char>>, links: Seq<(Seq<char>, Seq<char>)>, cs: Seq<Seq<Seq<char>>>, vis: Set<Seq<char>>,
    comp: Seq<Seq<char>>, stack: Seq<Seq<char>>, seed: Seq<char>,
)
    requires
        dfs_inv(seeds, links, cs, vis, comp, stack, seed),
        stack.len() > 0,
        vis.contains(stack.last()),
    ensures
        dfs_inv(seeds, links, cs, vis, comp, stack.drop_last(), seed),
{
    reveal(dfs_inv);
    let st1 = stack.drop_last();
    assert(stack =~= st1.push(stack.last()));
    st1.lemma_push_to_set_commute(stack.last());
    assert forall|x: Seq<char>, y: Seq<char>| comp.contains(x) && #[trigger] adjacent(links, x, y) implies
        vis.contains(y) || st1.contains(y) by {
        if stack.contains(y) && !vis.contains(y) {
            let k = choose|k: int| 0 <= k < stack.len() && stack[k] == y;
            assert(k != stack.len() - 1);
            assert(st1[k] == y);
        }
    }
    assert forall|j: int| 0 <= j < st1.len() implies connected(links, seed, #[trigger] st1[j]) by {
        assert(st1[j] == stack[j]);
    }
    if comp.len() == 0 {
        assert(stack.last() == seed);
    }
}

#[verifier::rlimit(60)]
proof fn lemma_dfs_visit(
    seeds: Seq<Seq<char>>, links: Seq<(Seq<char>, Seq<char>)>, cs: Seq<Seq<Seq<char>>>, vis: Set<Seq<char>>,
    comp: Seq<Seq<char>>, stack: Seq<Seq<char>>, seed: Seq<char>, ns: Seq<Seq<char>>,
)
    requires
        dfs_inv(seeds, links, cs, vis, comp, stack, seed),
        stack.len() > 0,
        !vis.contains(stack.last()),
        ns.len() >= stack.len() - 1,
        ns.subrange(0, stack.len() - 1) == stack.drop_last(),
        forall|k: int| stack.len() - 1 <= k < ns.len() ==> adjacent(links, stack.last(), #[trigger] ns[k]),
        forall|y: Seq<char>| #[trigger] adjacent(links, stack.last(), y) ==>
            vis.insert(stack.last()).contains(y) || ns.contains(y),
    ensures
        dfs_inv(seeds, links, cs, vis.insert(stack.last()), comp.push(stack.last()), ns, seed),
{
    reveal(dfs_inv);
    let x = stack.last();
    let st1 = stack.drop_last();
    let vis2 = vis.insert(x);
    let comp2 = comp.push(x);
    assert(stack =~= st1.push(x));
    st1.lemma_push_to_set_commute(x);
    comp.lemma_push_to_set_commute(x);
    assert(stack.contains(x));
    assert(stack.to_set().contains(x));
    assert(vis2 =~= met(cs).union(comp2.to_set()));
    assert forall|k: int| 0 <= k < ns.len() implies meetable(seeds, links).contains(#[trigger] ns[k]) by {
        if k < st1.len() {
            assert(ns[k] == ns.subrange(0, stack.len() - 1)[k]);
            assert(ns[k] == stack[k]);
            assert(stack.to_set().contains(stack[k]));
        } else {
            lemma_adjacent_meetable(seeds, links, x, ns[k]);
        }
    }
    assert(ns.to_set().subset_of(meetable(seeds, links))) by {
        assert forall|y: Seq<char>| ns.to_set().contains(y) implies meetable(seeds, links).contains(y) by {
            let k = choose|k: int| 0 <= k < ns.len() && ns[k] == y;
        }
    }
    if comp.len() == 0 {
        assert(stack == seq![seed]);
        assert(x == seed);
    }
    assert(!comp.contains(x)) by {
        if comp.contains(x) {
            assert(comp.to_set().contains(x));
        }
    }
    assert(comp2.no_duplicates()) by {
        assert forall|a: int, b: int| 0 <= a < comp2.len() && 0 <= b < comp2.len() && a != b implies comp2[a] != comp2[b] by {
            if a < comp.len() && b < comp.len() {
            } else if a < comp.len() {
                assert(comp.contains(comp[a]));
            } else {
                assert(comp.contains(comp[b]));
            }
        }
    }
    assert forall|j: int| 0 <= j < comp2.len() implies !met(cs).contains(#[trigger] comp2[j]) by {
        if j < comp.len() {
            assert(comp2[j] == comp[j]);
        }
    }
    assert(connected(links, seed, x)) by {
        assert(stack[stack.len() - 1] == x);
    }
    assert forall|j: int| 0 <= j < comp2.len() implies connected(links, seed, #[trigger] comp2[j]) by {
        if j < comp.len() {
            assert(comp2[j] == comp[j]);
        }
    }
    assert forall|k: int| 0 <= k < ns.len() implies connected(links, seed, #[trigger] ns[k]) by {
        if k < st1.len() {
            assert(ns[k] == ns.subrange(0, stack.len() - 1)[k]);
            assert(ns[k] == stack[k]);
        } else {
            lemma_connected_step(links, seed, x, ns[k]);
        }
    }
    assert forall|a: Seq<char>, y: Seq<char>| comp2.contains(a) && #[trigger] adjacent(links, a, y) implies
        vis2.contains(y) || ns.contains(y) by {
        if a == x {
        } else {
            let j = choose|j: int| 0 <= j < comp2.len() && comp2[j] == a;
            assert(j < comp.len());
            assert(comp.contains(a));
            if stack.contains(y) && !vis2.contains(y) {
                let k = choose|k: int| 0 <= k < stack.len() && stack[k] == y;
                assert(k < st1.len());
                assert(ns.subrange(0, stack.len() - 1)[k] == st1[k]);
                assert(ns[k] == y);
            }
        }
    }
}

proof fn lemma_closed_comp(
    seeds: Seq<Seq<char>>, links: Seq<(Seq<char>, Seq<char>)>, cs: Seq<Seq<Seq<char>>>,
    vis: Set<Seq<char>>, comp: Seq<Seq<char>>, seed: Seq<char>,
)
    requires
        comps_sound(seeds, links, cs),
        dfs_inv(seeds, links, cs, vis, comp, Seq::empty(), seed),
    ensures
        closed(links, comp.to_set()),
        comp.len() > 0,
        comp[0] == seed,
        vis == met(cs).union(comp.to_set()),
        vis.subset_of(meetable(seeds, links)),
        comp.no_duplicates(),
        forall|j: int| 0 <= j < comp.len() ==> !met(cs).contains(#[trigger] comp[j]),
        forall|j: int| 0 <= j < comp.len() ==> connected(links, seed, #[trigger] comp[j]),
{
    reveal(dfs_inv);
    if comp.len() == 0 {
        assert(seq![seed].len() == 1);
    }
    assert forall|x: Seq<char>, y: Seq<char>| comp.to_set().contains(x) && #[trigger] adjacent(links, x, y)
        implies comp.to_set().contains(y) by {
        assert(comp.contains(x));
        assert(vis.contains(y));
        if met(cs).contains(y) {
            reveal(comps_sound);
            let k = choose|k: int| 0 <= k < cs.len() && (#[trigger] cs[k]).contains(y);
            lemma_adjacent_sym(links, x, y);
            assert(cs[k].to_set().contains(y));
            assert(closed(links, cs[k].to_set()));
            assert(cs[k].to_set().contains(x));
            assert(met(cs).contains(x));
            let j = choose|j: int| 0 <= j < comp.len() && comp[j] == x;
            assert(!met(cs).contains(comp[j]));
        }
    }
}

proof fn lemma_sound_push(
    seeds: Seq<Seq<char>>, links: Seq<(Seq<char>, Seq<char>)>, cs: Seq<Seq<Seq<char>>>, comp: Seq<Seq<char>>,
)
    requires
        comps_sound(seeds, links, cs),
        comp.len() >= 1,
        comp.no_duplicates(),
        seeds.contains(comp[0]),
        closed(links, comp.to_set()),
        forall|j: int| 0 <= j < comp.len() ==> connected(links, comp[0], #[trigger] comp[j]),
    ensures
        comps_sound(seeds, links, cs.push(comp)),
{
    reveal(comps_sound);
    let cs2 = cs.push(comp);
    assert forall|k: int| 0 <= k < cs2.len() implies {
        &&& (#[trigger] cs2[k]).len() >= 1
        &&& cs2[k].no_duplicates()
        &&& seeds.contains(cs2[k][0])
        &&& closed(links, cs2[k].to_set())
        &&& forall|j: int| 0 <= j < cs2[k].len() ==> connected(links, cs2[k][0], #[trigger] cs2[k][j])
    } by {
        if k < cs.len() {
            assert(cs2[k] == cs[k]);
        } else {
            assert(cs2[k] == comp);
        }
    }
}

proof fn lemma_disjoint_push(cs: Seq<Seq<Seq<char>>>, comp: Seq<Seq<char>>)
    requires
        comps_disjoint(cs),
        forall|j: int| 0 <= j < comp.len() ==> !met(cs).contains(#[trigger] comp[j]),
    ensures
        comps_disjoint(cs.push(comp)),
{
    reveal(comps_disjoint);
    let cs2 = cs.push(comp);
    assert forall|k1: int, k2: int, a: int, b: int| 0 <= k1 < cs2.len() && 0 <= k2 < cs2.len() && k1 != k2
        && 0 <= a < cs2[k1].len() && 0 <= b < cs2[k2].len() implies #[trigger] cs2[k1][a] != #[trigger] cs2[k2][b] by {
        if k1 < cs.len() && k2 < cs.len() {
            assert(cs2[k1] == cs[k1] && cs2[k2] == cs[k2]);
        } else if k1 < cs.len() {
            assert(cs2[k1] == cs[k1]);
            assert(cs2[k2] == comp);
            assert(cs[k1].contains(cs[k1][a]));
            assert(met(cs).contains(cs2[k1][a]));
            assert(!met(cs).contains(comp[b]));
        } else {
            assert(cs2[k2] == cs[k2]);
            assert(cs2[k1] == comp);
            assert(cs[k2].contains(cs[k2][b]));
            assert(met(cs).contains(cs2[k2][b]));
            assert(!met(cs).contains(comp[a]));
        }
    }
}

proof fn lemma_starts_push(seeds: Seq<Seq<char>>, cs: Seq<Seq<Seq<char>>>, comp: Seq<Seq<char>>, si: int)
    requires
        starts_first(seeds, cs),
        starts_before(seeds, cs, si),
        0 <= si < seeds.len(),
        comp.len() >= 1,
        comp[0] == seeds[si],
        !met(cs).contains(seeds[si]),
        seeds_met(seeds.take(si), cs),
    ensures
        starts_first(seeds, cs.push(comp)),
        starts_before(seeds, cs.push(comp), si + 1),
{
    reveal(starts_first);
    reveal(starts_before);
    reveal(seeds_met);
    let cs2 = cs.push(comp);
    assert forall|k: int| 0 <= k <= cs.len() implies #[trigger] cs2.take(k) == cs.take(k) by {
        assert(cs2.take(k) =~= cs.take(k));
    }
    assert(cs.take(cs.len() as int) =~= cs);
    assert forall|k: int, i: int| 0 <= k < cs2.len() && 0 <= i < seeds.len() && #[trigger] cs2[k][0] == #[trigger] seeds[i]
        && first_occurrence(seeds, i) implies
        forall|i2: int| 0 <= i2 < i ==> met(cs2.take(k)).contains(#[trigger] seeds[i2]) by {
        if k < cs.len() {
            assert(cs2[k] == cs[k]);
            assert(cs2.take(k) == cs.take(k));
        } else {
            assert(cs2[k] == comp);
            if i < si {
                assert(seeds.take(si)[i] == seeds[i]);
                assert(met(cs).contains(seeds[i]));
            } else if i > si {
                assert(seeds[si] != seeds[i]);
            }
            assert(i == si);
            assert(cs2.take(k) == cs);
            assert forall|i2: int| 0 <= i2 < i implies met(cs2.take(k)).contains(#[trigger] seeds[i2]) by {
                assert(seeds.take(si)[i2] == seeds[i2]);
            }
        }
    }
    assert forall|k: int| 0 <= k < cs2.len() implies exists|i: int| 0 <= i < si + 1 && (#[trigger] cs2[k])[0] == #[trigger] seeds[i] by {
        if k < cs.len() {
            let i = choose|i: int| 0 <= i < si && (#[trigger] cs[k])[0] == #[trigger] seeds[i];
            assert(cs2[k] == cs[k]);
        } else {
            assert(cs2[k][0] == seeds[si]);
        }
    }
}

proof fn lemma_dfs_done(
    seeds: Seq<Seq<char>>, links: Seq<(Seq<char>, Seq<char>)>, cs: Seq<Seq<Seq<char>>>, vis0: Set<Seq<char>>,
    vis: Set<Seq<char>>, comp: Seq<Seq<char>>, si: int,
)
    requires
        outer_inv(seeds, links, cs, vis0, si),
        si < seeds.len(),
        !vis0.contains(seeds[si]),
        dfs_inv(seeds, links, cs, vis, comp, Seq::empty(), seeds[si]),
    ensures
        outer_inv(seeds, links, cs.push(comp), vis, si + 1),
{
    let seed = seeds[si];
    lemma_closed_comp(seeds, links, cs, vis, comp, seed);
    lemma_met_push(cs, comp);
    assert(seeds.contains(comp[0])) by {
        assert(seeds[si] == comp[0]);
    }
    lemma_sound_push(seeds, links, cs, comp);
    lemma_disjoint_push(cs, comp);
    lemma_starts_push(seeds, cs, comp, si);
    reveal(seeds_met);
    let t = seeds.take(si + 1);
    assert forall|i: int| 0 <= i < t.len() implies met(cs.push(comp)).contains(#[trigger] t[i]) by {
        if i < si {
            assert(seeds.take(si)[i] == t[i]);
            assert(met(cs).contains(t[i]));
        } else {
            assert(t[i] == comp[0]);
            assert(comp.to_set().contains(comp[0]));
        }
    }
}

proof fn lemma_outer_final(
    seeds: Seq<Seq<char>>, links: Seq<(Seq<char>, Seq<char>)>, cs: Seq<Seq<Seq<char>>>, vis: Set<Seq<char>>,
)
    requires
        outer_inv(seeds, links, cs, vis, seeds.len() as int),
    ensures
        components_of(seeds, links, cs),
{
    assert(seeds.take(seeds.len() as int) =~= seeds);
}

/// The connected components of the graph of `links` met from `seeds` in order (see
/// `components_of`).
pub fn connected_components(seeds: &Vec<NodeId>, links: &Vec<(NodeId, NodeId)>) -> (r: Vec<Vec<NodeId>>)
    ensures
        components_of(ids_view(seeds@), links_of(links@), comps_view(r@)),
{
    let ghost sv = ids_view(seeds@);
    let ghost lv = links_of(links@);
    let ghost cand = meetable(sv, lv);
    let mut visited: Vec<NodeId> = Vec::new();
    let mut comps: Vec<Vec<NodeId>> = Vec::new();
    proof {
        lemma_outer_init(sv, lv);
        assert(id_set(visited@) =~= Set::<Seq<char>>::empty());
        assert(comps_view(comps@) =~= Seq::<Seq<Seq<char>>>::empty());
    }
    let mut si: usize = 0;
    while si < seeds.len()
        invariant
            sv == ids_view(seeds@),
            lv == links_of(links@),
            cand == meetable(sv, lv),
            si <= seeds.len(),
            outer_inv(sv, lv, comps_view(comps@), id_set(visited@), si as int),
        decreases seeds.len() - si,
    {
        assert(sv[si as int] == seeds@[si as int]@);
        if ids_contain(&visited, &seeds[si]) {
            proof {
                lemma_outer_skip(sv, lv, comps_view(comps@), id_set(visited@), si as int);
            }
            si += 1;
            continue;
        }
        let ghost cs = comps_view(comps@);
        let ghost vis0 = id_set(visited@);
        let seed = seeds[si].clone();
        let mut comp: Vec<NodeId> = Vec::new();
        let mut stack: Vec<NodeId> = Vec::new();
        stack.push(seed.clone());
        proof {
            lemma_dfs_init(sv, lv, cs, vis0, si as int);
            assert(ids_view(stack@) =~= seq![sv[si as int]]);
            assert(ids_view(comp@) =~= Seq::<Seq<char>>::empty());
        }
        while stack.len() > 0
            invariant
                sv == ids_view(seeds@),
                lv == links_of(links@),
                cand == meetable(sv, lv),
                si < seeds.len(),
                seed@ == sv[si as int],
                cs == comps_view(comps@),
                outer_inv(sv, lv, cs, vis0, si as int),
                !vis0.contains(sv[si as int]),
                dfs_inv(sv, lv, cs, id_set(visited@), ids_view(comp@), ids_view(stack@), seed@),
            decreases cand.difference(id_set(visited@)).len(), stack.len(),
        {
            let ghost st = ids_view(stack@);
            let ghost vis = id_set(visited@);
            let ghost cv = ids_view(comp@);
            let x = match stack.pop() {
                Some(v) => v,
                None => {
                    proof {
                        assert(false);
                    }
                    seed.clone()
                },
            };
            assert(ids_view(stack@) =~= st.drop_last());
            assert(x@ == st.last());
            if ids_contain(&visited, &x) {
                proof {
                    lemma_dfs_pop_seen(sv, lv, cs, vis, cv, st, seed@);
                }
                continue;
            }
            proof {
                assert(st.to_set().contains(x@)) by {
                    assert(st[st.len() - 1] == x@);
                }
                reveal(dfs_inv);
                assert(cand.contains(x@));
                lemma_id_set_push(visited@, x);
                cand.lemma_set_insert_diff_decreases(vis, x@);
            }
            visited.push(x.clone());
            let ghost cv0 = ids_view(comp@);
            comp.push(x.clone());
            assert(ids_view(comp@) =~= cv0.push(x@));
            let ghost st1 = ids_view(stack@);
            push_neighbors(&x, links, &visited, &mut stack);
            proof {
                lemma_dfs_visit(sv, lv, cs, vis, cv, st, seed@, ids_view(stack@));
            }
        }
        let ghost cfinal = ids_view(comp@);
        let ghost vfinal = id_set(visited@);
        assert(ids_view(stack@) =~= Seq::<Seq<char>>::empty());
        comps.push(comp);
        proof {
            lemma_dfs_done(sv, lv, cs, vis0, vfinal, cfinal, si as int);
            assert(comps_view(comps@) =~= cs.push(cfinal));
        }
        si += 1;
    }
    proof {
        lemma_outer_final(sv, lv, comps_view(comps@), id_set(visited@));
    }
    comps
}

} // verus!
