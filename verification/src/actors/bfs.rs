//! Shortest depths of the chain traversals: the facts of their breadth-first order
//! (queue depths never decrease, a node is listed when first met) and the proofs that
//! each entry sits at its shortest distance from the start.

use vstd::prelude::*;
use crate::graph::node::NodeView;
use crate::graph::edge::{EdgeView, Relation};
use crate::keyed::lemma_filter_members;
use super::l2::edge_filter;
use super::chain::{ChainEntryView, back_successor, is_cause, exists_node, back_chain_shape};
use super::forward::{is_effect, expandable, fwd_chain_shape};

verus! {

/// Step `i` of `p` leads backwards from a stored non-cause node to the next node of `p`.
pub open spec fn back_link(nodes: Seq<NodeView>, edges: Seq<EdgeView>, p: Seq<Seq<char>>, i: int) -> bool {
    exists_node(nodes, p[i]) && !is_cause(nodes, p[i]) && back_successor(edges, p[i], p[i + 1])
}

/// `p` is a path the backward traversal may follow: every node but the last is a stored
/// non-cause node with a backward edge to the next one.
pub open spec fn back_path(nodes: Seq<NodeView>, edges: Seq<EdgeView>, p: Seq<Seq<char>>) -> bool {
    &&& p.len() >= 1
    &&& forall|i: int| 0 <= i < p.len() - 1 ==> #[trigger] back_link(nodes, edges, p, i)
}

/// Every entry lies at its shortest backward distance from `start`: no backward path
/// from `start` to it has fewer steps than its depth.
pub open spec fn shortest_back_depths(nodes: Seq<NodeView>, edges: Seq<EdgeView>, start: Seq<char>, e: Seq<ChainEntryView>) -> bool {
    forall|k: int, p: Seq<Seq<char>>| 0 <= k < e.len() && #[trigger] back_path(nodes, edges, p) && p[0] == start
        && p.last() == (#[trigger] e[k]).node_id ==> e[k].depth + 1 <= p.len()
}

/// The breadth-first facts of the backward traversal: queue `q` (visits before `qh`
/// done), entries `e`, visited ids `vs`. Queue depths never decrease and grow by at most
/// one past the last visit; a visit within `mx` marks its node visited; an entry is no
/// deeper than any queue item for its node; and an expanded entry has queued each of its
/// backward neighbours one level deeper.
pub closed spec fn back_bfs(
    nodes: Seq<NodeView>,
    edges: Seq<EdgeView>,
    mx: nat,
    q: Seq<(Seq<char>, nat)>,
    qh: int,
    e: Seq<ChainEntryView>,
    vs: Set<Seq<char>>,
) -> bool {
    &&& 1 <= q.len()
    &&& 0 <= qh <= q.len()
    &&& qh == 0 ==> q.len() == 1 && e.len() == 0
    &&& forall|a: int, b: int| 0 <= a <= b < q.len() ==> (#[trigger] q[a]).1 <= (#[trigger] q[b]).1
    &&& qh > 0 ==> forall|j: int| qh <= j < q.len() ==> (#[trigger] q[j]).1 <= q[qh - 1].1 + 1
    &&& forall|j: int| 0 <= j < qh && (#[trigger] q[j]).1 <= mx ==> vs.contains(q[j].0)
    &&& forall|k: int, j: int| 0 <= k < e.len() && 0 <= j < q.len() && (#[trigger] q[j]).0 == (#[trigger] e[k]).node_id
        ==> e[k].depth <= q[j].1
    &&& forall|k: int, t: Seq<char>| 0 <= k < e.len() && !is_cause(nodes, (#[trigger] e[k]).node_id)
        && #[trigger] back_successor(edges, e[k].node_id, t) ==> exists|j: int| 0 <= j < q.len() && #[trigger] q[j] == (t, e[k].depth + 1)
    &&& qh > 0 ==> forall|k: int| 0 <= k < e.len() ==> (#[trigger] e[k]).depth <= q[qh - 1].1
}

/// The facts hold at the start: one queued visit of the start at depth 0, nothing done.
pub proof fn lemma_bfs_init(nodes: Seq<NodeView>, edges: Seq<EdgeView>, mx: nat, start: Seq<char>)
    ensures
        back_bfs(nodes, edges, mx, seq![(start, 0nat)], 0, Seq::empty(), Set::empty()),
{
}

/// Taking a visit that is skipped (beyond `mx`, or of a visited node) keeps the facts.
pub proof fn lemma_bfs_skip(
    nodes: Seq<NodeView>, edges: Seq<EdgeView>, mx: nat, q: Seq<(Seq<char>, nat)>, qh: int,
    e: Seq<ChainEntryView>, vs: Set<Seq<char>>,
)
    requires
        back_bfs(nodes, edges, mx, q, qh, e, vs),
        qh < q.len(),
        q[qh].1 > mx || vs.contains(q[qh].0),
    ensures
        back_bfs(nodes, edges, mx, q, qh + 1, e, vs),
{
    if qh > 0 {
        assert(q[qh - 1].1 <= q[qh].1);
    }
}

/// Visiting a node that is not stored, or a stored cause (listed, not expanded), keeps
/// the facts.
pub proof fn lemma_bfs_visit(
    nodes: Seq<NodeView>, edges: Seq<EdgeView>, mx: nat, q: Seq<(Seq<char>, nat)>, qh: int,
    e: Seq<ChainEntryView>, vs: Set<Seq<char>>, listed: bool,
)
    requires
        back_bfs(nodes, edges, mx, q, qh, e, vs),
        qh < q.len(),
        q[qh].1 <= mx,
        !vs.contains(q[qh].0),
        listed ==> is_cause(nodes, q[qh].0),
    ensures
        back_bfs(nodes, edges, mx, q, qh + 1, if listed {
            e.push(ChainEntryView { node_id: q[qh].0, depth: q[qh].1, edge: None, relation: None })
        } else {
            e
        }, vs.insert(q[qh].0)),
{
    let e1 = if listed {
        e.push(ChainEntryView { node_id: q[qh].0, depth: q[qh].1, edge: None, relation: None })
    } else {
        e
    };
    let vs1 = vs.insert(q[qh].0);
    if qh > 0 {
        assert(q[qh - 1].1 <= q[qh].1);
    }
    assert forall|k: int, j: int| 0 <= k < e1.len() && 0 <= j < q.len() && (#[trigger] q[j]).0 == (#[trigger] e1[k]).node_id
        implies e1[k].depth <= q[j].1 by {
        if k == e.len() {
            if j < qh {
                assert(q[j].1 <= q[qh].1);
            } else {
                assert(q[qh].1 <= q[j].1);
            }
        } else {
            assert(e1[k] == e[k]);
        }
    }
    assert forall|k: int, t: Seq<char>| 0 <= k < e1.len() && !is_cause(nodes, (#[trigger] e1[k]).node_id)
        && #[trigger] back_successor(edges, e1[k].node_id, t) implies exists|j: int| 0 <= j < q.len()
        && #[trigger] q[j] == (t, e1[k].depth + 1) by {
        assert(e1[k] == e[k]);
    }
    assert forall|k: int| 0 <= k < e1.len() implies (#[trigger] e1[k]).depth <= q[qh].1 by {
        if k < e.len() {
            assert(e1[k] == e[k]);
        }
    }
}

/// Visiting a stored non-cause node, listing it and queueing `pp` (each of its backward
/// neighbours, one level deeper), keeps the facts.
pub proof fn lemma_bfs_expand(
    nodes: Seq<NodeView>, edges: Seq<EdgeView>, mx: nat, q: Seq<(Seq<char>, nat)>, qh: int,
    e: Seq<ChainEntryView>, vs: Set<Seq<char>>, pp: Seq<(Seq<char>, nat)>,
)
    requires
        back_bfs(nodes, edges, mx, q, qh, e, vs),
        qh < q.len(),
        q[qh].1 <= mx,
        !vs.contains(q[qh].0),
        forall|j: int| 0 <= j < pp.len() ==> (#[trigger] pp[j]).1 == q[qh].1 + 1,
        forall|t: Seq<char>| #[trigger] back_successor(edges, q[qh].0, t) ==> pp.contains((t, q[qh].1 + 1)),
    ensures
        back_bfs(nodes, edges, mx, q + pp, qh + 1,
            e.push(ChainEntryView { node_id: q[qh].0, depth: q[qh].1, edge: None, relation: None }),
            vs.insert(q[qh].0)),
{
    let d = q[qh].1;
    let q1 = q + pp;
    let e1 = e.push(ChainEntryView { node_id: q[qh].0, depth: d, edge: None, relation: None });
    let vs1 = vs.insert(q[qh].0);
    assert forall|j: int| 0 <= j < q1.len() implies (#[trigger] q1[j]).1 <= d + 1 && (j >= qh ==> d <= q1[j].1)
        && (j < qh ==> q1[j].1 <= d) by {
        if j < q.len() {
            assert(q1[j] == q[j]);
            if j < qh {
                assert(q[j].1 <= q[qh].1);
            } else {
                assert(q[qh].1 <= q[j].1);
                if j > qh {
                    assert(q[qh - 1].1 <= q[qh].1);
                }
            }
        } else {
            assert(q1[j] == pp[j - q.len()]);
        }
    }
    assert forall|a: int, b: int| 0 <= a <= b < q1.len() implies (#[trigger] q1[a]).1 <= (#[trigger] q1[b]).1 by {
        if b < q.len() {
            assert(q1[a] == q[a] && q1[b] == q[b]);
        } else {
            assert(q1[b] == pp[b - q.len()]);
            if a >= q.len() {
                assert(q1[a] == pp[a - q.len()]);
            }
        }
    }
    assert forall|j: int| 0 <= j < qh + 1 && (#[trigger] q1[j]).1 <= mx implies vs1.contains(q1[j].0) by {
        assert(q1[j] == q[j]);
    }
    assert forall|k: int, j: int| 0 <= k < e1.len() && 0 <= j < q1.len() && (#[trigger] q1[j]).0 == (#[trigger] e1[k]).node_id
        implies e1[k].depth <= q1[j].1 by {
        if k == e.len() {
            if j < qh {
                assert(q1[j] == q[j]);
                assert(q[j].1 <= q[qh].1);
            }
        } else {
            assert(e1[k] == e[k]);
            assert(e[k].depth <= q[qh - 1].1);
            assert(q[qh - 1].1 <= q[qh].1);
            if j < q.len() {
                assert(q1[j] == q[j]);
            }
        }
    }
    assert forall|k: int, t: Seq<char>| 0 <= k < e1.len() && !is_cause(nodes, (#[trigger] e1[k]).node_id)
        && #[trigger] back_successor(edges, e1[k].node_id, t) implies exists|j: int| 0 <= j < q1.len()
        && #[trigger] q1[j] == (t, e1[k].depth + 1) by {
        if k == e.len() {
            let i = choose|i: int| 0 <= i < pp.len() && pp[i] == (t, d + 1);
            assert(q1[q.len() + i] == pp[i]);
        } else {
            assert(e1[k] == e[k]);
            let j = choose|j: int| 0 <= j < q.len() && #[trigger] q[j] == (t, e[k].depth + 1);
            assert(q1[j] == q[j]);
        }
    }
    assert forall|k: int| 0 <= k < e1.len() implies (#[trigger] e1[k]).depth <= q1[qh].1 by {
        assert(q1[qh] == q[qh]);
        if k < e.len() {
            assert(e1[k] == e[k]);
            assert(q[qh - 1].1 <= q[qh].1);
        }
    }
    assert(q1[qh] == q[qh]);
}

/// Along a backward path from `start` whose last node is stored, each node up to `i` is
/// listed no deeper than its position, unless `i` already reaches the depth limit.
proof fn lemma_path_prefix(
    nodes: Seq<NodeView>, edges: Seq<EdgeView>, start: Seq<char>, mx: nat, q: Seq<(Seq<char>, nat)>, qh: int,
    e: Seq<ChainEntryView>, vs: Set<Seq<char>>, rr: bool, mr: bool, p: Seq<Seq<char>>, i: int,
)
    requires
        back_bfs(nodes, edges, mx, q, qh, e, vs),
        back_chain_shape(nodes, edges, start, mx, e, rr, mr),
        back_path(nodes, edges, p),
        p[0] == start,
        exists_node(nodes, p.last()),
        0 <= i < p.len(),
    ensures
        i >= mx || exists|k: int| 0 <= k < e.len() && (#[trigger] e[k]).node_id == p[i] && e[k].depth <= i,
    decreases i,
{
    if i == 0 {
        if p.len() > 1 {
            assert(back_link(nodes, edges, p, 0));
        }
        assert(e[0].node_id == p[0] && e[0].depth == 0);
    } else {
        lemma_path_prefix(nodes, edges, start, mx, q, qh, e, vs, rr, mr, p, i - 1);
        if i - 1 < mx {
            let k1 = choose|k: int| 0 <= k < e.len() && (#[trigger] e[k]).node_id == p[i - 1] && e[k].depth <= i - 1;
            assert(back_link(nodes, edges, p, i - 1));
            if i < p.len() - 1 {
                assert(back_link(nodes, edges, p, i));
            }
            assert(exists_node(nodes, p[i]));
            assert(back_successor(edges, e[k1].node_id, p[i]));
            let k2 = choose|k2: int| 0 <= k2 < e.len() && (#[trigger] e[k2]).node_id == p[i];
            let j = choose|j: int| 0 <= j < q.len() && #[trigger] q[j] == (p[i], e[k1].depth + 1);
            assert(q[j].0 == e[k2].node_id);
            assert(e[k2].depth <= q[j].1);
        }
    }
}

/// When the breadth-first facts hold of a traversal's result, every entry lies at its
/// shortest backward distance from the start.
pub proof fn lemma_bfs_shortest(
    nodes: Seq<NodeView>, edges: Seq<EdgeView>, start: Seq<char>, mx: nat, q: Seq<(Seq<char>, nat)>, qh: int,
    e: Seq<ChainEntryView>, vs: Set<Seq<char>>, rr: bool, mr: bool,
)
    requires
        back_bfs(nodes, edges, mx, q, qh, e, vs),
        back_chain_shape(nodes, edges, start, mx, e, rr, mr),
    ensures
        shortest_back_depths(nodes, edges, start, e),
{
    assert forall|k: int, p: Seq<Seq<char>>| 0 <= k < e.len() && #[trigger] back_path(nodes, edges, p) && p[0] == start
        && p.last() == (#[trigger] e[k]).node_id implies e[k].depth + 1 <= p.len() by {
        let l = p.len() - 1;
        lemma_path_prefix(nodes, edges, start, mx, q, qh, e, vs, rr, mr, p, l);
        if l < mx {
            let k2 = choose|k2: int| 0 <= k2 < e.len() && (#[trigger] e[k2]).node_id == p[l] && e[k2].depth <= l;
            assert(k2 == k);
        }
    }
}

// ---------------- the forward traversal ----------------

/// Step `i` of `p` follows a `LeadsTo` edge out of the start (at `i == 0`) or out of a
/// stored effect, to the next node of `p`.
pub open spec fn fwd_link(nodes: Seq<NodeView>, edges: Seq<EdgeView>, p: Seq<Seq<char>>, i: int) -> bool {
    &&& (i == 0 || is_effect(nodes, p[i]))
    &&& exists|m: int| 0 <= m < edges.len() && (#[trigger] edges[m]).source == p[i]
        && edges[m].relation == Relation::LeadsTo && edges[m].target == p[i + 1]
}

/// `p` is a path the forward traversal may follow from its first node.
pub open spec fn fwd_path(nodes: Seq<NodeView>, edges: Seq<EdgeView>, p: Seq<Seq<char>>) -> bool {
    &&& p.len() >= 1
    &&& forall|i: int| 0 <= i < p.len() - 1 ==> #[trigger] fwd_link(nodes, edges, p, i)
}

/// Every entry lies at its shortest forward distance from `start`: no forward path from
/// `start` to it has fewer steps than its depth.
pub open spec fn shortest_fwd_depths(nodes: Seq<NodeView>, edges: Seq<EdgeView>, start: Seq<char>, e: Seq<ChainEntryView>) -> bool {
    forall|k: int, p: Seq<Seq<char>>| 0 <= k < e.len() && #[trigger] fwd_path(nodes, edges, p) && p[0] == start
        && p.last() == (#[trigger] e[k]).node_id ==> e[k].depth + 1 <= p.len()
}

/// One past the depth of the last queue item taken (0 before the first).
pub open spec fn fwd_top(q: Seq<(Seq<char>, nat)>, qh: int) -> nat {
    if qh > 0 { q[qh - 1].1 + 1 } else { 0 }
}

/// The breadth-first facts of the forward traversal: queue `q` (items before `qh`
/// taken, those before `done` fully expanded), entries `e`. Queue depths never decrease
/// and no queue item or entry lies deeper than one past the last item taken; every
/// stored `LeadsTo` target of an expanded item within `mx` is listed at most one level
/// below it.
pub closed spec fn fwd_bfs(
    nodes: Seq<NodeView>,
    edges: Seq<EdgeView>,
    mx: nat,
    q: Seq<(Seq<char>, nat)>,
    qh: int,
    done: int,
    e: Seq<ChainEntryView>,
) -> bool {
    &&& 0 <= done <= qh <= q.len()
    &&& forall|a: int, b: int| 0 <= a <= b < q.len() ==> (#[trigger] q[a]).1 <= (#[trigger] q[b]).1
    &&& forall|j: int| 0 <= j < q.len() ==> (#[trigger] q[j]).1 <= fwd_top(q, qh)
    &&& forall|k: int| 0 <= k < e.len() ==> (#[trigger] e[k]).depth <= fwd_top(q, qh)
    &&& forall|j: int, m: int| 0 <= j < done && 0 <= m < edges.len() && (#[trigger] q[j]).1 < mx
        && (#[trigger] edges[m]).source == q[j].0 && edges[m].relation == Relation::LeadsTo
        && exists_node(nodes, edges[m].target)
        ==> exists|k: int| 0 <= k < e.len() && (#[trigger] e[k]).node_id == edges[m].target && e[k].depth <= q[j].1 + 1
}

/// Inside the expansion of an item at depth `d`: each stored `LeadsTo` target among the
/// first `i` edges of `outs` is listed at most at depth `d + 1`.
pub open spec fn fwd_partial_depth(nodes: Seq<NodeView>, e: Seq<ChainEntryView>, outs: Seq<EdgeView>, i: int, d: nat) -> bool {
    forall|x: int| 0 <= x < i && (#[trigger] outs[x]).relation == Relation::LeadsTo && exists_node(nodes, outs[x].target)
        ==> exists|k: int| 0 <= k < e.len() && (#[trigger] e[k]).node_id == outs[x].target && e[k].depth <= d + 1
}

/// The facts hold at the start: the start queued and listed at depth 0.
pub proof fn lemma_fwd_bfs_init(nodes: Seq<NodeView>, edges: Seq<EdgeView>, mx: nat, start: Seq<char>)
    ensures
        fwd_bfs(nodes, edges, mx, seq![(start, 0nat)], 0, 0,
            seq![ChainEntryView { node_id: start, depth: 0, edge: None, relation: None }]),
{
}

/// Taking an item at or beyond `mx`, which is not expanded, keeps the facts.
pub proof fn lemma_fwd_bfs_skip(
    nodes: Seq<NodeView>, edges: Seq<EdgeView>, mx: nat, q: Seq<(Seq<char>, nat)>, qh: int, e: Seq<ChainEntryView>,
)
    requires
        fwd_bfs(nodes, edges, mx, q, qh, qh, e),
        qh < q.len(),
        q[qh].1 >= mx,
    ensures
        fwd_bfs(nodes, edges, mx, q, qh + 1, qh + 1, e),
{
    if qh > 0 {
        assert(q[qh - 1].1 <= q[qh].1);
    }
}

/// Taking an item within `mx` to expand it keeps the facts; none of its edges is handled yet.
pub proof fn lemma_fwd_bfs_begin(
    nodes: Seq<NodeView>, edges: Seq<EdgeView>, mx: nat, q: Seq<(Seq<char>, nat)>, qh: int, e: Seq<ChainEntryView>,
    outs: Seq<EdgeView>,
)
    requires
        fwd_bfs(nodes, edges, mx, q, qh, qh, e),
        qh < q.len(),
    ensures
        fwd_bfs(nodes, edges, mx, q, qh + 1, qh, e),
        fwd_partial_depth(nodes, e, outs, 0, q[qh].1),
{
    if qh > 0 {
        assert(q[qh - 1].1 <= q[qh].1);
    }
}

/// An edge whose target is not newly met keeps the facts: the target, if stored, is
/// already listed, no deeper than one past the item being expanded.
pub proof fn lemma_fwd_bfs_seen(
    nodes: Seq<NodeView>, edges: Seq<EdgeView>, mx: nat, q: Seq<(Seq<char>, nat)>, qh: int, e: Seq<ChainEntryView>,
    vs: Set<Seq<char>>, outs: Seq<EdgeView>, i: int,
)
    requires
        fwd_bfs(nodes, edges, mx, q, qh, qh - 1, e),
        1 <= qh,
        fwd_partial_depth(nodes, e, outs, i, q[qh - 1].1),
        0 <= i < outs.len(),
        outs[i].relation != Relation::LeadsTo || vs.contains(outs[i].target),
        forall|v: Seq<char>| vs.contains(v) && exists_node(nodes, v) ==> exists|k: int| 0 <= k < e.len() && (#[trigger] e[k]).node_id == v,
    ensures
        fwd_partial_depth(nodes, e, outs, i + 1, q[qh - 1].1),
{
    if outs[i].relation == Relation::LeadsTo && exists_node(nodes, outs[i].target) {
        let k = choose|k: int| 0 <= k < e.len() && (#[trigger] e[k]).node_id == outs[i].target;
        assert(e[k].depth <= fwd_top(q, qh));
    }
}

/// A newly met target keeps the facts: when stored it is listed one level below the item
/// being expanded, and when an effect it is also queued there.
pub proof fn lemma_fwd_bfs_new(
    nodes: Seq<NodeView>, edges: Seq<EdgeView>, mx: nat, q: Seq<(Seq<char>, nat)>, qh: int, e: Seq<ChainEntryView>,
    outs: Seq<EdgeView>, i: int,
)
    requires
        fwd_bfs(nodes, edges, mx, q, qh, qh - 1, e),
        1 <= qh,
        fwd_partial_depth(nodes, e, outs, i, q[qh - 1].1),
        0 <= i < outs.len(),
        outs[i].relation == Relation::LeadsTo,
    ensures
        ({
            let t = outs[i].target;
            let d1 = q[qh - 1].1 + 1;
            let ne = ChainEntryView { node_id: t, depth: d1, edge: Some(outs[i]), relation: Some(Relation::LeadsTo) };
            &&& !exists_node(nodes, t) ==> fwd_bfs(nodes, edges, mx, q, qh, qh - 1, e)
                && fwd_partial_depth(nodes, e, outs, i + 1, q[qh - 1].1)
            &&& exists_node(nodes, t) ==> fwd_bfs(nodes, edges, mx, q, qh, qh - 1, e.push(ne))
                && fwd_partial_depth(nodes, e.push(ne), outs, i + 1, q[qh - 1].1)
            &&& exists_node(nodes, t) ==> fwd_bfs(nodes, edges, mx, q.push((t, d1)), qh, qh - 1, e.push(ne))
        }),
{
    let t = outs[i].target;
    let d = q[qh - 1].1;
    let d1 = d + 1;
    let ne = ChainEntryView { node_id: t, depth: d1, edge: Some(outs[i]), relation: Some(Relation::LeadsTo) };
    if exists_node(nodes, t) {
        let e1 = e.push(ne);
        let q1 = q.push((t, d1));
        assert forall|k: int| 0 <= k < e.len() implies #[trigger] e1[k] == e[k] by {}
        assert(e1[e.len() as int] == ne);
        assert forall|x: int| 0 <= x < i + 1 && (#[trigger] outs[x]).relation == Relation::LeadsTo && exists_node(nodes, outs[x].target)
            implies exists|k: int| 0 <= k < e1.len() && (#[trigger] e1[k]).node_id == outs[x].target && e1[k].depth <= d + 1 by {
            if x < i {
                let k = choose|k: int| 0 <= k < e.len() && (#[trigger] e[k]).node_id == outs[x].target && e[k].depth <= d + 1;
                assert(e1[k] == e[k]);
            } else {
                assert(e1[e.len() as int].node_id == outs[x].target);
            }
        }
        assert forall|k: int| 0 <= k < e1.len() implies (#[trigger] e1[k]).depth <= fwd_top(q, qh) by {
            if k < e.len() {
                assert(e1[k] == e[k]);
            }
        }
        assert forall|j: int, m: int| 0 <= j < qh - 1 && 0 <= m < edges.len() && (#[trigger] q[j]).1 < mx
            && (#[trigger] edges[m]).source == q[j].0 && edges[m].relation == Relation::LeadsTo
            && exists_node(nodes, edges[m].target)
            implies exists|k: int| 0 <= k < e1.len() && (#[trigger] e1[k]).node_id == edges[m].target && e1[k].depth <= q[j].1 + 1 by {
            let k = choose|k: int| 0 <= k < e.len() && (#[trigger] e[k]).node_id == edges[m].target && e[k].depth <= q[j].1 + 1;
            assert(e1[k] == e[k]);
        }
        assert(fwd_bfs(nodes, edges, mx, q, qh, qh - 1, e1));
        assert forall|j: int| 0 <= j < q.len() implies #[trigger] q1[j] == q[j] by {}
        assert(q1[q.len() as int] == (t, d1));
        assert(fwd_top(q1, qh) == fwd_top(q, qh));
        assert forall|a: int, b: int| 0 <= a <= b < q1.len() implies (#[trigger] q1[a]).1 <= (#[trigger] q1[b]).1 by {
            if b < q.len() {
                assert(q1[a] == q[a] && q1[b] == q[b]);
            } else if a < q.len() {
                assert(q1[a] == q[a]);
            }
        }
        assert forall|j: int| 0 <= j < q1.len() implies (#[trigger] q1[j]).1 <= fwd_top(q1, qh) by {
            if j < q.len() {
                assert(q1[j] == q[j]);
            }
        }
        assert forall|j: int, m: int| 0 <= j < qh - 1 && 0 <= m < edges.len() && (#[trigger] q1[j]).1 < mx
            && (#[trigger] edges[m]).source == q1[j].0 && edges[m].relation == Relation::LeadsTo
            && exists_node(nodes, edges[m].target)
            implies exists|k: int| 0 <= k < e1.len() && (#[trigger] e1[k]).node_id == edges[m].target && e1[k].depth <= q1[j].1 + 1 by {
            assert(q1[j] == q[j]);
            let k = choose|k: int| 0 <= k < e.len() && (#[trigger] e[k]).node_id == edges[m].target && e[k].depth <= q[j].1 + 1;
            assert(e1[k] == e[k]);
        }
    }
}

/// When every edge of the item being expanded is handled, the item counts as expanded.
pub proof fn lemma_fwd_bfs_end(
    nodes: Seq<NodeView>, edges: Seq<EdgeView>, mx: nat, q: Seq<(Seq<char>, nat)>, qh: int, e: Seq<ChainEntryView>,
    outs: Seq<EdgeView>, cur: Seq<char>,
)
    requires
        fwd_bfs(nodes, edges, mx, q, qh, qh - 1, e),
        1 <= qh,
        q[qh - 1].0 == cur,
        outs == edges.filter(edge_filter(Some(cur), None)),
        fwd_partial_depth(nodes, e, outs, outs.len() as int, q[qh - 1].1),
    ensures
        fwd_bfs(nodes, edges, mx, q, qh, qh, e),
{
    lemma_filter_members(edges, edge_filter(Some(cur), None));
    assert forall|j: int, m: int| 0 <= j < qh && 0 <= m < edges.len() && (#[trigger] q[j]).1 < mx
        && (#[trigger] edges[m]).source == q[j].0 && edges[m].relation == Relation::LeadsTo
        && exists_node(nodes, edges[m].target)
        implies exists|k: int| 0 <= k < e.len() && (#[trigger] e[k]).node_id == edges[m].target && e[k].depth <= q[j].1 + 1 by {
        if j == qh - 1 {
            assert(edge_filter(Some(cur), None)(edges[m]));
            assert(outs.contains(edges[m]));
            let x = choose|x: int| 0 <= x < outs.len() && outs[x] == edges[m];
            assert(outs[x].relation == Relation::LeadsTo);
        }
    }
}

/// Along a forward path from `start` whose last node is stored, each node up to `i` is
/// listed no deeper than its position, unless `i` already reaches the depth limit.
proof fn lemma_fwd_path_prefix(
    nodes: Seq<NodeView>, edges: Seq<EdgeView>, start: Seq<char>, mx: nat, q: Seq<(Seq<char>, nat)>,
    e: Seq<ChainEntryView>, mr: bool, p: Seq<Seq<char>>, i: int,
)
    requires
        fwd_bfs(nodes, edges, mx, q, q.len() as int, q.len() as int, e),
        fwd_chain_shape(nodes, edges, start, mx, e, mr),
        forall|k: int| 0 <= k < e.len() && expandable(nodes, e, k) ==> exists|j: int| 0 <= j < q.len()
            && #[trigger] q[j] == ((#[trigger] e[k]).node_id, e[k].depth),
        fwd_path(nodes, edges, p),
        p[0] == start,
        exists_node(nodes, p.last()),
        0 <= i < p.len(),
    ensures
        i >= mx || exists|k: int| 0 <= k < e.len() && (#[trigger] e[k]).node_id == p[i] && e[k].depth <= i,
    decreases i,
{
    if i == 0 {
        assert(e[0].node_id == p[0] && e[0].depth == 0);
    } else {
        lemma_fwd_path_prefix(nodes, edges, start, mx, q, e, mr, p, i - 1);
        if i - 1 < mx {
            let k1 = choose|k: int| 0 <= k < e.len() && (#[trigger] e[k]).node_id == p[i - 1] && e[k].depth <= i - 1;
            assert(fwd_link(nodes, edges, p, i - 1));
            if i - 1 == 0 {
                if k1 != 0 {
                    assert(e[k1].node_id != e[0].node_id);
                }
            }
            assert(expandable(nodes, e, k1));
            if i < p.len() - 1 {
                assert(fwd_link(nodes, edges, p, i));
            }
            assert(exists_node(nodes, p[i]));
            let m = choose|m: int| 0 <= m < edges.len() && (#[trigger] edges[m]).source == p[i - 1]
                && edges[m].relation == Relation::LeadsTo && edges[m].target == p[i];
            let j = choose|j: int| 0 <= j < q.len() && #[trigger] q[j] == ((#[trigger] e[k1]).node_id, e[k1].depth);
            assert(q[j].1 < mx);
            assert(edges[m].source == q[j].0);
            let k2 = choose|k: int| 0 <= k < e.len() && (#[trigger] e[k]).node_id == edges[m].target && e[k].depth <= q[j].1 + 1;
            assert(e[k2].node_id == p[i]);
        }
    }
}

/// When the breadth-first facts hold of a finished forward traversal, every entry lies at
/// its shortest forward distance from the start.
pub proof fn lemma_fwd_bfs_shortest(
    nodes: Seq<NodeView>, edges: Seq<EdgeView>, start: Seq<char>, mx: nat, q: Seq<(Seq<char>, nat)>,
    e: Seq<ChainEntryView>, mr: bool,
)
    requires
        fwd_bfs(nodes, edges, mx, q, q.len() as int, q.len() as int, e),
        fwd_chain_shape(nodes, edges, start, mx, e, mr),
        forall|k: int| 0 <= k < e.len() && expandable(nodes, e, k) ==> exists|j: int| 0 <= j < q.len()
            && #[trigger] q[j] == ((#[trigger] e[k]).node_id, e[k].depth),
    ensures
        shortest_fwd_depths(nodes, edges, start, e),
{
    assert forall|k: int, p: Seq<Seq<char>>| 0 <= k < e.len() && #[trigger] fwd_path(nodes, edges, p) && p[0] == start
        && p.last() == (#[trigger] e[k]).node_id implies e[k].depth + 1 <= p.len() by {
        let l = p.len() - 1;
        lemma_fwd_path_prefix(nodes, edges, start, mx, q, e, mr, p, l);
        if l < mx {
            let k2 = choose|k2: int| 0 <= k2 < e.len() && (#[trigger] e[k2]).node_id == p[l] && e[k2].depth <= l;
            assert(k2 == k);
        }
    }
}

} // verus!
