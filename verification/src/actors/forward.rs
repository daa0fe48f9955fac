//! Forward traversal of causal chains: from a cause towards its possible effects.

use vstd::prelude::*;
use crate::graph::node::{NodeId, NodeView, NodeType};
use crate::graph::edge::{Edge, EdgeView, Relation, edges_view};
use crate::graph::{find_node, id_set, ids_contain, lemma_id_set_push};
use crate::keyed::lemma_filter_members;
use super::l2::{L2Actor, edge_filter};
use super::chain::{ChainActor, ChainEntry, ChainEntryView, ChainResult, QueueItem, queue_view, entries_view,
    candidates, lemma_candidates, exists_node, is_cause};
use super::bfs::{fwd_bfs, fwd_partial_depth, shortest_fwd_depths, lemma_fwd_bfs_init, lemma_fwd_bfs_skip,
    lemma_fwd_bfs_begin, lemma_fwd_bfs_seen, lemma_fwd_bfs_new, lemma_fwd_bfs_end, lemma_fwd_bfs_shortest};

verus! {

/// Why a forward traversal was refused.
#[derive(Debug, Clone, Copy, PartialEq, Eq, Structural)]
pub enum ChainError {
    /// The start node of a forward traversal is not a cause.
    NotACause,
}

/// The node with id `id` exists and is an effect.
pub open spec fn is_effect(nodes: Seq<NodeView>, id: Seq<char>) -> bool {
    find_node(nodes, id) matches Some(n) && n.node_type == NodeType::Effect
}

/// Entry `k` is expanded by the forward traversal: it is the start, or an effect.
pub open spec fn expandable(nodes: Seq<NodeView>, e: Seq<ChainEntryView>, k: int) -> bool {
    k == 0 || is_effect(nodes, e[k].node_id)
}

/// The contract of the forward traversal from a stored cause, over the store's views:
/// the shape of its result (see `fwd_chain_shape`), each entry at its shortest forward
/// distance from the cause (see `shortest_fwd_depths`).
pub open spec fn forward_chain(
    nodes: Seq<NodeView>,
    edges: Seq<EdgeView>,
    start: Seq<char>,
    max_depth: nat,
    e: Seq<ChainEntryView>,
    max_depth_reached: bool,
) -> bool {
    &&& fwd_chain_shape(nodes, edges, start, max_depth, e, max_depth_reached)
    &&& shortest_fwd_depths(nodes, edges, start, e)
}

/// The shape of a forward traversal's result, over the store's views.
pub open spec fn fwd_chain_shape(
    nodes: Seq<NodeView>,
    edges: Seq<EdgeView>,
    start: Seq<char>,
    max_depth: nat,
    e: Seq<ChainEntryView>,
    max_depth_reached: bool,
) -> bool {
    // the cause comes first, at depth 0, without edge
    &&& e.len() >= 1
    &&& e[0] == (ChainEntryView { node_id: start, depth: 0, edge: None, relation: None })
    // entries are distinct stored nodes within `max_depth`
    &&& forall|k: int| 0 <= k < e.len() ==> exists_node(nodes, (#[trigger] e[k]).node_id) && e[k].depth <= max_depth
    &&& forall|k1: int, k2: int| 0 <= k1 < e.len() && 0 <= k2 < e.len() && k1 != k2 ==>
        (#[trigger] e[k1]).node_id != (#[trigger] e[k2]).node_id
    // every later entry was reached by a stored `LeadsTo` edge from an expanded entry one level up
    &&& forall|k: int| 0 < k < e.len() ==> (#[trigger] e[k]).relation == Some(Relation::LeadsTo)
        && (e[k].edge matches Some(ed) && edges.contains(ed) && ed.relation == Relation::LeadsTo
        && ed.target == e[k].node_id && exists|p: int| 0 <= p < e.len() && (#[trigger] e[p]).node_id == ed.source
        && e[p].depth + 1 == e[k].depth && expandable(nodes, e, p) && e[p].depth < max_depth)
    // an expanded entry short of `max_depth` has every stored `LeadsTo` target listed
    &&& forall|k: int, m: int| 0 <= k < e.len() && 0 <= m < edges.len() && expandable(nodes, e, k)
        && (#[trigger] e[k]).depth < max_depth && (#[trigger] edges[m]).source == e[k].node_id
        && edges[m].relation == Relation::LeadsTo && exists_node(nodes, edges[m].target)
        ==> exists|k2: int| 0 <= k2 < e.len() && (#[trigger] e[k2]).node_id == edges[m].target
    // the depth limit was hit exactly when an expanded entry lies at `max_depth` or beyond
    &&& max_depth_reached == exists|k: int| 0 <= k < e.len() && expandable(nodes, e, k) && (#[trigger] e[k]).depth >= max_depth
}

#[verifier::opaque]
spec fn fwd_inv(
    nodes: Seq<NodeView>,
    edges: Seq<EdgeView>,
    start: Seq<char>,
    mx: nat,
    q: Seq<(Seq<char>, nat)>,
    qh: int,
    done: int,
    e: Seq<ChainEntryView>,
    vs: Set<Seq<char>>,
    mr: bool,
) -> bool {
    &&& 1 <= q.len()
    &&& 0 <= done <= qh <= q.len()
    &&& e.len() >= 1
    &&& e[0] == (ChainEntryView { node_id: start, depth: 0, edge: None, relation: None })
    &&& q[0] == (start, 0nat)
    &&& exists_node(nodes, start)
    &&& forall|j: int| 0 <= j < q.len() ==> exists|k: int| 0 <= k < e.len() && #[trigger] q[j] == ((#[trigger] e[k]).node_id, e[k].depth)
        && expandable(nodes, e, k)
    &&& forall|k: int| 0 <= k < e.len() && expandable(nodes, e, k) ==> exists|j: int| 0 <= j < q.len()
        && #[trigger] q[j] == ((#[trigger] e[k]).node_id, e[k].depth)
    &&& forall|k: int| 0 <= k < e.len() ==> vs.contains((#[trigger] e[k]).node_id) && exists_node(nodes, e[k].node_id)
        && e[k].depth <= mx
    &&& forall|k1: int, k2: int| 0 <= k1 < e.len() && 0 <= k2 < e.len() && k1 != k2 ==>
        (#[trigger] e[k1]).node_id != (#[trigger] e[k2]).node_id
    &&& forall|k: int| 0 < k < e.len() ==> (#[trigger] e[k]).relation == Some(Relation::LeadsTo)
        && (e[k].edge matches Some(ed) && edges.contains(ed) && ed.relation == Relation::LeadsTo
        && ed.target == e[k].node_id && exists|p: int| 0 <= p < e.len() && (#[trigger] e[p]).node_id == ed.source
        && e[p].depth + 1 == e[k].depth && expandable(nodes, e, p) && e[p].depth < mx)
    &&& forall|v: Seq<char>| vs.contains(v) ==> candidates(start, edges).contains(v)
    &&& forall|v: Seq<char>| vs.contains(v) && exists_node(nodes, v) ==> exists|k: int| 0 <= k < e.len() && (#[trigger] e[k]).node_id == v
    &&& forall|j: int, m: int| 0 <= j < done && 0 <= m < edges.len() && (#[trigger] q[j]).1 < mx
        && (#[trigger] edges[m]).source == q[j].0 && edges[m].relation == Relation::LeadsTo ==> vs.contains(edges[m].target)
    &&& mr == exists|j: int| 0 <= j < qh && (#[trigger] q[j]).1 >= mx
}

proof fn lemma_fwd_init(nodes: Seq<NodeView>, edges: Seq<EdgeView>, start: Seq<char>, mx: nat)
    requires
        exists_node(nodes, start),
    ensures
        fwd_inv(nodes, edges, start, mx, seq![(start, 0nat)], 0, 0,
            seq![ChainEntryView { node_id: start, depth: 0, edge: None, relation: None }], Set::empty().insert(start), false),
{
    reveal(fwd_inv);
    let q = seq![(start, 0nat)];
    let e = seq![ChainEntryView { node_id: start, depth: 0, edge: None, relation: None }];
    if edges.len() > 0 {
        lemma_candidates(start, edges, 0);
    } else {
        let s = seq![start] + edges.map_values(|x: EdgeView| x.source) + edges.map_values(|x: EdgeView| x.target);
        assert(s[0] == start);
    }
    assert(q[0] == (e[0].node_id, e[0].depth));
}

proof fn lemma_fwd_skip(
    nodes: Seq<NodeView>, edges: Seq<EdgeView>, start: Seq<char>, mx: nat, q: Seq<(Seq<char>, nat)>, qh: int,
    e: Seq<ChainEntryView>, vs: Set<Seq<char>>, mr: bool,
)
    requires
        fwd_inv(nodes, edges, start, mx, q, qh, qh, e, vs, mr),
        qh < q.len(),
        q[qh].1 >= mx,
    ensures
        fwd_inv(nodes, edges, start, mx, q, qh + 1, qh + 1, e, vs, true),
{
    reveal(fwd_inv);
    assert(q[qh].1 >= mx);
}

/// The state inside the expansion of the queue item at `qh - 1`: its first `i` edges in
/// `outs` are handled.
spec fn fwd_partial(
    edges: Seq<EdgeView>,
    vs: Set<Seq<char>>,
    outs: Seq<EdgeView>,
    i: int,
) -> bool {
    forall|k: int| 0 <= k < i && (#[trigger] outs[k]).relation == Relation::LeadsTo ==> vs.contains(outs[k].target)
}

proof fn lemma_fwd_begin(
    nodes: Seq<NodeView>, edges: Seq<EdgeView>, start: Seq<char>, mx: nat, q: Seq<(Seq<char>, nat)>, qh: int,
    e: Seq<ChainEntryView>, vs: Set<Seq<char>>, mr: bool,
)
    requires
        fwd_inv(nodes, edges, start, mx, q, qh, qh, e, vs, mr),
        qh < q.len(),
        q[qh].1 < mx,
    ensures
        fwd_inv(nodes, edges, start, mx, q, qh + 1, qh, e, vs, mr),
{
    reveal(fwd_inv);
    assert(mr == exists|j: int| 0 <= j < qh + 1 && (#[trigger] q[j]).1 >= mx) by {
        if exists|j: int| 0 <= j < qh + 1 && (#[trigger] q[j]).1 >= mx {
            let j = choose|j: int| 0 <= j < qh + 1 && (#[trigger] q[j]).1 >= mx;
            assert(j != qh);
        }
        if mr {
            let j = choose|j: int| 0 <= j < qh && (#[trigger] q[j]).1 >= mx;
        }
    }
}

proof fn lemma_fwd_end(
    nodes: Seq<NodeView>, edges: Seq<EdgeView>, start: Seq<char>, mx: nat, q: Seq<(Seq<char>, nat)>, qh: int,
    e: Seq<ChainEntryView>, vs: Set<Seq<char>>, mr: bool, outs: Seq<EdgeView>, cur: Seq<char>,
)
    requires
        fwd_inv(nodes, edges, start, mx, q, qh, qh - 1, e, vs, mr),
        1 <= qh <= q.len(),
        q[qh - 1].0 == cur,
        q[qh - 1].1 < mx,
        outs == edges.filter(edge_filter(Some(cur), None)),
        fwd_partial(edges, vs, outs, outs.len() as int),
    ensures
        fwd_inv(nodes, edges, start, mx, q, qh, qh, e, vs, mr),
{
    reveal(fwd_inv);
    lemma_filter_members(edges, edge_filter(Some(cur), None));
    assert forall|j: int, m: int| 0 <= j < qh && 0 <= m < edges.len() && (#[trigger] q[j]).1 < mx
        && (#[trigger] edges[m]).source == q[j].0 && edges[m].relation == Relation::LeadsTo implies vs.contains(edges[m].target) by {
        if j == qh - 1 {
            assert(edge_filter(Some(cur), None)(edges[m]));
            assert(outs.contains(edges[m]));
            let k = choose|k: int| 0 <= k < outs.len() && outs[k] == edges[m];
            assert(outs[k].relation == Relation::LeadsTo);
        }
    }
}

proof fn lemma_fwd_step_seen(
    edges: Seq<EdgeView>, vs: Set<Seq<char>>, outs: Seq<EdgeView>, i: int,
)
    requires
        fwd_partial(edges, vs, outs, i),
        0 <= i < outs.len(),
        outs[i].relation != Relation::LeadsTo || vs.contains(outs[i].target),
    ensures
        fwd_partial(edges, vs, outs, i + 1),
{
}

/// Adding a new target: with `exists`, it becomes an entry (and, when an effect, is queued).
#[verifier::rlimit(60)]
#[verifier::spinoff_prover]
proof fn lemma_fwd_step_new(
    nodes: Seq<NodeView>, edges: Seq<EdgeView>, start: Seq<char>, mx: nat, q: Seq<(Seq<char>, nat)>, qh: int,
    e: Seq<ChainEntryView>, vs: Set<Seq<char>>, mr: bool, outs: Seq<EdgeView>, cur: Seq<char>, i: int,
)
    requires
        fwd_inv(nodes, edges, start, mx, q, qh, qh - 1, e, vs, mr),
        1 <= qh <= q.len(),
        q[qh - 1].0 == cur,
        q[qh - 1].1 < mx,
        outs == edges.filter(edge_filter(Some(cur), None)),
        fwd_partial(edges, vs, outs, i),
        0 <= i < outs.len(),
        outs[i].relation == Relation::LeadsTo,
        !vs.contains(outs[i].target),
    ensures
        ({
            let t = outs[i].target;
            let d1 = q[qh - 1].1 + 1;
            let ne = ChainEntryView { node_id: t, depth: d1, edge: Some(outs[i]), relation: Some(Relation::LeadsTo) };
            let vs1 = vs.insert(t);
            &&& fwd_partial(edges, vs1, outs, i + 1)
            &&& candidates(start, edges).contains(t)
            &&& !exists_node(nodes, t) ==> fwd_inv(nodes, edges, start, mx, q, qh, qh - 1, e, vs1, mr)
            &&& (exists_node(nodes, t) && !is_effect(nodes, t)) ==> fwd_inv(nodes, edges, start, mx, q, qh, qh - 1, e.push(ne), vs1, mr)
            &&& is_effect(nodes, t) ==> fwd_inv(nodes, edges, start, mx, q.push((t, d1)), qh, qh - 1, e.push(ne), vs1, mr)
        }),
{
    reveal(fwd_inv);
    let t = outs[i].target;
    let d1 = q[qh - 1].1 + 1;
    let ne = ChainEntryView { node_id: t, depth: d1, edge: Some(outs[i]), relation: Some(Relation::LeadsTo) };
    let vs1 = vs.insert(t);
    lemma_filter_members(edges, edge_filter(Some(cur), None));
    assert(edge_filter(Some(cur), None)(outs[i]));
    assert(edges.contains(outs[i]));
    let m = choose|m: int| 0 <= m < edges.len() && edges[m] == outs[i];
    lemma_candidates(start, edges, m);
    let kp = choose|k: int| 0 <= k < e.len() && #[trigger] q[qh - 1] == ((#[trigger] e[k]).node_id, e[k].depth)
        && expandable(nodes, e, k);
    if exists_node(nodes, t) {
        let e1 = e.push(ne);
        assert(e1[e.len() as int] == ne);
        assert forall|k: int| 0 <= k < e.len() implies #[trigger] e1[k] == e[k] by {}
        assert forall|k: int| 0 < k < e1.len() implies (#[trigger] e1[k]).relation == Some(Relation::LeadsTo)
            && (e1[k].edge matches Some(ed) && edges.contains(ed) && ed.relation == Relation::LeadsTo
            && ed.target == e1[k].node_id && exists|p: int| 0 <= p < e1.len() && (#[trigger] e1[p]).node_id == ed.source
            && e1[p].depth + 1 == e1[k].depth && expandable(nodes, e1, p) && e1[p].depth < mx) by {
            if k < e.len() {
                let ed = e[k].edge.unwrap();
                let p = choose|p: int| 0 <= p < e.len() && (#[trigger] e[p]).node_id == ed.source
                    && e[p].depth + 1 == e[k].depth && expandable(nodes, e, p) && e[p].depth < mx;
                assert(e1[p] == e[p]);
            } else {
                assert(e1[kp] == e[kp]);
                assert(expandable(nodes, e1, kp));
            }
        }
        assert forall|k1: int, k2: int| 0 <= k1 < e1.len() && 0 <= k2 < e1.len() && k1 != k2 implies
            (#[trigger] e1[k1]).node_id != (#[trigger] e1[k2]).node_id by {
            if k1 < e.len() && k2 < e.len() {
            } else if k1 < e.len() {
                assert(vs.contains(e[k1].node_id));
            } else {
                assert(vs.contains(e[k2].node_id));
            }
        }
        assert forall|v: Seq<char>| vs1.contains(v) && exists_node(nodes, v) implies
            exists|k: int| 0 <= k < e1.len() && (#[trigger] e1[k]).node_id == v by {
            if v == t {
                assert(e1[e.len() as int].node_id == v);
            } else {
                let k = choose|k: int| 0 <= k < e.len() && (#[trigger] e[k]).node_id == v;
                assert(e1[k] == e[k]);
            }
        }
        assert forall|k: int| 0 <= k < e1.len() implies vs1.contains((#[trigger] e1[k]).node_id)
            && exists_node(nodes, e1[k].node_id) && e1[k].depth <= mx by {}
        if is_effect(nodes, t) {
            let q1 = q.push((t, d1));
            assert forall|j: int| 0 <= j < q1.len() implies exists|k: int| 0 <= k < e1.len()
                && #[trigger] q1[j] == ((#[trigger] e1[k]).node_id, e1[k].depth) && expandable(nodes, e1, k) by {
                if j < q.len() {
                    assert(q1[j] == q[j]);
                    let k = choose|k: int| 0 <= k < e.len() && #[trigger] q[j] == ((#[trigger] e[k]).node_id, e[k].depth)
                        && expandable(nodes, e, k);
                    assert(e1[k] == e[k]);
                } else {
                    assert(q1[j] == (e1[e.len() as int].node_id, e1[e.len() as int].depth));
                }
            }
            assert forall|k: int| 0 <= k < e1.len() && expandable(nodes, e1, k) implies exists|j: int| 0 <= j < q1.len()
                && #[trigger] q1[j] == ((#[trigger] e1[k]).node_id, e1[k].depth) by {
                if k < e.len() {
                    assert(e1[k] == e[k]);
                    let j = choose|j: int| 0 <= j < q.len() && #[trigger] q[j] == ((#[trigger] e[k]).node_id, e[k].depth);
                    assert(q1[j] == q[j]);
                } else {
                    assert(q1[q.len() as int] == (t, d1));
                }
            }
            assert forall|j: int, m2: int| 0 <= j < qh - 1 && 0 <= m2 < edges.len() && (#[trigger] q1[j]).1 < mx
                && (#[trigger] edges[m2]).source == q1[j].0 && edges[m2].relation == Relation::LeadsTo implies vs1.contains(edges[m2].target) by {
                assert(q1[j] == q[j]);
            }
            assert(mr == exists|j: int| 0 <= j < qh && (#[trigger] q1[j]).1 >= mx) by {
                if exists|j: int| 0 <= j < qh && (#[trigger] q1[j]).1 >= mx {
                    let j = choose|j: int| 0 <= j < qh && (#[trigger] q1[j]).1 >= mx;
                    assert(q1[j] == q[j]);
                }
                if mr {
                    let j = choose|j: int| 0 <= j < qh && (#[trigger] q[j]).1 >= mx;
                    assert(q1[j] == q[j]);
                }
            }
            assert(q1[0] == q[0]);
        } else {
            assert forall|j: int| 0 <= j < q.len() implies exists|k: int| 0 <= k < e1.len()
                && #[trigger] q[j] == ((#[trigger] e1[k]).node_id, e1[k].depth) && expandable(nodes, e1, k) by {
                let k = choose|k: int| 0 <= k < e.len() && #[trigger] q[j] == ((#[trigger] e[k]).node_id, e[k].depth)
                    && expandable(nodes, e, k);
                assert(e1[k] == e[k]);
            }
            assert forall|k: int| 0 <= k < e1.len() && expandable(nodes, e1, k) implies exists|j: int| 0 <= j < q.len()
                && #[trigger] q[j] == ((#[trigger] e1[k]).node_id, e1[k].depth) by {
                assert(k < e.len());
                assert(e1[k] == e[k]);
            }
        }
    } else {
        assert forall|v: Seq<char>| vs1.contains(v) && exists_node(nodes, v) implies
            exists|k: int| 0 <= k < e.len() && (#[trigger] e[k]).node_id == v by {
            assert(v != t);
        }
    }
}

proof fn lemma_fwd_final(
    nodes: Seq<NodeView>, edges: Seq<EdgeView>, start: Seq<char>, mx: nat, q: Seq<(Seq<char>, nat)>,
    e: Seq<ChainEntryView>, vs: Set<Seq<char>>, mr: bool,
)
    requires
        fwd_inv(nodes, edges, start, mx, q, q.len() as int, q.len() as int, e, vs, mr),
    ensures
        fwd_chain_shape(nodes, edges, start, mx, e, mr),
{
    reveal(fwd_inv);
    assert forall|k: int, m: int| 0 <= k < e.len() && 0 <= m < edges.len() && expandable(nodes, e, k)
        && (#[trigger] e[k]).depth < mx && (#[trigger] edges[m]).source == e[k].node_id
        && edges[m].relation == Relation::LeadsTo && exists_node(nodes, edges[m].target)
        implies exists|k2: int| 0 <= k2 < e.len() && (#[trigger] e[k2]).node_id == edges[m].target by {
        let j = choose|j: int| 0 <= j < q.len() && #[trigger] q[j] == ((#[trigger] e[k]).node_id, e[k].depth);
        assert(vs.contains(edges[m].target));
    }
    assert(mr == exists|k: int| 0 <= k < e.len() && expandable(nodes, e, k) && (#[trigger] e[k]).depth >= mx) by {
        if mr {
            let j = choose|j: int| 0 <= j < q.len() && (#[trigger] q[j]).1 >= mx;
            let k = choose|k: int| 0 <= k < e.len() && #[trigger] q[j] == ((#[trigger] e[k]).node_id, e[k].depth)
                && expandable(nodes, e, k);
        }
        if exists|k: int| 0 <= k < e.len() && expandable(nodes, e, k) && (#[trigger] e[k]).depth >= mx {
            let k = choose|k: int| 0 <= k < e.len() && expandable(nodes, e, k) && (#[trigger] e[k]).depth >= mx;
            let j = choose|j: int| 0 <= j < q.len() && #[trigger] q[j] == ((#[trigger] e[k]).node_id, e[k].depth);
        }
    }
}

/// Two parts of the forward invariant: a visited stored node is listed, and an expanded
/// entry is queued at its depth.
proof fn lemma_fwd_facts(
    nodes: Seq<NodeView>, edges: Seq<EdgeView>, start: Seq<char>, mx: nat, q: Seq<(Seq<char>, nat)>, qh: int,
    done: int, e: Seq<ChainEntryView>, vs: Set<Seq<char>>, mr: bool,
)
    requires
        fwd_inv(nodes, edges, start, mx, q, qh, done, e, vs, mr),
    ensures
        forall|v: Seq<char>| vs.contains(v) && exists_node(nodes, v) ==> exists|k: int| 0 <= k < e.len() && (#[trigger] e[k]).node_id == v,
        forall|k: int| 0 <= k < e.len() && expandable(nodes, e, k) ==> exists|j: int| 0 <= j < q.len()
            && #[trigger] q[j] == ((#[trigger] e[k]).node_id, e[k].depth),
{
    reveal(fwd_inv);
}

impl ChainActor {
    /// The ids in the visited cache.
    pub closed spec fn visited_ids(&self) -> Seq<NodeId> {
        self.visited@
    }

    /// A traversal actor with an empty visited cache.
    pub fn new() -> (c: Self)
        ensures
            c.visited_ids().len() == 0,
    {
        ChainActor { visited: Vec::new() }
    }

    /// Clear the visited cache.
    pub fn clear_visited(&mut self)
        ensures
            final(self).visited_ids().len() == 0,
    {
        self.visited = Vec::new();
    }

    /// Forward traversal from a cause towards its possible effects, breadth first: from
    /// the cause and from every effect reached it follows outgoing `LeadsTo` edges;
    /// each stored node reached is listed once, with the edge that led to it.
    /// A start that is not stored gives an empty result; one that is not a cause is refused.
    pub fn chain_forward_pre(&self, l2: &L2Actor, cause_id: &NodeId, max_depth: usize) -> (r: Result<ChainResult, ChainError>)
        requires
            l2.wf(),
        ensures
            !exists_node(l2.node_views(), cause_id@) ==> (r matches Ok(res) && res.entries@.len() == 0
                && !res.reached_root && !res.max_depth_reached),
            exists_node(l2.node_views(), cause_id@) && !is_cause(l2.node_views(), cause_id@)
                ==> r == Err::<ChainResult, ChainError>(ChainError::NotACause),
            is_cause(l2.node_views(), cause_id@) ==> (r matches Ok(res) && !res.reached_root
                && forward_chain(l2.node_views(), l2.edge_views(), cause_id@, max_depth as nat,
                    entries_view(res.entries@), res.max_depth_reached)),
    {
        match l2.get_node(cause_id) {
            None => {
                return Ok(ChainResult { entries: Vec::new(), reached_root: false, max_depth_reached: false });
            },
            Some(node) => {
                if node.node_type != NodeType::Cause {
                    return Err(ChainError::NotACause);
                }
            },
        }
        let ghost nodes = l2.node_views();
        let ghost edges = l2.edge_views();
        let ghost cand = candidates(cause_id@, edges);
        let ghost mx = max_depth as nat;
        let mut entries: Vec<ChainEntry> = Vec::new();
        entries.push(ChainEntry { node_id: cause_id.clone(), depth: 0, edge: None, relation: None });
        let mut queue: Vec<QueueItem> = Vec::new();
        queue.push(QueueItem { id: cause_id.clone(), depth: 0 });
        let mut visited: Vec<NodeId> = Vec::new();
        proof {
            lemma_id_set_push(visited@, *cause_id);
            assert(id_set(visited@) =~= Set::<Seq<char>>::empty());
        }
        visited.push(cause_id.clone());
        let mut qh: usize = 0;
        let mut max_reached = false;
        proof {
            assert(queue_view(queue@) =~= seq![(cause_id@, 0nat)]);
            assert(entries_view(entries@) =~= seq![ChainEntryView { node_id: cause_id@, depth: 0, edge: None, relation: None }]);
            lemma_fwd_init(nodes, edges, cause_id@, mx);
            lemma_fwd_bfs_init(nodes, edges, mx, cause_id@);
        }
        while qh < queue.len()
            invariant
                l2.wf(),
                nodes == l2.node_views(),
                edges == l2.edge_views(),
                cand == candidates(cause_id@, edges),
                mx == max_depth as nat,
                qh <= queue.len(),
                fwd_inv(nodes, edges, cause_id@, mx, queue_view(queue@), qh as int, qh as int,
                    entries_view(entries@), id_set(visited@), max_reached),
                fwd_bfs(nodes, edges, mx, queue_view(queue@), qh as int, qh as int, entries_view(entries@)),
            decreases cand.difference(id_set(visited@)).len(), queue.len() - qh,
        {
            let ghost q0 = queue_view(queue@);
            let ghost e0 = entries_view(entries@);
            let ghost vs0 = id_set(visited@);
            let ghost qh0 = qh as int;
            let ghost mr0 = max_reached;
            let item_id = queue[qh].id.clone();
            let d = queue[qh].depth;
            assert(q0[qh0] == (item_id@, d as nat));
            qh += 1;
            if d >= max_depth {
                max_reached = true;
                proof {
                    lemma_fwd_skip(nodes, edges, cause_id@, mx, q0, qh0, e0, vs0, mr0);
                    lemma_fwd_bfs_skip(nodes, edges, mx, q0, qh0, e0);
                }
                continue;
            }
            proof {
                lemma_fwd_begin(nodes, edges, cause_id@, mx, q0, qh0, e0, vs0, mr0);
            }
            let outs = l2.edges_from(&item_id);
            let ghost ov = edges_view(outs@);
            proof {
                lemma_fwd_bfs_begin(nodes, edges, mx, q0, qh0, e0, ov);
            }
            let mut i: usize = 0;
            while i < outs.len()
                invariant
                    l2.wf(),
                    nodes == l2.node_views(),
                    edges == l2.edge_views(),
                    cand == candidates(cause_id@, edges),
                    mx == max_depth as nat,
                    1 <= qh <= queue.len(),
                    qh as int == qh0 + 1,
                    queue_view(queue@)[qh - 1] == (item_id@, d as nat),
                    d < max_depth,
                    ov == edges_view(outs@),
                    ov == edges.filter(edge_filter(Some(item_id@), None)),
                    i <= outs.len(),
                    fwd_inv(nodes, edges, cause_id@, mx, queue_view(queue@), qh as int, qh - 1,
                        entries_view(entries@), id_set(visited@), max_reached),
                    fwd_partial(edges, id_set(visited@), ov, i as int),
                    fwd_bfs(nodes, edges, mx, queue_view(queue@), qh as int, qh - 1, entries_view(entries@)),
                    fwd_partial_depth(nodes, entries_view(entries@), ov, i as int, d as nat),
                    vs0.subset_of(id_set(visited@)),
                    (queue.len() == q0.len() && id_set(visited@) == vs0)
                        || cand.difference(id_set(visited@)).len() < cand.difference(vs0).len(),
                decreases outs.len() - i,
            {
                let ghost q1 = queue_view(queue@);
                let ghost e1 = entries_view(entries@);
                let ghost vs1 = id_set(visited@);
                assert(ov[i as int] == outs@[i as int]@);
                if outs[i].relation == Relation::LeadsTo && !ids_contain(&visited, &outs[i].target) {
                    let t = outs[i].target.clone();
                    proof {
                        lemma_fwd_step_new(nodes, edges, cause_id@, mx, q1, qh as int, e1, vs1, max_reached,
                            ov, item_id@, i as int);
                        lemma_fwd_bfs_new(nodes, edges, mx, q1, qh as int, e1, ov, i as int);
                        lemma_id_set_push(visited@, t);
                        cand.lemma_set_insert_diff_decreases(vs1, t@);
                    }
                    visited.push(t.clone());
                    match l2.get_node(&t) {
                        None => {},
                        Some(tn) => {
                            let ed = outs[i].clone();
                            entries.push(ChainEntry { node_id: t.clone(), depth: d + 1, edge: Some(ed), relation: Some(Relation::LeadsTo) });
                            assert(entries_view(entries@) =~= e1.push(ChainEntryView {
                                node_id: t@, depth: (d + 1) as nat, edge: Some(ov[i as int]), relation: Some(Relation::LeadsTo) }));
                            assert(is_effect(nodes, t@) == (tn@.node_type == NodeType::Effect));
                            if tn.node_type == NodeType::Effect {
                                queue.push(QueueItem { id: t, depth: d + 1 });
                                assert(queue_view(queue@) =~= q1.push((t@, (d + 1) as nat)));
                            }
                        },
                    }
                } else {
                    proof {
                        lemma_fwd_step_seen(edges, vs1, ov, i as int);
                        lemma_fwd_facts(nodes, edges, cause_id@, mx, q1, qh as int, qh - 1, e1, vs1, max_reached);
                        lemma_fwd_bfs_seen(nodes, edges, mx, q1, qh as int, e1, vs1, ov, i as int);
                    }
                }
                i += 1;
            }
            proof {
                lemma_fwd_end(nodes, edges, cause_id@, mx, queue_view(queue@), qh as int, entries_view(entries@),
                    id_set(visited@), max_reached, ov, item_id@);
                lemma_fwd_bfs_end(nodes, edges, mx, queue_view(queue@), qh as int, entries_view(entries@), ov, item_id@);
            }
        }
        proof {
            assert(queue_view(queue@).len() == qh);
            lemma_fwd_final(nodes, edges, cause_id@, mx, queue_view(queue@), entries_view(entries@),
                id_set(visited@), max_reached);
            lemma_fwd_facts(nodes, edges, cause_id@, mx, queue_view(queue@), qh as int, qh as int, entries_view(entries@),
                id_set(visited@), max_reached);
            lemma_fwd_bfs_shortest(nodes, edges, cause_id@, mx, queue_view(queue@), entries_view(entries@), max_reached);
        }
        Ok(ChainResult { entries, reached_root: false, max_depth_reached: max_reached })
    }
}

} // verus!
