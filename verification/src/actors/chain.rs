//! ChainActor: traversal of causal chains over the L2 store (backward from a symptom
//! to its root causes, forward from a cause to its possible effects).

use vstd::prelude::*;
use crate::graph::node::{Node, NodeId, NodeView, NodeType};
use crate::graph::edge::{Edge, EdgeView, Relation, edges_view};
use crate::graph::{find_node, id_set, ids_contain, lemma_id_set_push};
use crate::keyed::{find_by_key, has_key, lemma_filter_members};
use super::l2::{L2Actor, edge_filter};
use super::bfs::{back_bfs, shortest_back_depths, lemma_bfs_init, lemma_bfs_skip, lemma_bfs_visit, lemma_bfs_expand,
    lemma_bfs_shortest};

verus! {

broadcast use vstd::seq_lib::seq_to_set_is_finite;

/// One step of a chain: the node reached, its distance from the start, and (for forward
/// traversals) the edge that led to it.
#[derive(Debug)]
pub struct ChainEntry {
    pub node_id: NodeId,
    pub depth: usize,
    pub edge: Option<Edge>,
    pub relation: Option<Relation>,
}

/// The mathematical content of a `ChainEntry`.
pub struct ChainEntryView {
    pub node_id: Seq<char>,
    pub depth: nat,
    pub edge: Option<EdgeView>,
    pub relation: Option<Relation>,
}

impl View for ChainEntry {
    type V = ChainEntryView;

    open spec fn view(&self) -> ChainEntryView {
        ChainEntryView {
            node_id: self.node_id@,
            depth: self.depth as nat,
            edge: match self.edge {
                Some(e) => Some(e@),
                None => None,
            },
            relation: self.relation,
        }
    }
}

/// The views of a list of chain entries.
pub open spec fn entries_view(v: Seq<ChainEntry>) -> Seq<ChainEntryView> {
    v.map_values(|e: ChainEntry| e@)
}

/// The result of a traversal.
#[derive(Debug)]
pub struct ChainResult {
    pub entries: Vec<ChainEntry>,
    pub reached_root: bool,
    pub max_depth_reached: bool,
}

/// A pending visit of a breadth-first traversal.
pub struct QueueItem {
    pub id: NodeId,
    pub depth: usize,
}

/// The ids and depths of a queue.
pub open spec fn queue_view(q: Seq<QueueItem>) -> Seq<(Seq<char>, nat)> {
    q.map_values(|x: QueueItem| (x.id@, x.depth as nat))
}

/// Following edge `e` backwards leads from `p` to `t`: an `ExplainedBy` edge from `p` to
/// `t`, or a `LeadsTo` edge from `t` to `p`.
pub open spec fn back_step(e: EdgeView, p: Seq<char>, t: Seq<char>) -> bool {
    ||| (e.source == p && e.relation == Relation::ExplainedBy && e.target == t)
    ||| (e.target == p && e.relation == Relation::LeadsTo && e.source == t)
}

/// Some edge leads backwards from `p` to `t`.
pub open spec fn back_successor(edges: Seq<EdgeView>, p: Seq<char>, t: Seq<char>) -> bool {
    exists|i: int| 0 <= i < edges.len() && back_step(#[trigger] edges[i], p, t)
}

/// Some edge leads backwards from `p`.
pub open spec fn has_back_edge(edges: Seq<EdgeView>, p: Seq<char>) -> bool {
    exists|i: int| 0 <= i < edges.len() && back_step(#[trigger] edges[i], p, far_back(edges[i], p))
}

/// The far end of `e` when followed backwards from `p`.
pub open spec fn far_back(e: EdgeView, p: Seq<char>) -> Seq<char> {
    if e.source == p && e.relation == Relation::ExplainedBy { e.target } else { e.source }
}

/// The node with id `id` exists and is a cause.
pub open spec fn is_cause(nodes: Seq<NodeView>, id: Seq<char>) -> bool {
    find_node(nodes, id) matches Some(n) && n.node_type == NodeType::Cause
}

/// The node with id `id` exists.
pub open spec fn exists_node(nodes: Seq<NodeView>, id: Seq<char>) -> bool {
    find_node(nodes, id) is Some
}

/// The queue items pushed for the edges `es` of relation `rel`: the target (when
/// `forward`) or the source of each, at `depth`.
spec fn pushed_items(es: Seq<EdgeView>, rel: Relation, forward: bool, depth: nat) -> Seq<(Seq<char>, nat)>
    decreases es.len(),
{
    if es.len() == 0 {
        Seq::empty()
    } else {
        let r = pushed_items(es.drop_last(), rel, forward, depth);
        let e = es.last();
        if e.relation == rel {
            r.push((if forward { e.target } else { e.source }, depth))
        } else {
            r
        }
    }
}

proof fn lemma_pushed_items(es: Seq<EdgeView>, rel: Relation, forward: bool, depth: nat)
    ensures
        forall|j: int| #![trigger pushed_items(es, rel, forward, depth)[j]] 0 <= j < pushed_items(es, rel, forward, depth).len() ==> exists|i: int|
            0 <= i < es.len() && (#[trigger] es[i]).relation == rel
                && pushed_items(es, rel, forward, depth)[j] == (if forward { es[i].target } else { es[i].source }, depth),
        forall|i: int| 0 <= i < es.len() && (#[trigger] es[i]).relation == rel ==>
            pushed_items(es, rel, forward, depth).contains((if forward { es[i].target } else { es[i].source }, depth)),
    decreases es.len(),
{
    if es.len() > 0 {
        let p = es.drop_last();
        lemma_pushed_items(p, rel, forward, depth);
        let r = pushed_items(p, rel, forward, depth);
        let all = pushed_items(es, rel, forward, depth);
        assert forall|j: int| #![trigger all[j]] 0 <= j < all.len() implies exists|i: int|
            0 <= i < es.len() && (#[trigger] es[i]).relation == rel
                && all[j] == (if forward { es[i].target } else { es[i].source }, depth) by {
            if j < r.len() {
                let i = choose|i: int| 0 <= i < p.len() && (#[trigger] p[i]).relation == rel
                    && r[j] == (if forward { p[i].target } else { p[i].source }, depth);
                assert(es[i] == p[i]);
            } else {
                assert(es[es.len() - 1] == es.last());
            }
        }
        assert forall|i: int| 0 <= i < es.len() && (#[trigger] es[i]).relation == rel implies
            all.contains((if forward { es[i].target } else { es[i].source }, depth)) by {
            if i < p.len() {
                assert(es[i] == p[i]);
                let x = (if forward { p[i].target } else { p[i].source }, depth);
                assert(r.contains(x));
                let j = choose|j: int| 0 <= j < r.len() && r[j] == x;
                assert(all[j] == r[j]);
            } else {
                assert(all[all.len() - 1] == (if forward { es[i].target } else { es[i].source }, depth));
            }
        }
    }
}

/// Append to `queue`, for each edge of `es` with relation `rel`, its target (when
/// `forward`) or source at `depth`.
fn push_items(queue: &mut Vec<QueueItem>, es: &Vec<Edge>, rel: Relation, forward: bool, depth: usize)
    ensures
        queue_view(final(queue)@) == queue_view(old(queue)@) + pushed_items(edges_view(es@), rel, forward, depth as nat),
{
    let ghost q0 = queue_view(queue@);
    let mut i: usize = 0;
    while i < es.len()
        invariant
            i <= es.len(),
            queue_view(queue@) == q0 + pushed_items(edges_view(es@).take(i as int), rel, forward, depth as nat),
        decreases es.len() - i,
    {
        let ghost ev = edges_view(es@);
        assert(ev.take(i + 1).drop_last() =~= ev.take(i as int));
        assert(ev.take(i + 1).last() == ev[i as int]);
        if es[i].relation == rel {
            let id = if forward { es[i].target.clone() } else { es[i].source.clone() };
            let ghost before = queue_view(queue@);
            queue.push(QueueItem { id, depth });
            assert(queue_view(queue@) =~= before.push((if forward { ev[i as int].target } else { ev[i as int].source }, depth as nat)));
        }
        i += 1;
    }
    assert(edges_view(es@).take(es.len() as int) =~= edges_view(es@));
}


proof fn lemma_back_pushes(
    start: Seq<char>,
    edges: Seq<EdgeView>,
    id: Seq<char>,
    d1: nat,
    outs: Seq<EdgeView>,
    ins: Seq<EdgeView>,
)
    requires
        outs == edges.filter(edge_filter(Some(id), None)),
        ins == edges.filter(edge_filter(None, Some(id))),
    ensures
        forall|j: int| 0 <= j < (pushed_items(outs, Relation::ExplainedBy, true, d1) + pushed_items(ins, Relation::LeadsTo, false, d1)).len()
            ==> #[trigger] (pushed_items(outs, Relation::ExplainedBy, true, d1) + pushed_items(ins, Relation::LeadsTo, false, d1))[j].1 == d1
            && back_successor(edges, id, (pushed_items(outs, Relation::ExplainedBy, true, d1) + pushed_items(ins, Relation::LeadsTo, false, d1))[j].0)
            && candidates(start, edges).contains((pushed_items(outs, Relation::ExplainedBy, true, d1) + pushed_items(ins, Relation::LeadsTo, false, d1))[j].0),
        forall|t: Seq<char>| #[trigger] back_successor(edges, id, t) ==>
            (pushed_items(outs, Relation::ExplainedBy, true, d1) + pushed_items(ins, Relation::LeadsTo, false, d1)).contains((t, d1)),
        has_back_edge(edges, id) ==> (pushed_items(outs, Relation::ExplainedBy, true, d1) + pushed_items(ins, Relation::LeadsTo, false, d1)).len() > 0,
{
    let p1 = pushed_items(outs, Relation::ExplainedBy, true, d1);
    let p2 = pushed_items(ins, Relation::LeadsTo, false, d1);
    let pp = p1 + p2;
    lemma_pushed_items(outs, Relation::ExplainedBy, true, d1);
    lemma_pushed_items(ins, Relation::LeadsTo, false, d1);
    lemma_filter_members(edges, edge_filter(Some(id), None));
    lemma_filter_members(edges, edge_filter(None, Some(id)));
    assert forall|j: int| 0 <= j < pp.len() implies #[trigger] pp[j].1 == d1 && back_successor(edges, id, pp[j].0)
        && candidates(start, edges).contains(pp[j].0) by {
        if j < p1.len() {
            assert(pp[j] == p1[j]);
            let i = choose|i: int| 0 <= i < outs.len() && (#[trigger] outs[i]).relation == Relation::ExplainedBy
                && p1[j] == (outs[i].target, d1);
            assert(edge_filter(Some(id), None)(outs[i]));
            let m = choose|m: int| 0 <= m < edges.len() && edges[m] == outs[i];
            assert(back_step(edges[m], id, pp[j].0));
            lemma_candidates(start, edges, m);
        } else {
            let j2 = j - p1.len();
            assert(pp[j] == p2[j2]);
            let i = choose|i: int| 0 <= i < ins.len() && (#[trigger] ins[i]).relation == Relation::LeadsTo
                && p2[j2] == (ins[i].source, d1);
            assert(edge_filter(None, Some(id))(ins[i]));
            let m = choose|m: int| 0 <= m < edges.len() && edges[m] == ins[i];
            assert(back_step(edges[m], id, pp[j].0));
            lemma_candidates(start, edges, m);
        }
    }
    assert forall|t: Seq<char>| #[trigger] back_successor(edges, id, t) implies pp.contains((t, d1)) by {
        let m = choose|m: int| 0 <= m < edges.len() && back_step(#[trigger] edges[m], id, t);
        if edges[m].source == id && edges[m].relation == Relation::ExplainedBy && edges[m].target == t {
            assert(edge_filter(Some(id), None)(edges[m]));
            assert(outs.contains(edges[m]));
            let i = choose|i: int| 0 <= i < outs.len() && outs[i] == edges[m];
            assert(outs[i].relation == Relation::ExplainedBy);
            assert(p1.contains((t, d1)));
            let j = choose|j: int| 0 <= j < p1.len() && p1[j] == (t, d1);
            assert(pp[j] == p1[j]);
        } else {
            assert(edge_filter(None, Some(id))(edges[m]));
            assert(ins.contains(edges[m]));
            let i = choose|i: int| 0 <= i < ins.len() && ins[i] == edges[m];
            assert(ins[i].relation == Relation::LeadsTo);
            assert(p2.contains((t, d1)));
            let j = choose|j: int| 0 <= j < p2.len() && p2[j] == (t, d1);
            assert(pp[p1.len() + j] == p2[j]);
        }
    }
    if has_back_edge(edges, id) {
        let m = choose|m: int| 0 <= m < edges.len() && back_step(#[trigger] edges[m], id, far_back(edges[m], id));
        assert(back_successor(edges, id, far_back(edges[m], id)));
        assert(pp.contains((far_back(edges[m], id), d1)));
    }
}

/// The ids a traversal from `start` can meet: `start` and the ends of every edge.
pub open spec fn candidates(start: Seq<char>, edges: Seq<EdgeView>) -> Set<Seq<char>> {
    (seq![start] + edges.map_values(|e: EdgeView| e.source) + edges.map_values(|e: EdgeView| e.target)).to_set()
}

/// The start and both ends of every edge are among the candidates of a traversal.
pub proof fn lemma_candidates(start: Seq<char>, edges: Seq<EdgeView>, i: int)
    requires
        0 <= i < edges.len(),
    ensures
        candidates(start, edges).contains(edges[i].source),
        candidates(start, edges).contains(edges[i].target),
        candidates(start, edges).contains(start),
{
    let s = seq![start] + edges.map_values(|e: EdgeView| e.source) + edges.map_values(|e: EdgeView| e.target);
    assert(s[0] == start);
    assert(s[1 + i] == edges[i].source);
    assert(s[1 + edges.len() + i] == edges[i].target);
}

/// The invariant of the backward breadth-first traversal. `q` is the queue (visits
/// before `qh` are done), `e` the entries, `vs` the visited ids, `cur` the depth of the
/// last visit taken from the queue.
#[verifier::opaque]
spec fn back_inv(
    nodes: Seq<NodeView>,
    edges: Seq<EdgeView>,
    start: Seq<char>,
    mx: nat,
    q: Seq<(Seq<char>, nat)>,
    qh: int,
    e: Seq<ChainEntryView>,
    vs: Set<Seq<char>>,
    cur: nat,
    reached_root: bool,
    max_reached: bool,
) -> bool {
    &&& 1 <= q.len()
    &&& 0 <= qh <= q.len()
    &&& q[0] == (start, 0nat)
    &&& forall|j: int| 0 < j < q.len() ==> (#[trigger] q[j]).1 >= 1
    &&& forall|j: int| 0 <= j < q.len() ==> candidates(start, edges).contains((#[trigger] q[j]).0)
    &&& forall|v: Seq<char>| vs.contains(v) ==> candidates(start, edges).contains(v)
    &&& forall|a: int, b: int| qh <= a <= b < q.len() ==> (#[trigger] q[a]).1 <= (#[trigger] q[b]).1
    &&& forall|j: int| qh <= j < q.len() ==> cur <= (#[trigger] q[j]).1 <= cur + 1
    &&& forall|j: int| qh <= j < q.len() ==> (#[trigger] q[j]).1 <= e.len()
    &&& forall|j: int| 0 < j < q.len() ==> exists|k: int| 0 <= k < e.len() && (#[trigger] e[k]).depth + 1 == (#[trigger] q[j]).1
        && !is_cause(nodes, e[k].node_id) && back_successor(edges, e[k].node_id, q[j].0)
    &&& forall|k: int| 0 <= k < e.len() ==> {
        &&& (#[trigger] e[k]).depth <= k
        &&& e[k].depth <= mx
        &&& vs.contains(e[k].node_id)
        &&& exists_node(nodes, e[k].node_id)
        &&& e[k].edge is None
        &&& e[k].relation is None
        &&& exists|j: int| 0 <= j < qh && #[trigger] q[j] == (e[k].node_id, e[k].depth)
    }
    &&& forall|k1: int, k2: int| 0 <= k1 < e.len() && 0 <= k2 < e.len() && k1 != k2 ==>
        (#[trigger] e[k1]).node_id != (#[trigger] e[k2]).node_id
    &&& forall|v: Seq<char>| vs.contains(v) && exists_node(nodes, v) ==> exists|k: int| 0 <= k < e.len() && (#[trigger] e[k]).node_id == v
    &&& forall|k: int, t: Seq<char>| 0 <= k < e.len() && !is_cause(nodes, (#[trigger] e[k]).node_id) && e[k].depth < mx
        && #[trigger] back_successor(edges, e[k].node_id, t) ==> vs.contains(t)
        || exists|j: int| qh <= j < q.len() && (#[trigger] q[j]).0 == t && q[j].1 <= mx
    &&& reached_root == exists|k: int| 0 <= k < e.len() && is_cause(nodes, (#[trigger] e[k]).node_id)
    &&& max_reached == exists|j: int| 0 <= j < qh && (#[trigger] q[j]).1 > mx
    &&& forall|k: int| 0 <= k < e.len() && !is_cause(nodes, (#[trigger] e[k]).node_id)
        && has_back_edge(edges, e[k].node_id) && e[k].depth == mx ==> exists|j: int| 0 <= j < q.len() && (#[trigger] q[j]).1 > mx
    &&& !exists_node(nodes, start) ==> e.len() == 0 && q.len() == 1
    &&& (qh > 0 && exists_node(nodes, start)) ==> e.len() > 0 && e[0].node_id == start && e[0].depth == 0
    &&& qh == 0 ==> e.len() == 0 && vs == Set::<Seq<char>>::empty() && q.len() == 1
}

proof fn lemma_back_skip(
    nodes: Seq<NodeView>, edges: Seq<EdgeView>, start: Seq<char>, mx: nat, q: Seq<(Seq<char>, nat)>, qh: int,
    e: Seq<ChainEntryView>, vs: Set<Seq<char>>, cur: nat, rr: bool, mr: bool,
)
    requires
        back_inv(nodes, edges, start, mx, q, qh, e, vs, cur, rr, mr),
        qh < q.len(),
        q[qh].1 > mx || vs.contains(q[qh].0),
    ensures
        back_inv(nodes, edges, start, mx, q, qh + 1, e, vs, q[qh].1, rr, mr || q[qh].1 > mx),
{
    reveal(back_inv);
    assert forall|k: int, t: Seq<char>| 0 <= k < e.len() && !is_cause(nodes, (#[trigger] e[k]).node_id)
        && e[k].depth < mx && #[trigger] back_successor(edges, e[k].node_id, t) implies vs.contains(t)
        || exists|j: int| qh + 1 <= j < q.len() && (#[trigger] q[j]).0 == t && q[j].1 <= mx by {
        if !vs.contains(t) {
            let j = choose|j: int| qh <= j < q.len() && (#[trigger] q[j]).0 == t && q[j].1 <= mx;
            assert(j != qh);
        }
    }
    assert forall|k: int| 0 <= k < e.len() implies exists|j: int| 0 <= j < qh + 1
        && #[trigger] q[j] == ((#[trigger] e[k]).node_id, e[k].depth) by {
        let j = choose|j: int| 0 <= j < qh && #[trigger] q[j] == (e[k].node_id, e[k].depth);
    }
    assert((mr || q[qh].1 > mx) == exists|j: int| 0 <= j < qh + 1 && (#[trigger] q[j]).1 > mx) by {
        if exists|j: int| 0 <= j < qh + 1 && (#[trigger] q[j]).1 > mx {
            let j = choose|j: int| 0 <= j < qh + 1 && (#[trigger] q[j]).1 > mx;
            if j != qh {
                assert(mr);
            }
        }
        if mr {
            let j = choose|j: int| 0 <= j < qh && (#[trigger] q[j]).1 > mx;
        }
    }
    assert forall|j: int| qh + 1 <= j < q.len() implies q[qh].1 <= (#[trigger] q[j]).1 <= q[qh].1 + 1 by {
        assert(q[qh].1 <= q[j].1);
    }
    if qh == 0 {
        assert(q[0].1 == 0);
        assert(!vs.contains(q[0].0));
    }
}

proof fn lemma_back_visit_missing(
    nodes: Seq<NodeView>, edges: Seq<EdgeView>, start: Seq<char>, mx: nat, q: Seq<(Seq<char>, nat)>, qh: int,
    e: Seq<ChainEntryView>, vs: Set<Seq<char>>, cur: nat, rr: bool, mr: bool,
)
    requires
        back_inv(nodes, edges, start, mx, q, qh, e, vs, cur, rr, mr),
        qh < q.len(),
        q[qh].1 <= mx,
        !vs.contains(q[qh].0),
        !exists_node(nodes, q[qh].0),
    ensures
        back_inv(nodes, edges, start, mx, q, qh + 1, e, vs.insert(q[qh].0), q[qh].1, rr, mr),
{
    reveal(back_inv);
    let vs1 = vs.insert(q[qh].0);
    assert forall|k: int, t: Seq<char>| 0 <= k < e.len() && !is_cause(nodes, (#[trigger] e[k]).node_id)
        && e[k].depth < mx && #[trigger] back_successor(edges, e[k].node_id, t) implies vs1.contains(t)
        || exists|j: int| qh + 1 <= j < q.len() && (#[trigger] q[j]).0 == t && q[j].1 <= mx by {
        if !vs.contains(t) {
            let j = choose|j: int| qh <= j < q.len() && (#[trigger] q[j]).0 == t && q[j].1 <= mx;
        }
    }
    assert forall|k: int| 0 <= k < e.len() implies exists|j: int| 0 <= j < qh + 1
        && #[trigger] q[j] == ((#[trigger] e[k]).node_id, e[k].depth) by {
        let j = choose|j: int| 0 <= j < qh && #[trigger] q[j] == (e[k].node_id, e[k].depth);
    }
    assert(mr == exists|j: int| 0 <= j < qh + 1 && (#[trigger] q[j]).1 > mx) by {
        if exists|j: int| 0 <= j < qh + 1 && (#[trigger] q[j]).1 > mx {
            let j = choose|j: int| 0 <= j < qh + 1 && (#[trigger] q[j]).1 > mx;
            assert(j != qh);
        }
        if mr {
            let j = choose|j: int| 0 <= j < qh && (#[trigger] q[j]).1 > mx;
        }
    }
    assert forall|j: int| qh + 1 <= j < q.len() implies q[qh].1 <= (#[trigger] q[j]).1 <= q[qh].1 + 1 by {
        assert(q[qh].1 <= q[j].1);
    }
    assert forall|v: Seq<char>| vs1.contains(v) && exists_node(nodes, v) implies
        exists|k: int| 0 <= k < e.len() && (#[trigger] e[k]).node_id == v by {
        assert(v != q[qh].0);
    }
}

/// The entries after visiting the stored node at the head of the queue.
spec fn visit_entry(q: Seq<(Seq<char>, nat)>, qh: int) -> ChainEntryView {
    ChainEntryView { node_id: q[qh].0, depth: q[qh].1, edge: None, relation: None }
}

#[verifier::rlimit(100)]
#[verifier::spinoff_prover]
proof fn lemma_back_visit_entries(
    nodes: Seq<NodeView>, edges: Seq<EdgeView>, start: Seq<char>, mx: nat, q: Seq<(Seq<char>, nat)>, qh: int,
    e: Seq<ChainEntryView>, vs: Set<Seq<char>>, cur: nat, rr: bool, mr: bool,
)
    requires
        back_inv(nodes, edges, start, mx, q, qh, e, vs, cur, rr, mr),
        qh < q.len(),
        q[qh].1 <= mx,
        !vs.contains(q[qh].0),
        exists_node(nodes, q[qh].0),
    ensures
        ({
            let e1 = e.push(visit_entry(q, qh));
            let vs1 = vs.insert(q[qh].0);
            &&& forall|k: int| 0 <= k < e1.len() ==> {
                &&& (#[trigger] e1[k]).depth <= k
                &&& e1[k].depth <= mx
                &&& vs1.contains(e1[k].node_id)
                &&& exists_node(nodes, e1[k].node_id)
                &&& e1[k].edge is None
                &&& e1[k].relation is None
                &&& exists|j: int| 0 <= j < qh + 1 && #[trigger] q[j] == (e1[k].node_id, e1[k].depth)
            }
            &&& forall|k1: int, k2: int| 0 <= k1 < e1.len() && 0 <= k2 < e1.len() && k1 != k2 ==>
                (#[trigger] e1[k1]).node_id != (#[trigger] e1[k2]).node_id
            &&& forall|v: Seq<char>| vs1.contains(v) && exists_node(nodes, v) ==> exists|k: int| 0 <= k < e1.len() && (#[trigger] e1[k]).node_id == v
            &&& forall|v: Seq<char>| vs1.contains(v) ==> candidates(start, edges).contains(v)
        }),
{
    reveal(back_inv);
    let id = q[qh].0;
    let e1 = e.push(visit_entry(q, qh));
    let vs1 = vs.insert(id);
    assert forall|k: int| 0 <= k < e1.len() implies exists|j: int| 0 <= j < qh + 1
        && #[trigger] q[j] == ((#[trigger] e1[k]).node_id, e1[k].depth) by {
        if k < e.len() {
            assert(e1[k] == e[k]);
            let j = choose|j: int| 0 <= j < qh && #[trigger] q[j] == (e[k].node_id, e[k].depth);
        } else {
            assert(q[qh] == (e1[k].node_id, e1[k].depth));
        }
    }
    assert forall|k: int| 0 <= k < e1.len() implies (#[trigger] e1[k]).depth <= k && e1[k].depth <= mx
        && vs1.contains(e1[k].node_id) && exists_node(nodes, e1[k].node_id) && e1[k].edge is None && e1[k].relation is None by {
        if k < e.len() {
            assert(e1[k] == e[k]);
        }
    }
    assert forall|k1: int, k2: int| 0 <= k1 < e1.len() && 0 <= k2 < e1.len() && k1 != k2 implies
        (#[trigger] e1[k1]).node_id != (#[trigger] e1[k2]).node_id by {
        if k1 < e.len() && k2 < e.len() {
            assert(e1[k1] == e[k1] && e1[k2] == e[k2]);
        } else if k1 < e.len() {
            assert(e1[k1] == e[k1]);
            assert(vs.contains(e[k1].node_id));
        } else {
            assert(e1[k2] == e[k2]);
            assert(vs.contains(e[k2].node_id));
        }
    }
    assert forall|v: Seq<char>| vs1.contains(v) && exists_node(nodes, v) implies
        exists|k: int| 0 <= k < e1.len() && (#[trigger] e1[k]).node_id == v by {
        if v == id {
            assert(e1[e.len() as int].node_id == v);
        } else {
            let k = choose|k: int| 0 <= k < e.len() && (#[trigger] e[k]).node_id == v;
            assert(e1[k] == e[k]);
        }
    }
}

#[verifier::rlimit(100)]
#[verifier::spinoff_prover]
proof fn lemma_back_visit_queue(
    nodes: Seq<NodeView>, edges: Seq<EdgeView>, start: Seq<char>, mx: nat, q: Seq<(Seq<char>, nat)>, qh: int,
    e: Seq<ChainEntryView>, vs: Set<Seq<char>>, cur: nat, rr: bool, mr: bool,
)
    requires
        back_inv(nodes, edges, start, mx, q, qh, e, vs, cur, rr, mr),
        qh < q.len(),
        q[qh].1 <= mx,
        !vs.contains(q[qh].0),
        exists_node(nodes, q[qh].0),
    ensures
        ({
            let e1 = e.push(visit_entry(q, qh));
            let vs1 = vs.insert(q[qh].0);
            &&& forall|j: int| 0 < j < q.len() ==> exists|k: int| 0 <= k < e1.len() && (#[trigger] e1[k]).depth + 1 == (#[trigger] q[j]).1
                && !is_cause(nodes, e1[k].node_id) && back_successor(edges, e1[k].node_id, q[j].0)
            &&& forall|k: int, t: Seq<char>| 0 <= k < e.len() && !is_cause(nodes, (#[trigger] e1[k]).node_id) && e1[k].depth < mx
                && #[trigger] back_successor(edges, e1[k].node_id, t) ==> vs1.contains(t)
                || exists|j: int| qh + 1 <= j < q.len() && (#[trigger] q[j]).0 == t && q[j].1 <= mx
            &&& forall|k: int| 0 <= k < e.len() && !is_cause(nodes, (#[trigger] e1[k]).node_id)
                && has_back_edge(edges, e1[k].node_id) && e1[k].depth == mx ==> exists|j: int| 0 <= j < q.len() && (#[trigger] q[j]).1 > mx
            &&& mr == exists|j: int| 0 <= j < qh + 1 && (#[trigger] q[j]).1 > mx
            &&& exists_node(nodes, start) ==> e1.len() > 0 && e1[0].node_id == start && e1[0].depth == 0
            &&& forall|j: int| qh + 1 <= j < q.len() ==> q[qh].1 <= (#[trigger] q[j]).1 <= q[qh].1 + 1
            &&& forall|j: int| qh + 1 <= j < q.len() ==> (#[trigger] q[j]).1 <= e1.len()
            &&& q[qh].1 <= e.len()
            &&& (rr || is_cause(nodes, q[qh].0)) == exists|k: int| 0 <= k < e1.len() && is_cause(nodes, (#[trigger] e1[k]).node_id)
        }),
{
    reveal(back_inv);
    let id = q[qh].0;
    let e1 = e.push(visit_entry(q, qh));
    let vs1 = vs.insert(id);
    assert forall|j: int| 0 < j < q.len() implies exists|k: int| 0 <= k < e1.len()
        && (#[trigger] e1[k]).depth + 1 == (#[trigger] q[j]).1
        && !is_cause(nodes, e1[k].node_id) && back_successor(edges, e1[k].node_id, q[j].0) by {
        let k = choose|k: int| 0 <= k < e.len() && (#[trigger] e[k]).depth + 1 == (#[trigger] q[j]).1
            && !is_cause(nodes, e[k].node_id) && back_successor(edges, e[k].node_id, q[j].0);
        assert(e1[k] == e[k]);
    }
    assert forall|k: int, t: Seq<char>| 0 <= k < e.len() && !is_cause(nodes, (#[trigger] e1[k]).node_id) && e1[k].depth < mx
        && #[trigger] back_successor(edges, e1[k].node_id, t) implies vs1.contains(t)
        || exists|j: int| qh + 1 <= j < q.len() && (#[trigger] q[j]).0 == t && q[j].1 <= mx by {
        assert(e1[k] == e[k]);
        if !vs.contains(t) {
            let j = choose|j: int| qh <= j < q.len() && (#[trigger] q[j]).0 == t && q[j].1 <= mx;
        }
    }
    assert forall|k: int| 0 <= k < e.len() && !is_cause(nodes, (#[trigger] e1[k]).node_id)
        && has_back_edge(edges, e1[k].node_id) && e1[k].depth == mx implies exists|j: int| 0 <= j < q.len() && (#[trigger] q[j]).1 > mx by {
        assert(e1[k] == e[k]);
    }
    assert(mr == exists|j: int| 0 <= j < qh + 1 && (#[trigger] q[j]).1 > mx) by {
        if exists|j: int| 0 <= j < qh + 1 && (#[trigger] q[j]).1 > mx {
            let j = choose|j: int| 0 <= j < qh + 1 && (#[trigger] q[j]).1 > mx;
            assert(j != qh);
        }
        if mr {
            let j = choose|j: int| 0 <= j < qh && (#[trigger] q[j]).1 > mx;
        }
    }
    if qh == 0 {
        assert(e1[0] == visit_entry(q, qh));
    } else if exists_node(nodes, start) {
        assert(e1[0] == e[0]);
    }
    assert forall|j: int| qh + 1 <= j < q.len() implies q[qh].1 <= (#[trigger] q[j]).1 <= q[qh].1 + 1 by {
        assert(q[qh].1 <= q[j].1);
    }
    assert((rr || is_cause(nodes, id)) == exists|k: int| 0 <= k < e1.len() && is_cause(nodes, (#[trigger] e1[k]).node_id)) by {
        if exists|k: int| 0 <= k < e1.len() && is_cause(nodes, (#[trigger] e1[k]).node_id) {
            let k = choose|k: int| 0 <= k < e1.len() && is_cause(nodes, (#[trigger] e1[k]).node_id);
            if k < e.len() {
                assert(e1[k] == e[k]);
            }
        }
        if rr {
            let k = choose|k: int| 0 <= k < e.len() && is_cause(nodes, (#[trigger] e[k]).node_id);
            assert(e1[k] == e[k]);
        }
        if is_cause(nodes, id) {
            assert(e1[e.len() as int].node_id == id);
        }
    }
}


#[verifier::rlimit(100)]
proof fn lemma_back_visit_common(
    nodes: Seq<NodeView>, edges: Seq<EdgeView>, start: Seq<char>, mx: nat, q: Seq<(Seq<char>, nat)>, qh: int,
    e: Seq<ChainEntryView>, vs: Set<Seq<char>>, cur: nat, rr: bool, mr: bool,
)
    requires
        back_inv(nodes, edges, start, mx, q, qh, e, vs, cur, rr, mr),
        qh < q.len(),
        q[qh].1 <= mx,
        !vs.contains(q[qh].0),
        exists_node(nodes, q[qh].0),
    ensures
        ({
            let e1 = e.push(visit_entry(q, qh));
            let vs1 = vs.insert(q[qh].0);
            &&& forall|k: int| 0 <= k < e1.len() ==> {
                &&& (#[trigger] e1[k]).depth <= k
                &&& e1[k].depth <= mx
                &&& vs1.contains(e1[k].node_id)
                &&& exists_node(nodes, e1[k].node_id)
                &&& e1[k].edge is None
                &&& e1[k].relation is None
                &&& exists|j: int| 0 <= j < qh + 1 && #[trigger] q[j] == (e1[k].node_id, e1[k].depth)
            }
            &&& forall|k1: int, k2: int| 0 <= k1 < e1.len() && 0 <= k2 < e1.len() && k1 != k2 ==>
                (#[trigger] e1[k1]).node_id != (#[trigger] e1[k2]).node_id
            &&& forall|v: Seq<char>| vs1.contains(v) && exists_node(nodes, v) ==> exists|k: int| 0 <= k < e1.len() && (#[trigger] e1[k]).node_id == v
            &&& forall|v: Seq<char>| vs1.contains(v) ==> candidates(start, edges).contains(v)
            &&& forall|j: int| 0 < j < q.len() ==> exists|k: int| 0 <= k < e1.len() && (#[trigger] e1[k]).depth + 1 == (#[trigger] q[j]).1
                && !is_cause(nodes, e1[k].node_id) && back_successor(edges, e1[k].node_id, q[j].0)
            &&& forall|k: int, t: Seq<char>| 0 <= k < e.len() && !is_cause(nodes, (#[trigger] e1[k]).node_id) && e1[k].depth < mx
                && #[trigger] back_successor(edges, e1[k].node_id, t) ==> vs1.contains(t)
                || exists|j: int| qh + 1 <= j < q.len() && (#[trigger] q[j]).0 == t && q[j].1 <= mx
            &&& forall|k: int| 0 <= k < e.len() && !is_cause(nodes, (#[trigger] e1[k]).node_id)
                && has_back_edge(edges, e1[k].node_id) && e1[k].depth == mx ==> exists|j: int| 0 <= j < q.len() && (#[trigger] q[j]).1 > mx
            &&& mr == exists|j: int| 0 <= j < qh + 1 && (#[trigger] q[j]).1 > mx
            &&& exists_node(nodes, start) ==> e1.len() > 0 && e1[0].node_id == start && e1[0].depth == 0
            &&& forall|j: int| qh + 1 <= j < q.len() ==> q[qh].1 <= (#[trigger] q[j]).1 <= q[qh].1 + 1
            &&& forall|j: int| qh + 1 <= j < q.len() ==> (#[trigger] q[j]).1 <= e1.len()
            &&& q[qh].1 <= e.len()
            &&& (rr || is_cause(nodes, q[qh].0)) == exists|k: int| 0 <= k < e1.len() && is_cause(nodes, (#[trigger] e1[k]).node_id)
        }),
{
    lemma_back_visit_entries(nodes, edges, start, mx, q, qh, e, vs, cur, rr, mr);
    lemma_back_visit_queue(nodes, edges, start, mx, q, qh, e, vs, cur, rr, mr);
}

proof fn lemma_back_visit_cause(
    nodes: Seq<NodeView>, edges: Seq<EdgeView>, start: Seq<char>, mx: nat, q: Seq<(Seq<char>, nat)>, qh: int,
    e: Seq<ChainEntryView>, vs: Set<Seq<char>>, cur: nat, rr: bool, mr: bool,
)
    requires
        back_inv(nodes, edges, start, mx, q, qh, e, vs, cur, rr, mr),
        qh < q.len(),
        q[qh].1 <= mx,
        !vs.contains(q[qh].0),
        exists_node(nodes, q[qh].0),
        is_cause(nodes, q[qh].0),
    ensures
        back_inv(nodes, edges, start, mx, q, qh + 1, e.push(visit_entry(q, qh)), vs.insert(q[qh].0), q[qh].1, true, mr),
{
    lemma_back_visit_common(nodes, edges, start, mx, q, qh, e, vs, cur, rr, mr);
    reveal(back_inv);
    let e1 = e.push(visit_entry(q, qh));
    assert forall|k: int, t: Seq<char>| 0 <= k < e1.len() && !is_cause(nodes, (#[trigger] e1[k]).node_id) && e1[k].depth < mx
        && #[trigger] back_successor(edges, e1[k].node_id, t) implies vs.insert(q[qh].0).contains(t)
        || exists|j: int| qh + 1 <= j < q.len() && (#[trigger] q[j]).0 == t && q[j].1 <= mx by {
        assert(k < e.len());
    }
    assert forall|k: int| 0 <= k < e1.len() && !is_cause(nodes, (#[trigger] e1[k]).node_id)
        && has_back_edge(edges, e1[k].node_id) && e1[k].depth == mx implies exists|j: int| 0 <= j < q.len() && (#[trigger] q[j]).1 > mx by {
        assert(k < e.len());
    }
}

proof fn lemma_back_head(
    nodes: Seq<NodeView>, edges: Seq<EdgeView>, start: Seq<char>, mx: nat, q: Seq<(Seq<char>, nat)>, qh: int,
    e: Seq<ChainEntryView>, vs: Set<Seq<char>>, cur: nat, rr: bool, mr: bool,
)
    requires
        back_inv(nodes, edges, start, mx, q, qh, e, vs, cur, rr, mr),
        qh < q.len(),
    ensures
        candidates(start, edges).contains(q[qh].0),
        forall|v: Seq<char>| vs.contains(v) ==> candidates(start, edges).contains(v),
        q[qh].1 <= e.len(),
{
    reveal(back_inv);
}

/// The invariant of the backward traversal holds when each of its parts does.
proof fn lemma_back_inv_intro(
    nodes: Seq<NodeView>,
    edges: Seq<EdgeView>,
    start: Seq<char>,
    mx: nat,
    q: Seq<(Seq<char>, nat)>,
    qh: int,
    e: Seq<ChainEntryView>,
    vs: Set<Seq<char>>,
    cur: nat,
    reached_root: bool,
    max_reached: bool,
)
    requires
        1 <= q.len(),
        0 <= qh <= q.len(),
        q[0] == (start, 0nat),
        forall|j: int| 0 < j < q.len() ==> (#[trigger] q[j]).1 >= 1,
        forall|j: int| 0 <= j < q.len() ==> candidates(start, edges).contains((#[trigger] q[j]).0),
        forall|v: Seq<char>| vs.contains(v) ==> candidates(start, edges).contains(v),
        forall|a: int, b: int| qh <= a <= b < q.len() ==> (#[trigger] q[a]).1 <= (#[trigger] q[b]).1,
        forall|j: int| qh <= j < q.len() ==> cur <= (#[trigger] q[j]).1 <= cur + 1,
        forall|j: int| qh <= j < q.len() ==> (#[trigger] q[j]).1 <= e.len(),
        forall|j: int| 0 < j < q.len() ==> exists|k: int| 0 <= k < e.len() && (#[trigger] e[k]).depth + 1 == (#[trigger] q[j]).1
            && !is_cause(nodes, e[k].node_id) && back_successor(edges, e[k].node_id, q[j].0),
        forall|k: int| 0 <= k < e.len() ==> {
            &&& (#[trigger] e[k]).depth <= k
            &&& e[k].depth <= mx
            &&& vs.contains(e[k].node_id)
            &&& exists_node(nodes, e[k].node_id)
            &&& e[k].edge is None
            &&& e[k].relation is None
            &&& exists|j: int| 0 <= j < qh && #[trigger] q[j] == (e[k].node_id, e[k].depth)
        },
        forall|k1: int, k2: int| 0 <= k1 < e.len() && 0 <= k2 < e.len() && k1 != k2 ==>
            (#[trigger] e[k1]).node_id != (#[trigger] e[k2]).node_id,
        forall|v: Seq<char>| vs.contains(v) && exists_node(nodes, v) ==> exists|k: int| 0 <= k < e.len() && (#[trigger] e[k]).node_id == v,
        forall|k: int, t: Seq<char>| 0 <= k < e.len() && !is_cause(nodes, (#[trigger] e[k]).node_id) && e[k].depth < mx
            && #[trigger] back_successor(edges, e[k].node_id, t) ==> vs.contains(t)
            || exists|j: int| qh <= j < q.len() && (#[trigger] q[j]).0 == t && q[j].1 <= mx,
        reached_root == exists|k: int| 0 <= k < e.len() && is_cause(nodes, (#[trigger] e[k]).node_id),
        max_reached == exists|j: int| 0 <= j < qh && (#[trigger] q[j]).1 > mx,
        forall|k: int| 0 <= k < e.len() && !is_cause(nodes, (#[trigger] e[k]).node_id)
            && has_back_edge(edges, e[k].node_id) && e[k].depth == mx ==> exists|j: int| 0 <= j < q.len() && (#[trigger] q[j]).1 > mx,
        !exists_node(nodes, start) ==> e.len() == 0 && q.len() == 1,
        (qh > 0 && exists_node(nodes, start)) ==> e.len() > 0 && e[0].node_id == start && e[0].depth == 0,
        qh == 0 ==> e.len() == 0 && vs == Set::<Seq<char>>::empty() && q.len() == 1,
    ensures
        back_inv(nodes, edges, start, mx, q, qh, e, vs, cur, reached_root, max_reached),
{
    reveal(back_inv);
}

#[verifier::rlimit(100)]
proof fn lemma_expand_queue_shape(
    nodes: Seq<NodeView>, edges: Seq<EdgeView>, start: Seq<char>, mx: nat, q: Seq<(Seq<char>, nat)>, qh: int,
    e: Seq<ChainEntryView>, vs: Set<Seq<char>>, cur: nat, rr: bool, mr: bool, pp: Seq<(Seq<char>, nat)>,
)
    requires
        back_inv(nodes, edges, start, mx, q, qh, e, vs, cur, rr, mr),
        qh < q.len(),
        q[qh].1 <= mx,
        !vs.contains(q[qh].0),
        exists_node(nodes, q[qh].0),
        !is_cause(nodes, q[qh].0),
        forall|j: int| 0 <= j < pp.len() ==> #[trigger] pp[j].1 == q[qh].1 + 1
            && back_successor(edges, q[qh].0, pp[j].0) && candidates(start, edges).contains(pp[j].0),
        forall|t: Seq<char>| #[trigger] back_successor(edges, q[qh].0, t) ==> pp.contains((t, q[qh].1 + 1)),
        has_back_edge(edges, q[qh].0) ==> pp.len() > 0,
    ensures
        1 <= (q + pp).len(),
        0 <= (qh + 1) <= (q + pp).len(),
        (q + pp)[0] == (start, 0nat),
        forall|j: int| 0 < j < (q + pp).len() ==> (#[trigger] (q + pp)[j]).1 >= 1,
        forall|j: int| 0 <= j < (q + pp).len() ==> candidates(start, edges).contains((#[trigger] (q + pp)[j]).0),
        forall|a: int, b: int| (qh + 1) <= a <= b < (q + pp).len() ==> (#[trigger] (q + pp)[a]).1 <= (#[trigger] (q + pp)[b]).1,
        forall|j: int| (qh + 1) <= j < (q + pp).len() ==> q[qh].1 <= (#[trigger] (q + pp)[j]).1 <= q[qh].1 + 1,
        forall|j: int| (qh + 1) <= j < (q + pp).len() ==> (#[trigger] (q + pp)[j]).1 <= e.push(visit_entry(q, qh)).len(),
{
    lemma_back_visit_common(nodes, edges, start, mx, q, qh, e, vs, cur, rr, mr);
    reveal(back_inv);
    let id = q[qh].0;
    let d = q[qh].1;
    let e1 = e.push(visit_entry(q, qh));
    let vs1 = vs.insert(id);
    let q1 = q + pp;
    assert forall|j: int| 0 <= j < q1.len() implies #[trigger] q1[j] == (if j < q.len() { q[j] } else { pp[j - q.len()] }) by {}
    assert(e1[e.len() as int] == visit_entry(q, qh));
    assert forall|j: int| 0 < j < q1.len() implies (#[trigger] q1[j]).1 >= 1 by {
        if j < q.len() { assert(q1[j] == q[j]); } else { assert(q1[j] == pp[j - q.len()]); }
    }
    assert forall|j: int| 0 <= j < q1.len() implies candidates(start, edges).contains((#[trigger] q1[j]).0) by {
        if j < q.len() { assert(q1[j] == q[j]); } else { assert(q1[j] == pp[j - q.len()]); }
    }
    assert forall|a: int, b: int| qh + 1 <= a <= b < q1.len() implies (#[trigger] q1[a]).1 <= (#[trigger] q1[b]).1 by {
        if b < q.len() {
            assert(q1[a] == q[a] && q1[b] == q[b]);
        } else if a < q.len() {
            assert(q1[a] == q[a]);
            assert(q1[b] == pp[b - q.len()]);
        } else {
            assert(q1[a] == pp[a - q.len()]);
            assert(q1[b] == pp[b - q.len()]);
        }
    }
    assert forall|j: int| qh + 1 <= j < q1.len() implies d <= (#[trigger] q1[j]).1 <= d + 1 by {
        if j < q.len() { assert(q1[j] == q[j]); } else { assert(q1[j] == pp[j - q.len()]); }
    }
    assert forall|j: int| qh + 1 <= j < q1.len() implies (#[trigger] q1[j]).1 <= e1.len() by {
        if j < q.len() { assert(q1[j] == q[j]); } else { assert(q1[j] == pp[j - q.len()]); }
    }
    assert(q1[0] == q[0]);
}

#[verifier::rlimit(100)]
proof fn lemma_expand_preds(
    nodes: Seq<NodeView>, edges: Seq<EdgeView>, start: Seq<char>, mx: nat, q: Seq<(Seq<char>, nat)>, qh: int,
    e: Seq<ChainEntryView>, vs: Set<Seq<char>>, cur: nat, rr: bool, mr: bool, pp: Seq<(Seq<char>, nat)>,
)
    requires
        back_inv(nodes, edges, start, mx, q, qh, e, vs, cur, rr, mr),
        qh < q.len(),
        q[qh].1 <= mx,
        !vs.contains(q[qh].0),
        exists_node(nodes, q[qh].0),
        !is_cause(nodes, q[qh].0),
        forall|j: int| 0 <= j < pp.len() ==> #[trigger] pp[j].1 == q[qh].1 + 1
            && back_successor(edges, q[qh].0, pp[j].0) && candidates(start, edges).contains(pp[j].0),
        forall|t: Seq<char>| #[trigger] back_successor(edges, q[qh].0, t) ==> pp.contains((t, q[qh].1 + 1)),
        has_back_edge(edges, q[qh].0) ==> pp.len() > 0,
    ensures
        forall|j: int| 0 < j < (q + pp).len() ==> exists|k: int| 0 <= k < e.push(visit_entry(q, qh)).len() && (#[trigger] e.push(visit_entry(q, qh))[k]).depth + 1 == (#[trigger] (q + pp)[j]).1
            && !is_cause(nodes, e.push(visit_entry(q, qh))[k].node_id) && back_successor(edges, e.push(visit_entry(q, qh))[k].node_id, (q + pp)[j].0),
{
    lemma_back_visit_common(nodes, edges, start, mx, q, qh, e, vs, cur, rr, mr);
    reveal(back_inv);
    let id = q[qh].0;
    let d = q[qh].1;
    let e1 = e.push(visit_entry(q, qh));
    let vs1 = vs.insert(id);
    let q1 = q + pp;
    assert forall|j: int| 0 <= j < q1.len() implies #[trigger] q1[j] == (if j < q.len() { q[j] } else { pp[j - q.len()] }) by {}
    assert(e1[e.len() as int] == visit_entry(q, qh));
    assert forall|j: int| 0 < j < q1.len() implies exists|k: int| 0 <= k < e1.len()
        && (#[trigger] e1[k]).depth + 1 == (#[trigger] q1[j]).1
        && !is_cause(nodes, e1[k].node_id) && back_successor(edges, e1[k].node_id, q1[j].0) by {
        if j < q.len() {
            assert(q1[j] == q[j]);
        } else {
            assert(q1[j] == pp[j - q.len()]);
            assert(e1[e.len() as int].depth + 1 == q1[j].1);
        }
    }
    assert(q1[0] == q[0]);
}

#[verifier::rlimit(100)]
proof fn lemma_expand_entries(
    nodes: Seq<NodeView>, edges: Seq<EdgeView>, start: Seq<char>, mx: nat, q: Seq<(Seq<char>, nat)>, qh: int,
    e: Seq<ChainEntryView>, vs: Set<Seq<char>>, cur: nat, rr: bool, mr: bool, pp: Seq<(Seq<char>, nat)>,
)
    requires
        back_inv(nodes, edges, start, mx, q, qh, e, vs, cur, rr, mr),
        qh < q.len(),
        q[qh].1 <= mx,
        !vs.contains(q[qh].0),
        exists_node(nodes, q[qh].0),
        !is_cause(nodes, q[qh].0),
        forall|j: int| 0 <= j < pp.len() ==> #[trigger] pp[j].1 == q[qh].1 + 1
            && back_successor(edges, q[qh].0, pp[j].0) && candidates(start, edges).contains(pp[j].0),
        forall|t: Seq<char>| #[trigger] back_successor(edges, q[qh].0, t) ==> pp.contains((t, q[qh].1 + 1)),
        has_back_edge(edges, q[qh].0) ==> pp.len() > 0,
    ensures
        forall|v: Seq<char>| vs.insert(q[qh].0).contains(v) ==> candidates(start, edges).contains(v),
        forall|k: int| 0 <= k < e.push(visit_entry(q, qh)).len() ==> {
            &&& (#[trigger] e.push(visit_entry(q, qh))[k]).depth <= k
            &&& e.push(visit_entry(q, qh))[k].depth <= mx
            &&& vs.insert(q[qh].0).contains(e.push(visit_entry(q, qh))[k].node_id)
            &&& exists_node(nodes, e.push(visit_entry(q, qh))[k].node_id)
            &&& e.push(visit_entry(q, qh))[k].edge is None
            &&& e.push(visit_entry(q, qh))[k].relation is None
            &&& exists|j: int| 0 <= j < (qh + 1) && #[trigger] (q + pp)[j] == (e.push(visit_entry(q, qh))[k].node_id, e.push(visit_entry(q, qh))[k].depth)
},
        forall|k1: int, k2: int| 0 <= k1 < e.push(visit_entry(q, qh)).len() && 0 <= k2 < e.push(visit_entry(q, qh)).len() && k1 != k2 ==>
            (#[trigger] e.push(visit_entry(q, qh))[k1]).node_id != (#[trigger] e.push(visit_entry(q, qh))[k2]).node_id,
        forall|v: Seq<char>| vs.insert(q[qh].0).contains(v) && exists_node(nodes, v) ==> exists|k: int| 0 <= k < e.push(visit_entry(q, qh)).len() && (#[trigger] e.push(visit_entry(q, qh))[k]).node_id == v,
        rr == exists|k: int| 0 <= k < e.push(visit_entry(q, qh)).len() && is_cause(nodes, (#[trigger] e.push(visit_entry(q, qh))[k]).node_id),
        !exists_node(nodes, start) ==> e.push(visit_entry(q, qh)).len() == 0 && (q + pp).len() == 1,
        ((qh + 1) > 0 && exists_node(nodes, start)) ==> e.push(visit_entry(q, qh)).len() > 0 && e.push(visit_entry(q, qh))[0].node_id == start && e.push(visit_entry(q, qh))[0].depth == 0,
        (qh + 1) == 0 ==> e.push(visit_entry(q, qh)).len() == 0 && vs.insert(q[qh].0) == Set::<Seq<char>>::empty() && (q + pp).len() == 1,
{
    lemma_back_visit_common(nodes, edges, start, mx, q, qh, e, vs, cur, rr, mr);
    reveal(back_inv);
    let id = q[qh].0;
    let d = q[qh].1;
    let e1 = e.push(visit_entry(q, qh));
    let vs1 = vs.insert(id);
    let q1 = q + pp;
    assert forall|j: int| 0 <= j < q1.len() implies #[trigger] q1[j] == (if j < q.len() { q[j] } else { pp[j - q.len()] }) by {}
    assert(e1[e.len() as int] == visit_entry(q, qh));
    assert forall|k: int| 0 <= k < e1.len() implies exists|j: int| 0 <= j < qh + 1
        && #[trigger] q1[j] == ((#[trigger] e1[k]).node_id, e1[k].depth) by {
        let j = choose|j: int| 0 <= j < qh + 1 && #[trigger] q[j] == (e1[k].node_id, e1[k].depth);
        assert(q1[j] == q[j]);
    }
    if !exists_node(nodes, start) {
        assert(q.len() == 1);
        assert(q[qh] == q[0]);
    }
    if is_cause(nodes, id) {
        assert(false);
    }
    assert((rr || is_cause(nodes, id)) == exists|k: int| 0 <= k < e1.len() && is_cause(nodes, (#[trigger] e1[k]).node_id));

}

#[verifier::rlimit(100)]
proof fn lemma_expand_links(
    nodes: Seq<NodeView>, edges: Seq<EdgeView>, start: Seq<char>, mx: nat, q: Seq<(Seq<char>, nat)>, qh: int,
    e: Seq<ChainEntryView>, vs: Set<Seq<char>>, cur: nat, rr: bool, mr: bool, pp: Seq<(Seq<char>, nat)>,
)
    requires
        back_inv(nodes, edges, start, mx, q, qh, e, vs, cur, rr, mr),
        qh < q.len(),
        q[qh].1 <= mx,
        !vs.contains(q[qh].0),
        exists_node(nodes, q[qh].0),
        !is_cause(nodes, q[qh].0),
        forall|j: int| 0 <= j < pp.len() ==> #[trigger] pp[j].1 == q[qh].1 + 1
            && back_successor(edges, q[qh].0, pp[j].0) && candidates(start, edges).contains(pp[j].0),
        forall|t: Seq<char>| #[trigger] back_successor(edges, q[qh].0, t) ==> pp.contains((t, q[qh].1 + 1)),
        has_back_edge(edges, q[qh].0) ==> pp.len() > 0,
    ensures
        forall|k: int, t: Seq<char>| 0 <= k < e.push(visit_entry(q, qh)).len() && !is_cause(nodes, (#[trigger] e.push(visit_entry(q, qh))[k]).node_id) && e.push(visit_entry(q, qh))[k].depth < mx
            && #[trigger] back_successor(edges, e.push(visit_entry(q, qh))[k].node_id, t) ==> vs.insert(q[qh].0).contains(t)
            || exists|j: int| (qh + 1) <= j < (q + pp).len() && (#[trigger] (q + pp)[j]).0 == t && (q + pp)[j].1 <= mx,
{
    lemma_back_visit_common(nodes, edges, start, mx, q, qh, e, vs, cur, rr, mr);
    reveal(back_inv);
    let id = q[qh].0;
    let d = q[qh].1;
    let e1 = e.push(visit_entry(q, qh));
    let vs1 = vs.insert(id);
    let q1 = q + pp;
    assert forall|j: int| 0 <= j < q1.len() implies #[trigger] q1[j] == (if j < q.len() { q[j] } else { pp[j - q.len()] }) by {}
    assert(e1[e.len() as int] == visit_entry(q, qh));
    assert forall|k: int, t: Seq<char>| 0 <= k < e1.len() && !is_cause(nodes, (#[trigger] e1[k]).node_id)
        && e1[k].depth < mx && #[trigger] back_successor(edges, e1[k].node_id, t) implies vs1.contains(t)
        || exists|j: int| qh + 1 <= j < q1.len() && (#[trigger] q1[j]).0 == t && q1[j].1 <= mx by {
        if k < e.len() {
            if !vs1.contains(t) {
                let j = choose|j: int| qh + 1 <= j < q.len() && (#[trigger] q[j]).0 == t && q[j].1 <= mx;
                assert(q1[j] == q[j]);
            }
        } else {
            assert(pp.contains((t, d + 1)));
            let i = choose|i: int| 0 <= i < pp.len() && pp[i] == (t, d + 1);
            assert(q1[q.len() + i] == pp[i]);
        }
    }
    assert(q1[0] == q[0]);
}

#[verifier::rlimit(100)]
proof fn lemma_expand_limits(
    nodes: Seq<NodeView>, edges: Seq<EdgeView>, start: Seq<char>, mx: nat, q: Seq<(Seq<char>, nat)>, qh: int,
    e: Seq<ChainEntryView>, vs: Set<Seq<char>>, cur: nat, rr: bool, mr: bool, pp: Seq<(Seq<char>, nat)>,
)
    requires
        back_inv(nodes, edges, start, mx, q, qh, e, vs, cur, rr, mr),
        qh < q.len(),
        q[qh].1 <= mx,
        !vs.contains(q[qh].0),
        exists_node(nodes, q[qh].0),
        !is_cause(nodes, q[qh].0),
        forall|j: int| 0 <= j < pp.len() ==> #[trigger] pp[j].1 == q[qh].1 + 1
            && back_successor(edges, q[qh].0, pp[j].0) && candidates(start, edges).contains(pp[j].0),
        forall|t: Seq<char>| #[trigger] back_successor(edges, q[qh].0, t) ==> pp.contains((t, q[qh].1 + 1)),
        has_back_edge(edges, q[qh].0) ==> pp.len() > 0,
    ensures
        mr == exists|j: int| 0 <= j < (qh + 1) && (#[trigger] (q + pp)[j]).1 > mx,
        forall|k: int| 0 <= k < e.push(visit_entry(q, qh)).len() && !is_cause(nodes, (#[trigger] e.push(visit_entry(q, qh))[k]).node_id)
            && has_back_edge(edges, e.push(visit_entry(q, qh))[k].node_id) && e.push(visit_entry(q, qh))[k].depth == mx ==> exists|j: int| 0 <= j < (q + pp).len() && (#[trigger] (q + pp)[j]).1 > mx,
{
    lemma_back_visit_common(nodes, edges, start, mx, q, qh, e, vs, cur, rr, mr);
    reveal(back_inv);
    let id = q[qh].0;
    let d = q[qh].1;
    let e1 = e.push(visit_entry(q, qh));
    let vs1 = vs.insert(id);
    let q1 = q + pp;
    assert forall|j: int| 0 <= j < q1.len() implies #[trigger] q1[j] == (if j < q.len() { q[j] } else { pp[j - q.len()] }) by {}
    assert(e1[e.len() as int] == visit_entry(q, qh));
    assert(mr == exists|j: int| 0 <= j < qh + 1 && (#[trigger] q1[j]).1 > mx) by {
        if exists|j: int| 0 <= j < qh + 1 && (#[trigger] q1[j]).1 > mx {
            let j = choose|j: int| 0 <= j < qh + 1 && (#[trigger] q1[j]).1 > mx;
            assert(q1[j] == q[j]);
        }
        if exists|j: int| 0 <= j < qh + 1 && (#[trigger] q[j]).1 > mx {
            let j = choose|j: int| 0 <= j < qh + 1 && (#[trigger] q[j]).1 > mx;
            assert(q1[j] == q[j]);
        }
    }
    assert forall|k: int| 0 <= k < e1.len() && !is_cause(nodes, (#[trigger] e1[k]).node_id)
        && has_back_edge(edges, e1[k].node_id) && e1[k].depth == mx implies
        exists|j: int| 0 <= j < q1.len() && (#[trigger] q1[j]).1 > mx by {
        if k < e.len() {
            let j = choose|j: int| 0 <= j < q.len() && (#[trigger] q[j]).1 > mx;
            assert(q1[j] == q[j]);
        } else {
            assert(q1[q.len() as int] == pp[0]);
        }
    }
    assert(q1[0] == q[0]);
}

#[verifier::rlimit(100)]
proof fn lemma_back_visit_expand(
    nodes: Seq<NodeView>, edges: Seq<EdgeView>, start: Seq<char>, mx: nat, q: Seq<(Seq<char>, nat)>, qh: int,
    e: Seq<ChainEntryView>, vs: Set<Seq<char>>, cur: nat, rr: bool, mr: bool, pp: Seq<(Seq<char>, nat)>,
)
    requires
        back_inv(nodes, edges, start, mx, q, qh, e, vs, cur, rr, mr),
        qh < q.len(),
        q[qh].1 <= mx,
        !vs.contains(q[qh].0),
        exists_node(nodes, q[qh].0),
        !is_cause(nodes, q[qh].0),
        forall|j: int| 0 <= j < pp.len() ==> #[trigger] pp[j].1 == q[qh].1 + 1
            && back_successor(edges, q[qh].0, pp[j].0) && candidates(start, edges).contains(pp[j].0),
        forall|t: Seq<char>| #[trigger] back_successor(edges, q[qh].0, t) ==> pp.contains((t, q[qh].1 + 1)),
        has_back_edge(edges, q[qh].0) ==> pp.len() > 0,
    ensures
        back_inv(nodes, edges, start, mx, q + pp, qh + 1, e.push(visit_entry(q, qh)), vs.insert(q[qh].0), q[qh].1, rr, mr),
{
    lemma_expand_queue_shape(nodes, edges, start, mx, q, qh, e, vs, cur, rr, mr, pp);
    lemma_expand_preds(nodes, edges, start, mx, q, qh, e, vs, cur, rr, mr, pp);
    lemma_expand_entries(nodes, edges, start, mx, q, qh, e, vs, cur, rr, mr, pp);
    lemma_expand_links(nodes, edges, start, mx, q, qh, e, vs, cur, rr, mr, pp);
    lemma_expand_limits(nodes, edges, start, mx, q, qh, e, vs, cur, rr, mr, pp);
    lemma_back_inv_intro(nodes, edges, start, mx, q + pp, qh + 1, e.push(visit_entry(q, qh)), vs.insert(q[qh].0),
        q[qh].1, rr, mr);
}

proof fn lemma_back_final(
    nodes: Seq<NodeView>, edges: Seq<EdgeView>, start: Seq<char>, mx: nat, q: Seq<(Seq<char>, nat)>,
    e: Seq<ChainEntryView>, vs: Set<Seq<char>>, cur: nat, rr: bool, mr: bool,
)
    requires
        back_inv(nodes, edges, start, mx, q, q.len() as int, e, vs, cur, rr, mr),
    ensures
        back_chain_shape(nodes, edges, start, mx, e, rr, mr),
{
    reveal(back_inv);
    let qh = q.len() as int;
    assert forall|k: int| 0 <= k < e.len() && (#[trigger] e[k]).depth == 0 implies e[k].node_id == start by {
        let j = choose|j: int| 0 <= j < qh && #[trigger] q[j] == (e[k].node_id, e[k].depth);
        if j > 0 {
            assert(q[j].1 >= 1);
        }
    }
    assert forall|k: int| 0 <= k < e.len() && (#[trigger] e[k]).depth > 0 implies exists|k2: int|
        0 <= k2 < e.len() && (#[trigger] e[k2]).depth + 1 == e[k].depth && !is_cause(nodes, e[k2].node_id)
        && back_successor(edges, e[k2].node_id, e[k].node_id) by {
        let j = choose|j: int| 0 <= j < qh && #[trigger] q[j] == (e[k].node_id, e[k].depth);
        assert(j > 0);
    }
    assert(mr == exists|k: int| 0 <= k < e.len() && (#[trigger] e[k]).depth == mx
        && !is_cause(nodes, e[k].node_id) && has_back_edge(edges, e[k].node_id)) by {
        if mr {
            let j = choose|j: int| 0 <= j < qh && (#[trigger] q[j]).1 > mx;
            assert(j > 0);
            let k = choose|k: int| 0 <= k < e.len() && (#[trigger] e[k]).depth + 1 == (#[trigger] q[j]).1
                && !is_cause(nodes, e[k].node_id) && back_successor(edges, e[k].node_id, q[j].0);
            let m = choose|m: int| 0 <= m < edges.len() && back_step(#[trigger] edges[m], e[k].node_id, q[j].0);
            assert(back_step(edges[m], e[k].node_id, far_back(edges[m], e[k].node_id)));
        }
        if exists|k: int| 0 <= k < e.len() && (#[trigger] e[k]).depth == mx
            && !is_cause(nodes, e[k].node_id) && has_back_edge(edges, e[k].node_id) {
            let k = choose|k: int| 0 <= k < e.len() && (#[trigger] e[k]).depth == mx
                && !is_cause(nodes, e[k].node_id) && has_back_edge(edges, e[k].node_id);
            let j = choose|j: int| 0 <= j < q.len() && (#[trigger] q[j]).1 > mx;
        }
    }
}

/// The contract of the backward traversal, over the store's views: the shape of its
/// result (see `back_chain_shape`), each entry at its shortest backward distance from
/// the start (see `shortest_back_depths`).
pub open spec fn backward_chain(
    nodes: Seq<NodeView>,
    edges: Seq<EdgeView>,
    start: Seq<char>,
    max_depth: nat,
    e: Seq<ChainEntryView>,
    reached_root: bool,
    max_depth_reached: bool,
) -> bool {
    &&& back_chain_shape(nodes, edges, start, max_depth, e, reached_root, max_depth_reached)
    &&& shortest_back_depths(nodes, edges, start, e)
}

/// The shape of a backward traversal's result, over the store's views.
pub open spec fn back_chain_shape(
    nodes: Seq<NodeView>,
    edges: Seq<EdgeView>,
    start: Seq<char>,
    max_depth: nat,
    e: Seq<ChainEntryView>,
    reached_root: bool,
    max_depth_reached: bool,
) -> bool {
    // every entry is a distinct stored node, at most `max_depth` hops away, without edge
    &&& forall|k: int| 0 <= k < e.len() ==> {
        &&& exists_node(nodes, (#[trigger] e[k]).node_id)
        &&& e[k].depth <= max_depth
        &&& e[k].edge is None
        &&& e[k].relation is None
    }
    &&& forall|k1: int, k2: int| 0 <= k1 < e.len() && 0 <= k2 < e.len() && k1 != k2 ==>
        (#[trigger] e[k1]).node_id != (#[trigger] e[k2]).node_id
    // the start comes first, at depth 0, when it is stored; nothing is found otherwise
    &&& exists_node(nodes, start) ==> e.len() > 0 && e[0].node_id == start && e[0].depth == 0
    &&& !exists_node(nodes, start) ==> e.len() == 0
    // depth 0 is the start; every deeper entry is reached backwards from a non-cause
    // entry one level up
    &&& forall|k: int| 0 <= k < e.len() && (#[trigger] e[k]).depth == 0 ==> e[k].node_id == start
    &&& forall|k: int| 0 <= k < e.len() && (#[trigger] e[k]).depth > 0 ==> exists|k2: int|
        0 <= k2 < e.len() && (#[trigger] e[k2]).depth + 1 == e[k].depth && !is_cause(nodes, e[k2].node_id)
        && back_successor(edges, e[k2].node_id, e[k].node_id)
    // a non-cause entry short of `max_depth` has every stored backward neighbour listed
    &&& forall|k: int, t: Seq<char>| 0 <= k < e.len() && !is_cause(nodes, (#[trigger] e[k]).node_id) && e[k].depth < max_depth
        && #[trigger] back_successor(edges, e[k].node_id, t) && exists_node(nodes, t)
        ==> exists|k2: int| 0 <= k2 < e.len() && (#[trigger] e[k2]).node_id == t
    // a root cause was reached exactly when a cause node is listed
    &&& reached_root == exists|k: int| 0 <= k < e.len() && is_cause(nodes, (#[trigger] e[k]).node_id)
    // the depth limit was hit exactly when a non-cause entry at `max_depth` had a
    // backward edge to follow
    &&& max_depth_reached == exists|k: int| 0 <= k < e.len() && (#[trigger] e[k]).depth == max_depth
        && !is_cause(nodes, e[k].node_id) && has_back_edge(edges, e[k].node_id)
}

/// ChainActor: causal-chain traversal over an L2 store.
pub struct ChainActor {
    pub(crate) visited: Vec<NodeId>,
}

impl ChainActor {
    /// Backward traversal from a given node towards its root cause, breadth first:
    /// from each non-cause node it follows outgoing `ExplainedBy` edges and incoming
    /// `LeadsTo` edges; a cause node ends its branch.
    pub fn chain_backward_from_node(&self, l2: &L2Actor, start: &NodeId, max_depth: usize) -> (r: ChainResult)
        requires
            l2.wf(),
        ensures
            backward_chain(l2.node_views(), l2.edge_views(), start@, max_depth as nat,
                entries_view(r.entries@), r.reached_root, r.max_depth_reached),
    {
        let ghost nodes = l2.node_views();
        let ghost edges = l2.edge_views();
        let ghost cand = candidates(start@, edges);
        let ghost mx = max_depth as nat;
        let mut entries: Vec<ChainEntry> = Vec::new();
        let mut visited: Vec<NodeId> = Vec::new();
        let mut queue: Vec<QueueItem> = Vec::new();
        queue.push(QueueItem { id: start.clone(), depth: 0 });
        let mut qh: usize = 0;
        let mut reached_root = false;
        let mut max_reached = false;
        let ghost mut cur: nat = 0;
        proof {
            assert(id_set(visited@) =~= Set::<Seq<char>>::empty());
            if edges.len() > 0 {
                lemma_candidates(start@, edges, 0);
            } else {
                let s = seq![start@] + edges.map_values(|e: EdgeView| e.source) + edges.map_values(|e: EdgeView| e.target);
                assert(s[0] == start@);
            }
            assert(queue_view(queue@)[0] == (start@, 0nat));
            reveal(back_inv);
            lemma_bfs_init(nodes, edges, mx, start@);
            assert(queue_view(queue@) =~= seq![(start@, 0nat)]);
            assert(entries_view(entries@) =~= Seq::<ChainEntryView>::empty());
        }
        while qh < queue.len()
            invariant
                l2.wf(),
                nodes == l2.node_views(),
                edges == l2.edge_views(),
                cand == candidates(start@, edges),
                mx == max_depth as nat,
                back_inv(nodes, edges, start@, mx, queue_view(queue@), qh as int, entries_view(entries@),
                    id_set(visited@), cur, reached_root, max_reached),
                back_bfs(nodes, edges, mx, queue_view(queue@), qh as int, entries_view(entries@), id_set(visited@)),
            decreases cand.difference(id_set(visited@)).len(), queue.len() - qh,
        {
            let ghost q0 = queue_view(queue@);
            let ghost e0 = entries_view(entries@);
            let ghost vs0 = id_set(visited@);
            let ghost qh0 = qh as int;
            let ghost cur0 = cur;
            let ghost rr0 = reached_root;
            let ghost mr0 = max_reached;
            let item_id = queue[qh].id.clone();
            let d = queue[qh].depth;
            assert(q0[qh0] == (item_id@, d as nat));
            qh += 1;
            proof {
                cur = d as nat;
            }
            if d > max_depth {
                max_reached = true;
                proof {
                    lemma_back_skip(nodes, edges, start@, mx, q0, qh0, e0, vs0, cur0, rr0, mr0);
                    lemma_bfs_skip(nodes, edges, mx, q0, qh0, e0, vs0);
                }
                continue;
            }
            if ids_contain(&visited, &item_id) {
                proof {
                    lemma_back_skip(nodes, edges, start@, mx, q0, qh0, e0, vs0, cur0, rr0, mr0);
                    lemma_bfs_skip(nodes, edges, mx, q0, qh0, e0, vs0);
                }
                continue;
            }
            proof {
                lemma_back_head(nodes, edges, start@, mx, q0, qh0, e0, vs0, cur0, rr0, mr0);
                lemma_id_set_push(visited@, item_id);
                assert(cand.contains(item_id@));
                cand.lemma_set_insert_diff_decreases(vs0, item_id@);
            }
            visited.push(item_id.clone());
            match l2.get_node(&item_id) {
                None => {
                    proof {
                        lemma_back_visit_missing(nodes, edges, start@, mx, q0, qh0, e0, vs0, cur0, rr0, mr0);
                        lemma_bfs_visit(nodes, edges, mx, q0, qh0, e0, vs0, false);
                    }
                },
                Some(node) => {
                    assert(d < entries.len() + 1);
                    entries.push(ChainEntry { node_id: item_id.clone(), depth: d, edge: None, relation: None });
                    assert(entries_view(entries@) =~= e0.push(visit_entry(q0, qh0)));
                    assert(is_cause(nodes, item_id@) == (node@.node_type == NodeType::Cause));
                    if node.node_type == NodeType::Cause {
                        reached_root = true;
                        proof {
                            lemma_back_visit_cause(nodes, edges, start@, mx, q0, qh0, e0, vs0, cur0, rr0, mr0);
                            lemma_bfs_visit(nodes, edges, mx, q0, qh0, e0, vs0, true);
                        }
                        continue;
                    }
                    assert(d < entries.len());
                    let outs = l2.edges_from(&item_id);
                    push_items(&mut queue, &outs, Relation::ExplainedBy, true, d + 1);
                    let ins = l2.edges_to(&item_id);
                    push_items(&mut queue, &ins, Relation::LeadsTo, false, d + 1);
                    proof {
                        let pp = pushed_items(edges_view(outs@), Relation::ExplainedBy, true, (d + 1) as nat)
                            + pushed_items(edges_view(ins@), Relation::LeadsTo, false, (d + 1) as nat);
                        lemma_back_pushes(start@, edges, item_id@, (d + 1) as nat, edges_view(outs@), edges_view(ins@));
                        assert(queue_view(queue@) =~= q0 + pp);
                        lemma_back_visit_expand(nodes, edges, start@, mx, q0, qh0, e0, vs0, cur0, rr0, mr0, pp);
                        lemma_bfs_expand(nodes, edges, mx, q0, qh0, e0, vs0, pp);
                    }
                },
            }
        }
        proof {
            lemma_back_final(nodes, edges, start@, mx, queue_view(queue@), entries_view(entries@), id_set(visited@),
                cur, reached_root, max_reached);
            lemma_bfs_shortest(nodes, edges, start@, mx, queue_view(queue@), qh as int, entries_view(entries@),
                id_set(visited@), reached_root, max_reached);
        }
        ChainResult { entries, reached_root, max_depth_reached: max_reached }
    }
}

} // verus!
