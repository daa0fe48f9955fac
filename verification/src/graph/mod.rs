//! The memory graph: nodes, edges and an in-memory adjacency list with traversal.

pub mod node;
pub mod edge;

use vstd::prelude::*;
use node::{Node, NodeId, NodeView, nodes_view};
use edge::{Edge, EdgeId, EdgeView, edges_view};
use crate::keyed::{keys_unique, has_key, find_by_key, lemma_find_at, lemma_replace, lemma_append, lemma_filter_step, lemma_take_full};

verus! {

/// A link found by a traversal: the edge followed, the distance from the start
/// (1 for direct neighbours) and the node reached.
#[derive(Debug)]
pub struct ChainLink {
    pub edge: Edge,
    pub depth: usize,
    pub node: Node,
}

/// The mathematical content of a `ChainLink`.
pub struct ChainLinkView {
    pub edge: EdgeView,
    pub depth: nat,
    pub node: NodeView,
}

impl View for ChainLink {
    type V = ChainLinkView;

    open spec fn view(&self) -> ChainLinkView {
        ChainLinkView { edge: self.edge@, depth: self.depth as nat, node: self.node@ }
    }
}

/// The views of a list of chain links.
pub open spec fn links_view(v: Seq<ChainLink>) -> Seq<ChainLinkView> {
    v.map_values(|l: ChainLink| l@)
}

/// Direction of a traversal.
#[derive(Debug, Clone, Copy, PartialEq, Eq, Structural)]
pub enum Direction {
    /// Follow edges backwards, from target to source.
    Incoming,
    /// Follow edges forwards, from source to target.
    Outgoing,
}

/// The edges that touch `id` on the side given by `dir`: those with target `id` for
/// `Incoming`, with source `id` for `Outgoing`, in insertion order.
pub open spec fn dir_edges(edges: Seq<EdgeView>, id: Seq<char>, dir: Direction) -> Seq<EdgeView> {
    edges.filter(touches_pred(id, dir))
}

/// The test of `dir_edges`: the edge has `id` at its near end.
pub open spec fn touches_pred(id: Seq<char>, dir: Direction) -> spec_fn(EdgeView) -> bool {
    |e: EdgeView| if dir == Direction::Incoming { e.target == id } else { e.source == id }
}

/// The far end of `e` when it is followed in direction `dir`.
pub open spec fn far_end(e: EdgeView, dir: Direction) -> Seq<char> {
    if dir == Direction::Incoming { e.source } else { e.target }
}

/// The key of a node: its id.
pub open spec fn node_key() -> spec_fn(NodeView) -> Seq<char> {
    |n: NodeView| n.id
}

/// The node of `nodes` with id `id`.
pub open spec fn find_node(nodes: Seq<NodeView>, id: Seq<char>) -> Option<NodeView> {
    find_by_key(nodes, node_key(), id)
}

/// Depth-first traversal from `id`: nothing when no hops remain or `id` was already
/// visited; otherwise `id` is marked visited and its edges in direction `dir` are followed
/// in order. Returns the links found and the visited set afterwards.
pub open spec fn traverse(
    nodes: Seq<NodeView>,
    edges: Seq<EdgeView>,
    id: Seq<char>,
    dir: Direction,
    remaining: nat,
    depth: nat,
    visited: Set<Seq<char>>,
) -> (Seq<ChainLinkView>, Set<Seq<char>>)
    decreases remaining, 1nat, 0nat,
{
    if remaining == 0 || visited.contains(id) {
        (Seq::empty(), visited)
    } else {
        traverse_edges(nodes, edges, dir_edges(edges, id, dir), 0, dir, remaining, depth, visited.insert(id))
    }
}

/// Follows the edges `es[k..]` in turn: each edge whose far end is a node of the graph
/// yields a link at `depth`, followed (when more than one hop remains) by the traversal
/// from that node one level deeper.
pub open spec fn traverse_edges(
    nodes: Seq<NodeView>,
    edges: Seq<EdgeView>,
    es: Seq<EdgeView>,
    k: nat,
    dir: Direction,
    remaining: nat,
    depth: nat,
    visited: Set<Seq<char>>,
) -> (Seq<ChainLinkView>, Set<Seq<char>>)
    decreases remaining, 0nat, es.len() - k,
{
    if k >= es.len() {
        (Seq::empty(), visited)
    } else {
        let e = es[k as int];
        let next = far_end(e, dir);
        match find_node(nodes, next) {
            None => traverse_edges(nodes, edges, es, k + 1, dir, remaining, depth, visited),
            Some(n) => {
                let link = ChainLinkView { edge: e, depth, node: n };
                let sub = if remaining > 1 {
                    traverse(nodes, edges, next, dir, (remaining - 1) as nat, depth + 1, visited)
                } else {
                    (Seq::empty(), visited)
                };
                let rest = traverse_edges(nodes, edges, es, k + 1, dir, remaining, depth, sub.1);
                (seq![link] + sub.0 + rest.0, rest.1)
            },
        }
    }
}

/// The set of texts of a list of ids.
pub open spec fn id_set(v: Seq<NodeId>) -> Set<Seq<char>> {
    Set::new(|s: Seq<char>| exists|i: int| 0 <= i < v.len() && v[i]@ == s)
}

/// The view of an optional node reference.
pub open spec fn opt_node_view(o: Option<&Node>) -> Option<NodeView> {
    match o {
        Some(n) => Some(n@),
        None => None,
    }
}

/// Whether `id` is among `ids`.
pub fn ids_contain(ids: &Vec<NodeId>, id: &NodeId) -> (b: bool)
    ensures
        b == id_set(ids@).contains(id@),
{
    let mut i: usize = 0;
    while i < ids.len()
        invariant
            i <= ids.len(),
            forall|k: int| 0 <= k < i ==> ids@[k]@ != id@,
        decreases ids.len() - i,
    {
        if ids[i].same(id) {
            return true;
        }
        i += 1;
    }
    false
}

/// Adding an id to a list adds its text to the set.
pub proof fn lemma_id_set_push(v: Seq<NodeId>, x: NodeId)
    ensures
        id_set(v.push(x)) == id_set(v).insert(x@),
{
    let a = id_set(v.push(x));
    let b = id_set(v).insert(x@);
    assert forall|s: Seq<char>| a.contains(s) == b.contains(s) by {
        if a.contains(s) {
            let i = choose|i: int| 0 <= i < v.push(x).len() && v.push(x)[i]@ == s;
            if i < v.len() {
                assert(v[i]@ == s);
            }
        }
        if b.contains(s) {
            if s == x@ {
                assert(v.push(x)[v.len() as int]@ == s);
            } else {
                let i = choose|i: int| 0 <= i < v.len() && v[i]@ == s;
                assert(v.push(x)[i]@ == s);
            }
        }
    }
    assert(a =~= b);
}

/// In-memory graph with an adjacency list.
#[derive(Debug)]
pub struct Graph {
    nodes: Vec<Node>,
    edges: Vec<Edge>,
}

impl Graph {
    /// The nodes, one per id, in order of first insertion.
    pub closed spec fn node_views(&self) -> Seq<NodeView> {
        nodes_view(self.nodes@)
    }

    /// All edges, in insertion order.
    pub closed spec fn edge_views(&self) -> Seq<EdgeView> {
        edges_view(self.edges@)
    }

    /// No two nodes share an id.
    pub open spec fn wf(&self) -> bool {
        keys_unique(self.node_views(), node_key())
    }

    /// An empty graph.
    pub fn new() -> (g: Self)
        ensures
            g.wf(),
            g.node_views() == Seq::<NodeView>::empty(),
            g.edge_views() == Seq::<EdgeView>::empty(),
    {
        let g = Graph { nodes: Vec::new(), edges: Vec::new() };
        assert(g.node_views() =~= Seq::<NodeView>::empty());
        assert(g.edge_views() =~= Seq::<EdgeView>::empty());
        g
    }

    /// The position of the node with id `id`, if any.
    fn position(&self, id: &NodeId) -> (r: Option<usize>)
        requires
            self.wf(),
        ensures
            match r {
                Some(i) => i < self.node_views().len() && self.node_views()[i as int].id == id@,
                None => forall|i: int| 0 <= i < self.node_views().len() ==> self.node_views()[i].id != id@,
            },
    {
        let mut i: usize = 0;
        while i < self.nodes.len()
            invariant
                i <= self.nodes.len(),
                forall|k: int| 0 <= k < i ==> self.node_views()[k].id != id@,
            decreases self.nodes.len() - i,
        {
            if self.nodes[i].id.same(id) {
                return Some(i);
            }
            i += 1;
        }
        None
    }

    /// Whether `e`, taken in direction `dir`, touches `id` on its near side.
    fn touches(e: &Edge, id: &NodeId, dir: Direction) -> (b: bool)
        ensures
            b == touches_pred(id@, dir)(e@),
    {
        match dir {
            Direction::Incoming => e.target.same(id),
            Direction::Outgoing => e.source.same(id),
        }
    }

    /// The edges that touch `id` on the side given by `dir`, in insertion order.
    fn edges_touching(&self, id: &NodeId, dir: Direction) -> (r: Vec<Edge>)
        ensures
            edges_view(r@) == dir_edges(self.edge_views(), id@, dir),
    {
        let ghost pred = touches_pred(id@, dir);
        let mut r: Vec<Edge> = Vec::new();
        let mut i: usize = 0;
        while i < self.edges.len()
            invariant
                i <= self.edges.len(),
                pred == touches_pred(id@, dir),
                edges_view(r@) == self.edge_views().take(i as int).filter(pred),
            decreases self.edges.len() - i,
        {
            proof {
                lemma_filter_step(self.edge_views(), pred, i as int);
            }
            assert(self.edge_views()[i as int] == self.edges@[i as int]@);
            let t = Self::touches(&self.edges[i], id, dir);
            assert(t == pred(self.edge_views()[i as int]));
            if t {
                let ghost before = r@;
                let e = self.edges[i].clone();
                r.push(e);
                assert(edges_view(r@) =~= edges_view(before).push(self.edge_views()[i as int]));
            }
            i += 1;
        }
        proof {
            lemma_take_full(self.edge_views());
        }
        r
    }

    /// The node with id `id`, if any.
    pub fn get_node(&self, id: &NodeId) -> (r: Option<&Node>)
        requires
            self.wf(),
        ensures
            opt_node_view(r) == find_node(self.node_views(), id@),
    {
        match self.position(id) {
            Some(i) => {
                proof {
                    lemma_find_at(self.node_views(), node_key(), i as int);
                }
                Some(&self.nodes[i])
            },
            None => None,
        }
    }

    /// All nodes.
    pub fn all_nodes(&self) -> (r: &Vec<Node>)
        ensures
            nodes_view(r@) == self.node_views(),
    {
        &self.nodes
    }

    /// The edges leaving `id`, in insertion order; `None` when there are none.
    pub fn out_edges(&self, id: &NodeId) -> (r: Option<Vec<Edge>>)
        ensures
            match r {
                Some(v) => edges_view(v@) == dir_edges(self.edge_views(), id@, Direction::Outgoing)
                    && v.len() > 0,
                None => dir_edges(self.edge_views(), id@, Direction::Outgoing).len() == 0,
            },
    {
        let v = self.edges_touching(id, Direction::Outgoing);
        if v.len() == 0 { None } else { Some(v) }
    }

    /// The edges arriving at `id`, in insertion order; `None` when there are none.
    pub fn in_edges(&self, id: &NodeId) -> (r: Option<Vec<Edge>>)
        ensures
            match r {
                Some(v) => edges_view(v@) == dir_edges(self.edge_views(), id@, Direction::Incoming)
                    && v.len() > 0,
                None => dir_edges(self.edge_views(), id@, Direction::Incoming).len() == 0,
            },
    {
        let v = self.edges_touching(id, Direction::Incoming);
        if v.len() == 0 { None } else { Some(v) }
    }

    /// Add an edge. Returns its id.
    pub fn add_edge(&mut self, edge: Edge) -> (id: EdgeId)
        ensures
            id@ == edge.id@,
            final(self).node_views() == old(self).node_views(),
            final(self).edge_views() == old(self).edge_views().push(edge@),
    {
        let id = edge.id.clone();
        let ghost ev = edge@;
        self.edges.push(edge);
        assert(self.edge_views() =~= old(self).edge_views().push(ev));
        id
    }

    /// Backward traversal, from a symptom towards its root causes: follows edges from
    /// target to source, at most `max_depth` hops.
    pub fn chain_backward(&self, start: &NodeId, max_depth: usize) -> (r: Vec<ChainLink>)
        requires
            self.wf(),
        ensures
            links_view(r@) == traverse(self.node_views(), self.edge_views(), start@, Direction::Incoming,
                max_depth as nat, 1, Set::empty()).0,
    {
        let mut chain: Vec<ChainLink> = Vec::new();
        let mut visited: Vec<NodeId> = Vec::new();
        assert(id_set(visited@) =~= Set::<Seq<char>>::empty());
        self.traverse_from(start, Direction::Incoming, max_depth, 1, &mut chain, &mut visited);
        assert(links_view(chain@) =~= traverse(self.node_views(), self.edge_views(), start@,
            Direction::Incoming, max_depth as nat, 1, Set::empty()).0);
        chain
    }

    /// Forward traversal, from a cause towards its possible effects: follows edges from
    /// source to target, at most `max_depth` hops.
    pub fn chain_forward_pre(&self, start: &NodeId, max_depth: usize) -> (r: Vec<ChainLink>)
        requires
            self.wf(),
        ensures
            links_view(r@) == traverse(self.node_views(), self.edge_views(), start@, Direction::Outgoing,
                max_depth as nat, 1, Set::empty()).0,
    {
        let mut chain: Vec<ChainLink> = Vec::new();
        let mut visited: Vec<NodeId> = Vec::new();
        assert(id_set(visited@) =~= Set::<Seq<char>>::empty());
        self.traverse_from(start, Direction::Outgoing, max_depth, 1, &mut chain, &mut visited);
        assert(links_view(chain@) =~= traverse(self.node_views(), self.edge_views(), start@,
            Direction::Outgoing, max_depth as nat, 1, Set::empty()).0);
        chain
    }

    /// The recursive step of the traversals: `remaining` hops are left, `current_depth`
    /// is the distance of the next links from the start.
    fn traverse_from(
        &self,
        node_id: &NodeId,
        dir: Direction,
        remaining: usize,
        current_depth: usize,
        chain: &mut Vec<ChainLink>,
        visited: &mut Vec<NodeId>,
    )
        requires
            self.wf(),
            current_depth + remaining <= usize::MAX + 1,
        ensures
            links_view(final(chain)@) == links_view(old(chain)@) + traverse(self.node_views(), self.edge_views(),
                node_id@, dir, remaining as nat, current_depth as nat, id_set(old(visited)@)).0,
            id_set(final(visited)@) == traverse(self.node_views(), self.edge_views(), node_id@, dir,
                remaining as nat, current_depth as nat, id_set(old(visited)@)).1,
        decreases remaining,
    {
        let ghost nodes = self.node_views();
        let ghost edges = self.edge_views();
        if remaining == 0 || ids_contain(visited, node_id) {
            assert(links_view(chain@) =~= links_view(old(chain)@) + Seq::<ChainLinkView>::empty());
            return;
        }
        let ghost vis0 = id_set(visited@);
        let nid = node_id.clone();
        proof {
            lemma_id_set_push(visited@, nid);
        }
        visited.push(nid);
        let ghost vis1 = id_set(visited@);
        assert(vis1 == vis0.insert(node_id@));
        let es = self.edges_touching(node_id, dir);
        let ghost esv = edges_view(es@);
        let ghost chain0 = links_view(chain@);
        let mut k: usize = 0;
        while k < es.len()
            invariant
                self.wf(),
                nodes == self.node_views(),
                edges == self.edge_views(),
                esv == edges_view(es@),
                esv == dir_edges(edges, node_id@, dir),
                k <= es.len(),
                0 < remaining,
                current_depth + remaining <= usize::MAX + 1,
                links_view(chain@) + traverse_edges(nodes, edges, esv, k as nat, dir, remaining as nat,
                    current_depth as nat, id_set(visited@)).0
                    == chain0 + traverse_edges(nodes, edges, esv, 0, dir, remaining as nat,
                    current_depth as nat, vis1).0,
                traverse_edges(nodes, edges, esv, k as nat, dir, remaining as nat, current_depth as nat,
                    id_set(visited@)).1 == traverse_edges(nodes, edges, esv, 0, dir, remaining as nat,
                    current_depth as nat, vis1).1,
            decreases es.len() - k,
        {
            let e = &es[k];
            let next = match dir {
                Direction::Incoming => &e.source,
                Direction::Outgoing => &e.target,
            };
            let ghost vk = id_set(visited@);
            let ghost before = links_view(chain@);
            match self.get_node(next) {
                None => {},
                Some(n) => {
                    let link = ChainLink { edge: e.clone(), depth: current_depth, node: n.clone() };
                    chain.push(link);
                    assert(links_view(chain@) =~= before.push(ChainLinkView {
                        edge: esv[k as int], depth: current_depth as nat, node: n@ }));
                    if remaining > 1 {
                        self.traverse_from(next, dir, remaining - 1, current_depth + 1, chain, visited);
                    }
                    assert(links_view(chain@) =~= before + seq![ChainLinkView {
                        edge: esv[k as int], depth: current_depth as nat, node: n@ }]
                        + (if remaining > 1 {
                            traverse(nodes, edges, far_end(esv[k as int], dir), dir, (remaining - 1) as nat,
                                current_depth as nat + 1, vk).0
                        } else {
                            Seq::<ChainLinkView>::empty()
                        }));
                },
            }
            k += 1;
        }
        assert(links_view(chain@) =~= chain0 + traverse(nodes, edges, node_id@, dir, remaining as nat,
            current_depth as nat, vis0).0);
    }

    /// Insert a node, replacing any node with the same id. Returns the id.
    pub fn add_node(&mut self, node: Node) -> (id: NodeId)
        requires
            old(self).wf(),
        ensures
            final(self).wf(),
            id@ == node.id@,
            final(self).edge_views() == old(self).edge_views(),
            find_node(final(self).node_views(), node.id@) == Some(node@),
            forall|other: Seq<char>| other != node.id@ ==>
                find_node(final(self).node_views(), other) == find_node(old(self).node_views(), other),
    {
        let id = node.id.clone();
        let ghost nv = node@;
        let ghost before = self.node_views();
        match self.position(&id) {
            Some(i) => {
                self.nodes.set(i, node);
                proof {
                    assert(self.node_views() =~= before.update(i as int, nv));
                    lemma_replace(before, node_key(), i as int, nv);
                }
            },
            None => {
                self.nodes.push(node);
                proof {
                    assert(self.node_views() =~= before.push(nv));
                    lemma_append(before, node_key(), nv);
                }
            },
        }
        id
    }
}

} // verus!
