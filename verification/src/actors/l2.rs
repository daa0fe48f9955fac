//! L2Actor: long-term memory of atoms, causes, effects and rules.
//!
//! The store keeps nodes and edges keyed by id, plus two indexes: one from workspace to
//! node ids (for `list_by_workspace`) and one from node type to node ids (for
//! `list_by_type`). Index entries are added when a node is written and removed when it
//! is deleted; a node rewritten under another workspace keeps its old index entry.

use vstd::prelude::*;
use crate::clock::now;
use crate::graph::node::{Node, NodeId, NodeView, NodeType, Status, nodes_view};
use crate::graph::edge::{Edge, EdgeId, EdgeView, edges_view};
use crate::graph::{find_node, node_key, opt_node_view};
use crate::keyed::{keys_unique, has_key, find_by_key, lemma_find_at, lemma_replace, lemma_append,
    lemma_remove, lemma_filter_step, lemma_take_full,
    remove_value, lemma_remove_value};
use super::Actor;

verus! {

/// The form in which a node is kept: `updated_at` is not durable and reads back as
/// `created_at`.
pub open spec fn stored_form(n: NodeView) -> NodeView {
    NodeView { updated_at: n.created_at, ..n }
}

/// The key of an edge: its id.
pub open spec fn edge_key() -> spec_fn(EdgeView) -> Seq<char> {
    |e: EdgeView| e.id
}

/// The edge of `edges` with id `id`.
pub open spec fn find_edge(edges: Seq<EdgeView>, id: Seq<char>) -> Option<EdgeView> {
    find_by_key(edges, edge_key(), id)
}

/// An entry of the workspace index: a workspace id and a node id.
#[derive(Debug)]
pub struct WorkspaceEntry {
    pub workspace: String,
    pub id: NodeId,
}

/// An entry of the type index: a node type and a node id.
#[derive(Debug)]
pub struct TypeEntry {
    pub node_type: NodeType,
    pub id: NodeId,
}

/// The nodes named by the entries of `idx` for workspace `ws`, in index order,
/// skipping entries whose node no longer exists.
pub open spec fn workspace_members(idx: Seq<(Seq<char>, Seq<char>)>, ws: Seq<char>, nodes: Seq<NodeView>) -> Seq<NodeView>
    decreases idx.len(),
{
    if idx.len() == 0 {
        Seq::empty()
    } else {
        let r = workspace_members(idx.drop_last(), ws, nodes);
        let e = idx.last();
        if e.0 == ws {
            match find_node(nodes, e.1) {
                Some(n) => r.push(n),
                None => r,
            }
        } else {
            r
        }
    }
}

/// The nodes named by the entries of `idx` for type `t`, in index order, skipping
/// entries whose node no longer exists.
pub open spec fn type_members(idx: Seq<(NodeType, Seq<char>)>, t: NodeType, nodes: Seq<NodeView>) -> Seq<NodeView>
    decreases idx.len(),
{
    if idx.len() == 0 {
        Seq::empty()
    } else {
        let r = type_members(idx.drop_last(), t, nodes);
        let e = idx.last();
        if e.0 == t {
            match find_node(nodes, e.1) {
                Some(n) => r.push(n),
                None => r,
            }
        } else {
            r
        }
    }
}

/// The ids that the workspace index holds for workspace `ws`.
pub open spec fn workspace_ids(idx: Seq<(Seq<char>, Seq<char>)>, ws: Seq<char>) -> Set<Seq<char>> {
    Set::new(|id: Seq<char>| idx.contains((ws, id)))
}

/// The number of entries of the workspace index for workspace `ws`.
pub open spec fn workspace_entry_count(idx: Seq<(Seq<char>, Seq<char>)>, ws: Seq<char>) -> nat {
    idx.filter(|e: (Seq<char>, Seq<char>)| e.0 == ws).len()
}

/// `idx` with `e` added unless already present.
pub open spec fn index_insert<A>(idx: Seq<A>, e: A) -> Seq<A> {
    if idx.contains(e) { idx } else { idx.push(e) }
}


/// An inserted element is present afterwards, and so is everything present before.
pub proof fn lemma_index_insert<A>(s: Seq<A>, e: A)
    ensures
        index_insert(s, e).contains(e),
        forall|x: A| s.contains(x) ==> #[trigger] index_insert(s, e).contains(x),
        s.no_duplicates() ==> index_insert(s, e).no_duplicates(),
{
    if !s.contains(e) {
        let t = s.push(e);
        assert(t[s.len() as int] == e);
        assert forall|x: A| s.contains(x) implies #[trigger] t.contains(x) by {
            let k = choose|k: int| 0 <= k < s.len() && s[k] == x;
            assert(t[k] == x);
        }
    }
}

/// Whether an edge passes the optional source and target filters.
pub open spec fn edge_matches(e: EdgeView, from: Option<Seq<char>>, to: Option<Seq<char>>) -> bool {
    &&& (from matches Some(f) ==> e.source == f)
    &&& (to matches Some(t) ==> e.target == t)
}

/// The test of `find_edges`: the edge passes the optional source and target filters.
pub open spec fn edge_filter(from: Option<Seq<char>>, to: Option<Seq<char>>) -> spec_fn(EdgeView) -> bool {
    |e: EdgeView| edge_matches(e, from, to)
}

/// The test of `count_edges_by_workspace`: the edge's source is indexed under `ws`.
pub open spec fn source_in_workspace(idx: Seq<(Seq<char>, Seq<char>)>, ws: Seq<char>) -> spec_fn(EdgeView) -> bool {
    |e: EdgeView| idx.contains((ws, e.source))
}

/// The view of an optional id.
pub open spec fn opt_id_view(o: Option<&NodeId>) -> Option<Seq<char>> {
    match o {
        Some(i) => Some(i@),
        None => None,
    }
}

/// The view of an optional node.
pub open spec fn opt_owned_node_view(o: Option<Node>) -> Option<NodeView> {
    match o {
        Some(n) => Some(n@),
        None => None,
    }
}

/// The view of an optional edge.
pub open spec fn opt_edge_view(o: Option<Edge>) -> Option<EdgeView> {
    match o {
        Some(e) => Some(e@),
        None => None,
    }
}

/// L2Actor: durable store of L2 nodes and edges.
pub struct L2Actor {
    nodes: Vec<Node>,
    edges: Vec<Edge>,
    by_workspace: Vec<WorkspaceEntry>,
    by_type: Vec<TypeEntry>,
}

impl L2Actor {
    /// The stored nodes (in their stored form), one per id.
    pub closed spec fn node_views(&self) -> Seq<NodeView> {
        nodes_view(self.nodes@)
    }

    /// The stored edges, one per id.
    pub closed spec fn edge_views(&self) -> Seq<EdgeView> {
        edges_view(self.edges@)
    }

    /// The workspace index.
    pub closed spec fn workspace_index(&self) -> Seq<(Seq<char>, Seq<char>)> {
        self.by_workspace@.map_values(|e: WorkspaceEntry| (e.workspace@, e.id@))
    }

    /// The type index.
    pub closed spec fn type_index(&self) -> Seq<(NodeType, Seq<char>)> {
        self.by_type@.map_values(|e: TypeEntry| (e.node_type, e.id@))
    }

    /// Ids are unique among nodes and among edges; index entries are unique; every
    /// stored node is in stored form and is indexed under its type and its workspace.
    pub open spec fn wf(&self) -> bool {
        &&& keys_unique(self.node_views(), node_key())
        &&& keys_unique(self.edge_views(), edge_key())
        &&& self.workspace_index().no_duplicates()
        &&& self.type_index().no_duplicates()
        &&& forall|i: int| 0 <= i < self.node_views().len() ==> Self::indexed(self.workspace_index(),
            self.type_index(), #[trigger] self.node_views()[i])
    }

    /// `n` is in stored form and both indexes hold its entries.
    pub open spec fn indexed(ws_idx: Seq<(Seq<char>, Seq<char>)>, type_idx: Seq<(NodeType, Seq<char>)>, n: NodeView) -> bool {
        &&& n.updated_at == n.created_at
        &&& type_idx.contains((n.node_type, n.id))
        &&& (n.metadata.workspace_id matches Some(w) ==> ws_idx.contains((w, n.id)))
    }

    /// An empty store.
    pub fn new() -> (a: Self)
        ensures
            a.wf(),
            a.node_views().len() == 0,
            a.edge_views().len() == 0,
            a.workspace_index().len() == 0,
            a.type_index().len() == 0,
    {
        L2Actor { nodes: Vec::new(), edges: Vec::new(), by_workspace: Vec::new(), by_type: Vec::new() }
    }

    /// The position of the node with id `id`, if any.
    fn node_position(&self, id: &NodeId) -> (r: Option<usize>)
        ensures
            match r {
                Some(i) => i < self.node_views().len() && self.node_views()[i as int].id == id@,
                None => !has_key(self.node_views(), node_key(), id@),
            },
    {
        let mut i: usize = 0;
        while i < self.nodes.len()
            invariant
                i <= self.nodes.len(),
                forall|k: int| 0 <= k < i ==> self.node_views()[k].id != id@,
            decreases self.nodes.len() - i,
        {
            if self.nodes[i].id.same(id) {
                return Some(i);
            }
            i += 1;
        }
        None
    }

    /// The position of the edge with id `id`, if any.
    fn edge_position(&self, id: &EdgeId) -> (r: Option<usize>)
        ensures
            match r {
                Some(i) => i < self.edge_views().len() && self.edge_views()[i as int].id == id@,
                None => !has_key(self.edge_views(), edge_key(), id@),
            },
    {
        let mut i: usize = 0;
        while i < self.edges.len()
            invariant
                i <= self.edges.len(),
                forall|k: int| 0 <= k < i ==> self.edge_views()[k].id != id@,
            decreases self.edges.len() - i,
        {
            if self.edges[i].id.same(id) {
                return Some(i);
            }
            i += 1;
        }
        None
    }

    /// Whether the workspace index holds `(ws, id)`.
    fn workspace_index_has(&self, ws: &String, id: &NodeId) -> (b: bool)
        ensures
            b == self.workspace_index().contains((ws@, id@)),
    {
        let ghost e = (ws@, id@);
        let mut i: usize = 0;
        while i < self.by_workspace.len()
            invariant
                i <= self.by_workspace.len(),
                e == (ws@, id@),
                forall|k: int| 0 <= k < i ==> self.workspace_index()[k] != e,
            decreases self.by_workspace.len() - i,
        {
            if self.by_workspace[i].workspace == *ws && self.by_workspace[i].id.same(id) {
                assert(self.workspace_index()[i as int] == e);
                return true;
            }
            i += 1;
        }
        false
    }

    /// Whether the type index holds `(t, id)`.
    fn type_index_has(&self, t: NodeType, id: &NodeId) -> (b: bool)
        ensures
            b == self.type_index().contains((t, id@)),
    {
        let ghost e = (t, id@);
        let mut i: usize = 0;
        while i < self.by_type.len()
            invariant
                i <= self.by_type.len(),
                e == (t, id@),
                forall|k: int| 0 <= k < i ==> self.type_index()[k] != e,
            decreases self.by_type.len() - i,
        {
            if self.by_type[i].node_type == t && self.by_type[i].id.same(id) {
                assert(self.type_index()[i as int] == e);
                return true;
            }
            i += 1;
        }
        false
    }

    /// Add `(ws, id)` to the workspace index unless present.
    fn workspace_index_insert(&mut self, ws: String, id: NodeId)
        requires
            old(self).workspace_index().no_duplicates(),
        ensures
            final(self).workspace_index() == index_insert(old(self).workspace_index(), (ws@, id@)),
            final(self).workspace_index().no_duplicates(),
            final(self).nodes == old(self).nodes,
            final(self).edges == old(self).edges,
            final(self).by_type == old(self).by_type,
    {
        if self.workspace_index_has(&ws, &id) {
            return;
        }
        let ghost e = (ws@, id@);
        let ghost before = self.workspace_index();
        self.by_workspace.push(WorkspaceEntry { workspace: ws, id });
        assert(self.workspace_index() =~= before.push(e));
    }

    /// Add `(t, id)` to the type index unless present.
    fn type_index_insert(&mut self, t: NodeType, id: NodeId)
        requires
            old(self).type_index().no_duplicates(),
        ensures
            final(self).type_index() == index_insert(old(self).type_index(), (t, id@)),
            final(self).type_index().no_duplicates(),
            final(self).nodes == old(self).nodes,
            final(self).edges == old(self).edges,
            final(self).by_workspace == old(self).by_workspace,
    {
        if self.type_index_has(t, &id) {
            return;
        }
        let ghost e = (t, id@);
        let ghost before = self.type_index();
        self.by_type.push(TypeEntry { node_type: t, id });
        assert(self.type_index() =~= before.push(e));
    }

    /// Store a node (replacing any node with the same id) and index it by workspace
    /// and type. Returns its id.
    pub fn add_node(&mut self, node: &Node) -> (id: NodeId)
        requires
            old(self).wf(),
        ensures
            final(self).wf(),
            id@ == node.id@,
            find_node(final(self).node_views(), node.id@) == Some(stored_form(node@)),
            forall|other: Seq<char>| other != node.id@ ==>
                find_node(final(self).node_views(), other) == find_node(old(self).node_views(), other),
            final(self).edge_views() == old(self).edge_views(),
            final(self).workspace_index() == (match node@.metadata.workspace_id {
                Some(ws) => index_insert(old(self).workspace_index(), (ws, node.id@)),
                None => old(self).workspace_index(),
            }),
            final(self).type_index() == index_insert(old(self).type_index(), (node.node_type, node.id@)),
    {
        let mut stored = node.clone();
        stored.updated_at = stored.created_at;
        let ghost sv = stored@;
        assert(sv == stored_form(node@));
        let ghost before = self.node_views();
        let ghost mut pos: int = 0;
        match self.node_position(&node.id) {
            Some(i) => {
                self.nodes.set(i, stored);
                proof {
                    assert(self.node_views() =~= before.update(i as int, sv));
                    lemma_replace(before, node_key(), i as int, sv);
                    pos = i as int;
                }
            },
            None => {
                self.nodes.push(stored);
                proof {
                    assert(self.node_views() =~= before.push(sv));
                    lemma_append(before, node_key(), sv);
                    pos = before.len() as int;
                }
            },
        }
        let ghost after_nodes = self.node_views();
        assert(after_nodes[pos] == sv);
        assert(forall|k: int| 0 <= k < after_nodes.len() && k != pos ==> after_nodes[k] == before[k]);
        let ghost wsi0 = self.workspace_index();
        let ghost ti0 = self.type_index();
        match &node.metadata.workspace_id {
            Some(ws) => self.workspace_index_insert(ws.clone(), node.id.clone()),
            None => {},
        }
        self.type_index_insert(node.node_type, node.id.clone());
        assert(self.node_views() == after_nodes);
        proof {
            let wsi = self.workspace_index();
            let ti = self.type_index();
            lemma_index_insert(ti0, (node.node_type, node.id@));
            match node@.metadata.workspace_id {
                Some(w) => lemma_index_insert(wsi0, (w, node.id@)),
                None => {},
            }
            assert forall|k: int| 0 <= k < after_nodes.len() implies Self::indexed(wsi, ti, #[trigger] after_nodes[k]) by {
                if k != pos {
                    assert(Self::indexed(wsi0, ti0, before[k]));
                }
            }
        }
        node.id.clone()
    }

    /// The node with id `id`, if stored.
    pub fn get_node(&self, id: &NodeId) -> (r: Option<Node>)
        requires
            self.wf(),
        ensures
            opt_owned_node_view(r) == find_node(self.node_views(), id@),
    {
        match self.node_position(id) {
            Some(i) => {
                proof {
                    lemma_find_at(self.node_views(), node_key(), i as int);
                }
                Some(self.nodes[i].clone())
            },
            None => None,
        }
    }

    /// The nodes indexed under workspace `workspace_id` that still exist, in index order.
    pub fn list_by_workspace(&self, workspace_id: &str) -> (r: Vec<Node>)
        requires
            self.wf(),
        ensures
            nodes_view(r@) == workspace_members(self.workspace_index(), workspace_id@, self.node_views()),
    {
        let ws = workspace_id.to_string();
        let mut r: Vec<Node> = Vec::new();
        let mut i: usize = 0;
        while i < self.by_workspace.len()
            invariant
                self.wf(),
                ws@ == workspace_id@,
                i <= self.by_workspace.len(),
                nodes_view(r@) == workspace_members(self.workspace_index().take(i as int), workspace_id@,
                    self.node_views()),
            decreases self.by_workspace.len() - i,
        {
            let ghost idx = self.workspace_index();
            assert(idx.take(i + 1).drop_last() =~= idx.take(i as int));
            assert(idx.take(i + 1).last() == idx[i as int]);
            if self.by_workspace[i].workspace == ws {
                match self.get_node(&self.by_workspace[i].id) {
                    Some(n) => {
                        let ghost before = nodes_view(r@);
                        let ghost nv = n@;
                        r.push(n);
                        assert(nodes_view(r@) =~= before.push(nv));
                    },
                    None => {},
                }
            }
            i += 1;
        }
        proof {
            lemma_take_full(self.workspace_index());
        }
        r
    }

    /// Deprecated name of `list_by_workspace` (the index holds the storage partition,
    /// not the cluster parent).
    pub fn list_by_parent(&self, workspace_id: &str) -> (r: Vec<Node>)
        requires
            self.wf(),
        ensures
            nodes_view(r@) == workspace_members(self.workspace_index(), workspace_id@, self.node_views()),
    {
        self.list_by_workspace(workspace_id)
    }

    /// The number of workspace-index entries for `workspace_id` (counted from the index
    /// alone, without loading nodes).
    pub fn count_by_workspace(&self, workspace_id: &str) -> (r: usize)
        ensures
            r == workspace_entry_count(self.workspace_index(), workspace_id@),
    {
        let ws = workspace_id.to_string();
        let ghost pred = |e: (Seq<char>, Seq<char>)| e.0 == workspace_id@;
        let mut n: usize = 0;
        let mut i: usize = 0;
        while i < self.by_workspace.len()
            invariant
                ws@ == workspace_id@,
                pred == (|e: (Seq<char>, Seq<char>)| e.0 == workspace_id@),
                i <= self.by_workspace.len(),
                n == self.workspace_index().take(i as int).filter(pred).len(),
                n <= i,
            decreases self.by_workspace.len() - i,
        {
            proof {
                lemma_filter_step(self.workspace_index(), pred, i as int);
            }
            if self.by_workspace[i].workspace == ws {
                n += 1;
            }
            i += 1;
        }
        proof {
            lemma_take_full(self.workspace_index());
        }
        n
    }

    /// The number of edges whose source node is indexed under workspace `workspace_id`.
    pub fn count_edges_by_workspace(&self, workspace_id: &str) -> (r: usize)
        ensures
            r == self.edge_views().filter(source_in_workspace(self.workspace_index(), workspace_id@)).len(),
    {
        let ws = workspace_id.to_string();
        let ghost pred = source_in_workspace(self.workspace_index(), workspace_id@);
        let mut n: usize = 0;
        let mut i: usize = 0;
        while i < self.edges.len()
            invariant
                ws@ == workspace_id@,
                pred == source_in_workspace(self.workspace_index(), workspace_id@),
                i <= self.edges.len(),
                n == self.edge_views().take(i as int).filter(pred).len(),
                n <= i,
            decreases self.edges.len() - i,
        {
            proof {
                lemma_filter_step(self.edge_views(), pred, i as int);
            }
            if self.workspace_index_has(&ws, &self.edges[i].source) {
                n += 1;
            }
            i += 1;
        }
        proof {
            lemma_take_full(self.edge_views());
        }
        n
    }

    /// The nodes indexed under type `t` that still exist, in index order.
    pub fn list_by_type(&self, t: NodeType) -> (r: Vec<Node>)
        requires
            self.wf(),
        ensures
            nodes_view(r@) == type_members(self.type_index(), t, self.node_views()),
    {
        let mut r: Vec<Node> = Vec::new();
        let mut i: usize = 0;
        while i < self.by_type.len()
            invariant
                self.wf(),
                i <= self.by_type.len(),
                nodes_view(r@) == type_members(self.type_index().take(i as int), t, self.node_views()),
            decreases self.by_type.len() - i,
        {
            let ghost idx = self.type_index();
            assert(idx.take(i + 1).drop_last() =~= idx.take(i as int));
            assert(idx.take(i + 1).last() == idx[i as int]);
            if self.by_type[i].node_type == t {
                match self.get_node(&self.by_type[i].id) {
                    Some(n) => {
                        let ghost before = nodes_view(r@);
                        let ghost nv = n@;
                        r.push(n);
                        assert(nodes_view(r@) =~= before.push(nv));
                    },
                    None => {},
                }
            }
            i += 1;
        }
        proof {
            lemma_take_full(self.type_index());
        }
        r
    }

    /// Store an edge, replacing any edge with the same id. Returns its id.
    pub fn add_edge(&mut self, edge: &Edge) -> (id: EdgeId)
        requires
            old(self).wf(),
        ensures
            final(self).wf(),
            id@ == edge.id@,
            find_edge(final(self).edge_views(), edge.id@) == Some(edge@),
            forall|other: Seq<char>| other != edge.id@ ==>
                find_edge(final(self).edge_views(), other) == find_edge(old(self).edge_views(), other),
            final(self).node_views() == old(self).node_views(),
            final(self).workspace_index() == old(self).workspace_index(),
            final(self).type_index() == old(self).type_index(),
    {
        let e = edge.clone();
        let ghost ev = e@;
        let ghost before = self.edge_views();
        match self.edge_position(&edge.id) {
            Some(i) => {
                self.edges.set(i, e);
                proof {
                    assert(self.edge_views() =~= before.update(i as int, ev));
                    lemma_replace(before, edge_key(), i as int, ev);
                }
            },
            None => {
                self.edges.push(e);
                proof {
                    assert(self.edge_views() =~= before.push(ev));
                    lemma_append(before, edge_key(), ev);
                }
            },
        }
        edge.id.clone()
    }

    /// The edge with id `id`, if stored.
    pub fn get_edge(&self, id: &EdgeId) -> (r: Option<Edge>)
        requires
            self.wf(),
        ensures
            opt_edge_view(r) == find_edge(self.edge_views(), id@),
    {
        match self.edge_position(id) {
            Some(i) => {
                proof {
                    lemma_find_at(self.edge_views(), edge_key(), i as int);
                }
                Some(self.edges[i].clone())
            },
            None => None,
        }
    }

    /// The edges that pass the optional source and target filters, in store order.
    pub fn find_edges(&self, from_id: Option<&NodeId>, to_id: Option<&NodeId>) -> (r: Vec<Edge>)
        ensures
            edges_view(r@) == self.edge_views().filter(edge_filter(opt_id_view(from_id), opt_id_view(to_id))),
    {
        let ghost pred = edge_filter(opt_id_view(from_id), opt_id_view(to_id));
        let mut r: Vec<Edge> = Vec::new();
        let mut i: usize = 0;
        while i < self.edges.len()
            invariant
                pred == edge_filter(opt_id_view(from_id), opt_id_view(to_id)),
                i <= self.edges.len(),
                edges_view(r@) == self.edge_views().take(i as int).filter(pred),
            decreases self.edges.len() - i,
        {
            proof {
                lemma_filter_step(self.edge_views(), pred, i as int);
            }
            let e = &self.edges[i];
            let from_ok = match from_id {
                Some(f) => e.source.same(f),
                None => true,
            };
            let to_ok = match to_id {
                Some(t) => e.target.same(t),
                None => true,
            };
            assert((from_ok && to_ok) == pred(self.edge_views()[i as int]));
            if from_ok && to_ok {
                let ghost before = edges_view(r@);
                let c = e.clone();
                r.push(c);
                assert(edges_view(r@) =~= before.push(self.edge_views()[i as int]));
            }
            i += 1;
        }
        proof {
            lemma_take_full(self.edge_views());
        }
        r
    }

    /// The edges leaving `source`, in store order.
    pub fn edges_from(&self, source: &NodeId) -> (r: Vec<Edge>)
        ensures
            edges_view(r@) == self.edge_views().filter(edge_filter(Some(source@), None)),
    {
        self.find_edges(Some(source), None)
    }

    /// The edges arriving at `target`, in store order.
    pub fn edges_to(&self, target: &NodeId) -> (r: Vec<Edge>)
        ensures
            edges_view(r@) == self.edge_views().filter(edge_filter(None, Some(target@))),
    {
        self.find_edges(None, Some(target))
    }

    /// All stored edges.
    pub fn list_all_edges(&self) -> (r: Vec<Edge>)
        ensures
            edges_view(r@) == self.edge_views(),
    {
        let mut r: Vec<Edge> = Vec::new();
        let mut i: usize = 0;
        while i < self.edges.len()
            invariant
                i <= self.edges.len(),
                r@.len() == i,
                forall|k: int| 0 <= k < i ==> #[trigger] r@[k]@ == self.edge_views()[k],
            decreases self.edges.len() - i,
        {
            r.push(self.edges[i].clone());
            i += 1;
        }
        assert(edges_view(r@) =~= self.edge_views());
        r
    }

    /// All stored nodes.
    pub fn list_all_nodes(&self) -> (r: Vec<Node>)
        ensures
            nodes_view(r@) == self.node_views(),
    {
        let mut r: Vec<Node> = Vec::new();
        let mut i: usize = 0;
        while i < self.nodes.len()
            invariant
                i <= self.nodes.len(),
                r@.len() == i,
                forall|k: int| 0 <= k < i ==> #[trigger] r@[k]@ == self.node_views()[k],
            decreases self.nodes.len() - i,
        {
            r.push(self.nodes[i].clone());
            i += 1;
        }
        assert(nodes_view(r@) =~= self.node_views());
        r
    }

    /// The number of stored nodes.
    pub fn node_count(&self) -> (r: usize)
        ensures
            r == self.node_views().len(),
    {
        self.nodes.len()
    }

    /// The number of stored edges.
    pub fn edge_count(&self) -> (r: usize)
        ensures
            r == self.edge_views().len(),
    {
        self.edges.len()
    }

    /// A stored node is in stored form and indexed.
    proof fn lemma_found_indexed(&self, id: Seq<char>)
        requires
            self.wf(),
            has_key(self.node_views(), node_key(), id),
        ensures
            find_node(self.node_views(), id) is Some,
            Self::indexed(self.workspace_index(), self.type_index(), find_node(self.node_views(), id).unwrap()),
            find_node(self.node_views(), id).unwrap().id == id,
    {
        let k = choose|k: int| 0 <= k < self.node_views().len() && self.node_views()[k].id == id;
        lemma_find_at(self.node_views(), node_key(), k);
        assert(Self::indexed(self.workspace_index(), self.type_index(), self.node_views()[k]));
    }

    /// The position of `(ws, id)` in the workspace index, if present.
    fn workspace_index_position(&self, ws: &String, id: &NodeId) -> (r: Option<usize>)
        ensures
            match r {
                Some(i) => i < self.workspace_index().len() && self.workspace_index()[i as int] == (ws@, id@),
                None => !self.workspace_index().contains((ws@, id@)),
            },
    {
        let ghost e = (ws@, id@);
        let mut i: usize = 0;
        while i < self.by_workspace.len()
            invariant
                i <= self.by_workspace.len(),
                e == (ws@, id@),
                forall|k: int| 0 <= k < i ==> self.workspace_index()[k] != e,
            decreases self.by_workspace.len() - i,
        {
            if self.by_workspace[i].workspace == *ws && self.by_workspace[i].id.same(id) {
                return Some(i);
            }
            i += 1;
        }
        None
    }

    /// The position of `(t, id)` in the type index, if present.
    fn type_index_position(&self, t: NodeType, id: &NodeId) -> (r: Option<usize>)
        ensures
            match r {
                Some(i) => i < self.type_index().len() && self.type_index()[i as int] == (t, id@),
                None => !self.type_index().contains((t, id@)),
            },
    {
        let ghost e = (t, id@);
        let mut i: usize = 0;
        while i < self.by_type.len()
            invariant
                i <= self.by_type.len(),
                e == (t, id@),
                forall|k: int| 0 <= k < i ==> self.type_index()[k] != e,
            decreases self.by_type.len() - i,
        {
            if self.by_type[i].node_type == t && self.by_type[i].id.same(id) {
                return Some(i);
            }
            i += 1;
        }
        None
    }

    /// Remove `(ws, id)` from the workspace index if present.
    fn workspace_index_remove(&mut self, ws: &String, id: &NodeId)
        requires
            old(self).workspace_index().no_duplicates(),
        ensures
            final(self).workspace_index() == remove_value(old(self).workspace_index(), (ws@, id@)),
            final(self).workspace_index().no_duplicates(),
            !final(self).workspace_index().contains((ws@, id@)),
            forall|x: (Seq<char>, Seq<char>)| x != (ws@, id@) ==>
                (final(self).workspace_index().contains(x) == old(self).workspace_index().contains(x)),
            final(self).nodes == old(self).nodes,
            final(self).edges == old(self).edges,
            final(self).by_type == old(self).by_type,
    {
        let ghost before = self.workspace_index();
        match self.workspace_index_position(ws, id) {
            Some(i) => {
                proof {
                    lemma_remove_value(before, i as int);
                }
                self.by_workspace.remove(i);
                assert(self.workspace_index() =~= before.remove(i as int));
            },
            None => {},
        }
    }

    /// Remove `(t, id)` from the type index if present.
    fn type_index_remove(&mut self, t: NodeType, id: &NodeId)
        requires
            old(self).type_index().no_duplicates(),
        ensures
            final(self).type_index() == remove_value(old(self).type_index(), (t, id@)),
            final(self).type_index().no_duplicates(),
            !final(self).type_index().contains((t, id@)),
            forall|x: (NodeType, Seq<char>)| x != (t, id@) ==>
                (final(self).type_index().contains(x) == old(self).type_index().contains(x)),
            final(self).nodes == old(self).nodes,
            final(self).edges == old(self).edges,
            final(self).by_workspace == old(self).by_workspace,
    {
        let ghost before = self.type_index();
        match self.type_index_position(t, id) {
            Some(i) => {
                proof {
                    lemma_remove_value(before, i as int);
                }
                self.by_type.remove(i);
                assert(self.type_index() =~= before.remove(i as int));
            },
            None => {},
        }
    }

    /// Delete a node and its index entries; its edges stay. Returns whether it existed.
    pub fn delete_node(&mut self, id: &NodeId) -> (r: bool)
        requires
            old(self).wf(),
        ensures
            final(self).wf(),
            r == has_key(old(self).node_views(), node_key(), id@),
            find_node(final(self).node_views(), id@) is None,
            forall|other: Seq<char>| other != id@ ==>
                find_node(final(self).node_views(), other) == find_node(old(self).node_views(), other),
            final(self).edge_views() == old(self).edge_views(),
            r ==> final(self).workspace_index() == (match find_node(old(self).node_views(), id@).unwrap().metadata.workspace_id {
                Some(w) => remove_value(old(self).workspace_index(), (w, id@)),
                None => old(self).workspace_index(),
            }),
            r ==> final(self).type_index() == remove_value(old(self).type_index(),
                (find_node(old(self).node_views(), id@).unwrap().node_type, id@)),
            !r ==> final(self).workspace_index() == old(self).workspace_index(),
            !r ==> final(self).type_index() == old(self).type_index(),
    {
        match self.node_position(id) {
            None => false,
            Some(i) => {
                let ghost before = self.node_views();
                let ghost wsi0 = self.workspace_index();
                let ghost ti0 = self.type_index();
                proof {
                    lemma_find_at(before, node_key(), i as int);
                    lemma_remove(before, node_key(), i as int);
                }
                let n = self.nodes.remove(i);
                assert(self.node_views() =~= before.remove(i as int));
                let ghost after = self.node_views();
                match &n.metadata.workspace_id {
                    Some(w) => self.workspace_index_remove(w, id),
                    None => {},
                }
                self.type_index_remove(n.node_type, id);
                proof {
                    let wsi = self.workspace_index();
                    let ti = self.type_index();
                    assert forall|k: int| 0 <= k < after.len() implies Self::indexed(wsi, ti, #[trigger] after[k]) by {
                        let sk = if k < i { k } else { k + 1 };
                        assert(after[k] == before[sk]);
                        assert(Self::indexed(wsi0, ti0, before[sk]));
                        assert(before[sk].id != id@);
                    }
                }
                true
            },
        }
    }

    /// Delete an edge. Returns whether it existed.
    pub fn delete_edge(&mut self, id: &EdgeId) -> (r: bool)
        requires
            old(self).wf(),
        ensures
            final(self).wf(),
            r == has_key(old(self).edge_views(), edge_key(), id@),
            find_edge(final(self).edge_views(), id@) is None,
            forall|other: Seq<char>| other != id@ ==>
                find_edge(final(self).edge_views(), other) == find_edge(old(self).edge_views(), other),
            final(self).node_views() == old(self).node_views(),
            final(self).workspace_index() == old(self).workspace_index(),
            final(self).type_index() == old(self).type_index(),
    {
        match self.edge_position(id) {
            None => false,
            Some(i) => {
                let ghost before = self.edge_views();
                proof {
                    lemma_remove(before, edge_key(), i as int);
                }
                self.edges.remove(i);
                assert(self.edge_views() =~= before.remove(i as int));
                true
            },
        }
    }

    /// Set the status of a stored node and write it back. Returns the new status, or
    /// `None` when there is no such node.
    fn set_node_status(&mut self, id: &NodeId, status: Status) -> (r: Option<Status>)
        requires
            old(self).wf(),
        ensures
            final(self).wf(),
            r == (if has_key(old(self).node_views(), node_key(), id@) { Some(status) } else { None }),
            r is Some ==> find_node(final(self).node_views(), id@)
                == Some(NodeView { status, ..find_node(old(self).node_views(), id@).unwrap() }),
            forall|other: Seq<char>| other != id@ ==>
                find_node(final(self).node_views(), other) == find_node(old(self).node_views(), other),
            r is None ==> final(self).node_views() == old(self).node_views(),
            final(self).edge_views() == old(self).edge_views(),
            final(self).workspace_index() == old(self).workspace_index(),
            final(self).type_index() == old(self).type_index(),
    {
        match self.get_node(id) {
            None => {
                assert(!has_key(self.node_views(), node_key(), id@));
                None
            },
            Some(mut n) => {
                proof {
                    self.lemma_found_indexed(id@);
                }
                let ghost old_v = n@;
                n.status = status;
                n.updated_at = now();
                let ghost wsi0 = self.workspace_index();
                let ghost ti0 = self.type_index();
                self.add_node(&n);
                proof {
                    assert(index_insert(ti0, (n.node_type, n.id@)) == ti0);
                    match n@.metadata.workspace_id {
                        Some(w) => assert(index_insert(wsi0, (w, n.id@)) == wsi0),
                        None => {},
                    }
                }
                assert(stored_form(n@) == NodeView { status, ..old_v });
                Some(status)
            },
        }
    }

    /// Mark a node Archived (soft delete). Returns the new status, or `None` when there is
    /// no such node.
    pub fn archive_node(&mut self, id: &NodeId) -> (r: Option<Status>)
        requires
            old(self).wf(),
        ensures
            final(self).wf(),
            r == (if has_key(old(self).node_views(), node_key(), id@) { Some(Status::Archived) } else { None }),
            r is Some ==> find_node(final(self).node_views(), id@)
                == Some(NodeView { status: Status::Archived, ..find_node(old(self).node_views(), id@).unwrap() }),
            forall|other: Seq<char>| other != id@ ==>
                find_node(final(self).node_views(), other) == find_node(old(self).node_views(), other),
            final(self).edge_views() == old(self).edge_views(),
            final(self).workspace_index() == old(self).workspace_index(),
            final(self).type_index() == old(self).type_index(),
    {
        self.set_node_status(id, Status::Archived)
    }

    /// Return an Archived node to Active. Returns the new status, or `None` when there is
    /// no such node.
    pub fn restore_node(&mut self, id: &NodeId) -> (r: Option<Status>)
        requires
            old(self).wf(),
        ensures
            final(self).wf(),
            r == (if has_key(old(self).node_views(), node_key(), id@) { Some(Status::Active) } else { None }),
            r is Some ==> find_node(final(self).node_views(), id@)
                == Some(NodeView { status: Status::Active, ..find_node(old(self).node_views(), id@).unwrap() }),
            forall|other: Seq<char>| other != id@ ==>
                find_node(final(self).node_views(), other) == find_node(old(self).node_views(), other),
            final(self).edge_views() == old(self).edge_views(),
            final(self).workspace_index() == old(self).workspace_index(),
            final(self).type_index() == old(self).type_index(),
    {
        self.set_node_status(id, Status::Active)
    }
}

impl Actor for L2Actor {
    fn name(&self) -> &'static str {
        "L2Actor"
    }

    /// All entries held: nodes, edges and index entries (saturating at `usize::MAX`).
    fn size(&self) -> (r: usize)
        ensures
            r == vstd::math::min((self.node_views().len() + self.edge_views().len()
                + self.workspace_index().len() + self.type_index().len()) as int, usize::MAX as int),
    {
        self.nodes.len().saturating_add(self.edges.len()).saturating_add(self.by_workspace.len())
            .saturating_add(self.by_type.len())
    }
}

} // verus!
