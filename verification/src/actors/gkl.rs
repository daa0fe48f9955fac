//! GKLactor: the global knowledge layer shared across workspaces; its nodes have ids
//! beginning with `gkl_`.

use vstd::prelude::*;
use crate::graph::node::{Node, NodeId, NodeView, NodeType, Level, Status, Metadata, strings_view, copy_strings};
use crate::graph::edge::Edge;
use crate::keyed::{keys_unique, find_by_key, has_key, lemma_find_at, lemma_replace, lemma_append, lemma_remove,
    lemma_filter_step, lemma_take_full};
use crate::text::{chars_of, starts_with_chars, has_prefix, same_text};

verus! {

/// The prefix of global node ids.
pub open spec fn gkl_prefix() -> Seq<char> {
    "gkl_"@
}

/// A node of the global layer.
#[derive(Debug)]
pub struct GklNode {
    pub node: Node,
    /// Whether it aggregates other global nodes.
    pub is_hub: bool,
}

/// The content of a global node.
pub struct GklNodeView {
    pub node: NodeView,
    pub is_hub: bool,
}

impl View for GklNode {
    type V = GklNodeView;

    open spec fn view(&self) -> GklNodeView {
        GklNodeView { node: self.node@, is_hub: self.is_hub }
    }
}

impl Clone for GklNode {
    fn clone(&self) -> (r: Self)
        ensures
            r@ == self@,
    {
        GklNode { node: self.node.clone(), is_hub: self.is_hub }
    }
}

/// The views of a list of global nodes.
pub open spec fn gkl_view(v: Seq<GklNode>) -> Seq<GklNodeView> {
    v.map_values(|n: GklNode| n@)
}

/// The key of a global node: its id.
pub open spec fn gkl_key() -> spec_fn(GklNodeView) -> Seq<char> {
    |n: GklNodeView| n.node.id
}

/// The global node with id `id`.
pub open spec fn find_gkl(ns: Seq<GklNodeView>, id: Seq<char>) -> Option<GklNodeView> {
    find_by_key(ns, gkl_key(), id)
}

/// The position of the global node with id `id`.
pub open spec fn gkl_index(ns: Seq<GklNodeView>, id: Seq<char>) -> int {
    choose|i: int| 0 <= i < ns.len() && ns[i].node.id == id
}

/// The nodes after storing `n`: it replaces the node with its id, or is appended.
pub open spec fn store_gkl(ns: Seq<GklNodeView>, n: GklNodeView) -> Seq<GklNodeView> {
    if has_key(ns, gkl_key(), n.node.id) { ns.update(gkl_index(ns, n.node.id), n) } else { ns.push(n) }
}

/// Statistics of the global layer.
#[derive(Debug, Clone, Copy)]
pub struct GklStats {
    pub total_nodes: usize,
    pub l1_count: usize,
    pub l2_count: usize,
    pub hub_count: usize,
}

/// Why a global-layer operation was refused.
#[derive(Debug, Clone, Copy, PartialEq, Eq, Structural)]
pub enum GklError {
    /// The id does not begin with `gkl_`.
    NotGklId,
}

/// The predicate "level `l`".
pub open spec fn at_level(l: Level) -> spec_fn(GklNodeView) -> bool {
    |n: GklNodeView| n.node.level == l
}

/// The predicate "type `t`".
pub open spec fn of_type(t: NodeType) -> spec_fn(GklNodeView) -> bool {
    |n: GklNodeView| n.node.node_type == t
}

/// The predicate "a hub at level L1".
pub open spec fn l1_hub() -> spec_fn(GklNodeView) -> bool {
    |n: GklNodeView| n.node.level == Level::L1 && n.is_hub
}

/// The predicate "a hub".
pub open spec fn hub() -> spec_fn(GklNodeView) -> bool {
    |n: GklNodeView| n.is_hub
}

/// The predicate "carries one of `tags`".
pub open spec fn tagged(tags: Seq<Seq<char>>) -> spec_fn(GklNodeView) -> bool {
    |n: GklNodeView| exists|i: int| 0 <= i < tags.len() && n.node.metadata.tags.contains(#[trigger] tags[i])
}

/// The children named by the index for `parent`, in order.
pub open spec fn children_ids(idx: Seq<(Seq<char>, Seq<char>)>, parent: Seq<char>) -> Seq<Seq<char>> {
    idx.filter(|e: (Seq<char>, Seq<char>)| e.0 == parent).map_values(|e: (Seq<char>, Seq<char>)| e.1)
}

/// The stored nodes named by a list of ids, in order, skipping missing ones.
pub open spec fn found_nodes(ns: Seq<GklNodeView>, ids: Seq<Seq<char>>) -> Seq<GklNodeView>
    decreases ids.len(),
{
    if ids.len() == 0 {
        Seq::empty()
    } else {
        let r = found_nodes(ns, ids.drop_last());
        match find_gkl(ns, ids.last()) {
            Some(n) => r.push(n),
            None => r,
        }
    }
}

/// Whether an id names a global node.
pub fn is_gkl_id(id: &NodeId) -> (b: bool)
    ensures
        b == has_prefix(id@, gkl_prefix()),
{
    let s = chars_of(id.0.as_str());
    let p = chars_of("gkl_");
    starts_with_chars(&s, &p)
}

/// The global id with the given suffix: `gkl_` followed by it.
pub fn make_gkl_id(suffix: &str) -> (id: NodeId)
    ensures
        id@ == gkl_prefix() + suffix@,
{
    let mut s = "gkl_".to_owned();
    s.append(suffix);
    NodeId::from_string(s)
}

/// GKLactor: the global nodes (unique ids, in storage order) and the parent → child
/// index (without repeated pairs).
pub struct GKLactor {
    nodes: Vec<GklNode>,
    children: Vec<(NodeId, NodeId)>,
}

impl GKLactor {
    /// The stored nodes, in order.
    pub closed spec fn gkl_nodes(&self) -> Seq<GklNodeView> {
        gkl_view(self.nodes@)
    }

    /// The parent → child pairs, in order.
    pub closed spec fn child_index(&self) -> Seq<(Seq<char>, Seq<char>)> {
        self.children@.map_values(|e: (NodeId, NodeId)| (e.0@, e.1@))
    }

    /// Unique node ids and no repeated index pair.
    pub open spec fn wf(&self) -> bool {
        &&& keys_unique(self.gkl_nodes(), gkl_key())
        &&& self.child_index().no_duplicates()
    }

    /// An empty global layer.
    pub fn new() -> (g: Self)
        ensures
            g.wf(),
            g.gkl_nodes().len() == 0,
            g.child_index().len() == 0,
    {
        let g = GKLactor { nodes: Vec::new(), children: Vec::new() };
        assert(g.gkl_nodes() =~= Seq::<GklNodeView>::empty());
        assert(g.child_index() =~= Seq::<(Seq<char>, Seq<char>)>::empty());
        g
    }

    /// Create an id with the `gkl_` prefix.
    pub fn make_gkl_id(suffix: &str) -> (id: NodeId)
        ensures
            id@ == gkl_prefix() + suffix@,
    {
        make_gkl_id(suffix)
    }

    /// Whether an id names a global node.
    pub fn is_gkl_id(id: &NodeId) -> (b: bool)
        ensures
            b == has_prefix(id@, gkl_prefix()),
    {
        is_gkl_id(id)
    }

    fn position(&self, id: &NodeId) -> (r: Option<usize>)
        requires
            self.wf(),
        ensures
            match r {
                Some(i) => i < self.gkl_nodes().len() && self.gkl_nodes()[i as int].node.id == id@
                    && gkl_index(self.gkl_nodes(), id@) == i && find_gkl(self.gkl_nodes(), id@) == Some(self.gkl_nodes()[i as int]),
                None => !has_key(self.gkl_nodes(), gkl_key(), id@) && find_gkl(self.gkl_nodes(), id@) is None,
            },
    {
        let mut i: usize = 0;
        while i < self.nodes.len()
            invariant
                self.wf(),
                i <= self.nodes.len(),
                forall|k: int| 0 <= k < i ==> self.gkl_nodes()[k].node.id != id@,
            decreases self.nodes.len() - i,
        {
            assert(self.gkl_nodes()[i as int] == self.nodes@[i as int]@);
            if self.nodes[i].node.id.same(id) {
                proof {
                    lemma_find_at(self.gkl_nodes(), gkl_key(), i as int);
                    let j = gkl_index(self.gkl_nodes(), id@);
                    assert(gkl_key()(self.gkl_nodes()[j]) == gkl_key()(self.gkl_nodes()[i as int]));
                    assert(j == i);
                }
                return Some(i);
            }
            i += 1;
        }
        None
    }

    /// Store a global node; an id without the `gkl_` prefix is refused.
    pub fn save_node(&mut self, node: &GklNode) -> (r: Result<NodeId, GklError>)
        requires
            old(self).wf(),
        ensures
            final(self).wf(),
            final(self).child_index() == old(self).child_index(),
            !has_prefix(node@.node.id, gkl_prefix()) ==> r == Err::<NodeId, GklError>(GklError::NotGklId)
                && final(self).gkl_nodes() == old(self).gkl_nodes(),
            has_prefix(node@.node.id, gkl_prefix()) ==> (r matches Ok(id) && id@ == node@.node.id
                && final(self).gkl_nodes() == store_gkl(old(self).gkl_nodes(), node@)),
    {
        if !is_gkl_id(&node.node.id) {
            return Err(GklError::NotGklId);
        }
        let ghost ns = self.gkl_nodes();
        let n = node.clone();
        match self.position(&node.node.id) {
            Some(i) => {
                proof {
                    lemma_replace(ns, gkl_key(), i as int, node@);
                }
                self.nodes.set(i, n);
                assert(self.gkl_nodes() =~= ns.update(i as int, node@));
            },
            None => {
                proof {
                    lemma_append(ns, gkl_key(), node@);
                }
                self.nodes.push(n);
                assert(self.gkl_nodes() =~= ns.push(node@));
            },
        }
        Ok(node.node.id.clone())
    }

    /// The global node with id `id`, if any.
    pub fn get_node(&self, id: &NodeId) -> (r: Option<GklNode>)
        requires
            self.wf(),
        ensures
            match r {
                Some(n) => find_gkl(self.gkl_nodes(), id@) == Some(n@),
                None => find_gkl(self.gkl_nodes(), id@) is None,
            },
    {
        match self.position(id) {
            Some(i) => Some(self.nodes[i].clone()),
            None => None,
        }
    }

    /// The nodes that pass `keep`, in order.
    fn select(&self, kind: u8, arg_t: NodeType, arg_l: Level) -> (r: Vec<GklNode>)
        ensures
            gkl_view(r@) == self.gkl_nodes().filter(selector(kind, arg_t, arg_l)),
    {
        let ghost ns = self.gkl_nodes();
        let ghost f = selector(kind, arg_t, arg_l);
        let mut r: Vec<GklNode> = Vec::new();
        let mut i: usize = 0;
        while i < self.nodes.len()
            invariant
                i <= self.nodes.len(),
                ns == self.gkl_nodes(),
                f == selector(kind, arg_t, arg_l),
                gkl_view(r@) == ns.take(i as int).filter(f),
            decreases self.nodes.len() - i,
        {
            proof {
                lemma_filter_step(ns, f, i as int);
            }
            assert(ns[i as int] == self.nodes@[i as int]@);
            let n = &self.nodes[i];
            let keep = if kind == 0 {
                n.node.node_type == arg_t
            } else if kind == 1 {
                n.node.level == arg_l
            } else if kind == 2 {
                n.node.level == Level::L1 && n.is_hub
            } else if kind == 3 {
                n.is_hub
            } else {
                true
            };
            if keep {
                let ghost before = gkl_view(r@);
                r.push(n.clone());
                assert(gkl_view(r@) =~= before.push(ns[i as int]));
            }
            i += 1;
        }
        proof {
            lemma_take_full(ns);
        }
        r
    }

    /// The nodes of a type, in order.
    pub fn list_by_type(&self, node_type: NodeType) -> (r: Vec<GklNode>)
        ensures
            gkl_view(r@) == self.gkl_nodes().filter(of_type(node_type)),
    {
        assert(selector(0, node_type, Level::L0) =~= of_type(node_type));
        self.select(0, node_type, Level::L0)
    }

    /// The nodes of a level, in order.
    pub fn list_by_level(&self, level: Level) -> (r: Vec<GklNode>)
        ensures
            gkl_view(r@) == self.gkl_nodes().filter(at_level(level)),
    {
        assert(selector(1, NodeType::Atom, level) =~= at_level(level));
        self.select(1, NodeType::Atom, level)
    }

    /// The hubs at level L1, in order.
    pub fn list_l1_hubs(&self) -> (r: Vec<GklNode>)
        ensures
            gkl_view(r@) == self.gkl_nodes().filter(l1_hub()),
    {
        assert(selector(2, NodeType::Atom, Level::L0) =~= l1_hub());
        self.select(2, NodeType::Atom, Level::L0)
    }

    /// The atoms at level L2, in order.
    pub fn list_l2_atoms(&self) -> (r: Vec<GklNode>)
        ensures
            gkl_view(r@) == self.gkl_nodes().filter(at_level(Level::L2)),
    {
        assert(selector(1, NodeType::Atom, Level::L2) =~= at_level(Level::L2));
        self.select(1, NodeType::Atom, Level::L2)
    }

    /// Every global node, in order.
    pub fn list_all(&self) -> (r: Vec<GklNode>)
        ensures
            gkl_view(r@) == self.gkl_nodes(),
    {
        let r = self.select(4, NodeType::Atom, Level::L0);
        assert(self.gkl_nodes().filter(selector(4, NodeType::Atom, Level::L0)) =~= self.gkl_nodes()) by {
            crate::keyed::lemma_filter_members(self.gkl_nodes(), selector(4, NodeType::Atom, Level::L0));
            lemma_filter_all(self.gkl_nodes(), selector(4, NodeType::Atom, Level::L0));
        }
        r
    }

    /// Record the edge's source → target pair in the child index (once); the edge's id.
    pub fn add_edge(&mut self, edge: &Edge) -> (id: crate::graph::edge::EdgeId)
        requires
            old(self).wf(),
        ensures
            final(self).wf(),
            final(self).gkl_nodes() == old(self).gkl_nodes(),
            final(self).child_index() == (if old(self).child_index().contains((edge.source@, edge.target@)) {
                old(self).child_index()
            } else {
                old(self).child_index().push((edge.source@, edge.target@))
            }),
            id@ == edge.id@,
    {
        let ghost ci = self.child_index();
        let mut i: usize = 0;
        let mut found = false;
        while i < self.children.len()
            invariant
                i <= self.children.len(),
                ci == self.child_index(),
                found ==> ci.contains((edge.source@, edge.target@)),
                !found ==> forall|k: int| 0 <= k < i ==> ci[k] != (edge.source@, edge.target@),
            decreases self.children.len() - i,
        {
            assert(ci[i as int] == (self.children@[i as int].0@, self.children@[i as int].1@));
            if self.children[i].0.same(&edge.source) && self.children[i].1.same(&edge.target) {
                found = true;
            }
            i += 1;
        }
        if !found {
            self.children.push((edge.source.clone(), edge.target.clone()));
            assert(self.child_index() =~= ci.push((edge.source@, edge.target@)));
            assert(self.child_index().no_duplicates()) by {
                assert forall|a: int, b: int| 0 <= a < self.child_index().len() && 0 <= b < self.child_index().len() && a != b
                    implies self.child_index()[a] != self.child_index()[b] by {
                    if a < ci.len() && b < ci.len() {
                    } else if a < ci.len() {
                        assert(self.child_index()[a] == ci[a]);
                    } else {
                        assert(self.child_index()[b] == ci[b]);
                    }
                }
            }
        }
        edge.id.clone()
    }

    /// The stored children of a node, in index order.
    pub fn get_children(&self, parent_id: &NodeId) -> (r: Vec<GklNode>)
        requires
            self.wf(),
        ensures
            gkl_view(r@) == found_nodes(self.gkl_nodes(), children_ids(self.child_index(), parent_id@)),
    {
        let ghost ci = self.child_index();
        let ghost pred = |e: (Seq<char>, Seq<char>)| e.0 == parent_id@;
        let mut r: Vec<GklNode> = Vec::new();
        let mut i: usize = 0;
        while i < self.children.len()
            invariant
                self.wf(),
                i <= self.children.len(),
                ci == self.child_index(),
                pred == (|e: (Seq<char>, Seq<char>)| e.0 == parent_id@),
                gkl_view(r@) == found_nodes(self.gkl_nodes(), ci.take(i as int).filter(pred).map_values(|e: (Seq<char>, Seq<char>)| e.1)),
            decreases self.children.len() - i,
        {
            proof {
                lemma_filter_step(ci, pred, i as int);
            }
            assert(ci[i as int] == (self.children@[i as int].0@, self.children@[i as int].1@));
            if self.children[i].0.same(parent_id) {
                let ghost ids0 = ci.take(i as int).filter(pred).map_values(|e: (Seq<char>, Seq<char>)| e.1);
                assert(ci.take(i + 1).filter(pred).map_values(|e: (Seq<char>, Seq<char>)| e.1) =~= ids0.push(ci[i as int].1));
                assert(ids0.push(ci[i as int].1).drop_last() =~= ids0);
                match self.get_node(&self.children[i].1) {
                    Some(n) => {
                        let ghost before = gkl_view(r@);
                        r.push(n);
                        assert(gkl_view(r@) =~= before.push(n@));
                    },
                    None => {},
                }
            } else {
                assert(ci.take(i + 1).filter(pred) =~= ci.take(i as int).filter(pred));
            }
            i += 1;
        }
        proof {
            lemma_take_full(ci);
        }
        r
    }

    /// The nodes carrying any of the tags, in order.
    pub fn find_by_tags(&self, tags: &Vec<String>) -> (r: Vec<GklNode>)
        ensures
            gkl_view(r@) == self.gkl_nodes().filter(tagged(strings_view(tags@))),
    {
        let ghost ns = self.gkl_nodes();
        let ghost tv = strings_view(tags@);
        let mut r: Vec<GklNode> = Vec::new();
        let mut i: usize = 0;
        while i < self.nodes.len()
            invariant
                i <= self.nodes.len(),
                ns == self.gkl_nodes(),
                tv == strings_view(tags@),
                gkl_view(r@) == ns.take(i as int).filter(tagged(tv)),
            decreases self.nodes.len() - i,
        {
            proof {
                lemma_filter_step(ns, tagged(tv), i as int);
            }
            assert(ns[i as int] == self.nodes@[i as int]@);
            if has_any_tag(&self.nodes[i].node.metadata.tags, tags) {
                let ghost before = gkl_view(r@);
                r.push(self.nodes[i].clone());
                assert(gkl_view(r@) =~= before.push(ns[i as int]));
            }
            i += 1;
        }
        proof {
            lemma_take_full(ns);
        }
        r
    }

    /// Delete a global node and its index pairs (as parent or child); other ids are
    /// ignored.
    pub fn delete_node(&mut self, id: &NodeId)
        requires
            old(self).wf(),
        ensures
            final(self).wf(),
            !has_prefix(id@, gkl_prefix()) ==> final(self).gkl_nodes() == old(self).gkl_nodes()
                && final(self).child_index() == old(self).child_index(),
            has_prefix(id@, gkl_prefix()) ==> {
                &&& final(self).gkl_nodes() == (if has_key(old(self).gkl_nodes(), gkl_key(), id@) {
                        old(self).gkl_nodes().remove(gkl_index(old(self).gkl_nodes(), id@))
                    } else {
                        old(self).gkl_nodes()
                    })
                &&& final(self).child_index() == old(self).child_index().filter(
                        |e: (Seq<char>, Seq<char>)| e.0 != id@ && e.1 != id@)
            },
    {
        if !is_gkl_id(id) {
            return;
        }
        let ghost ns = self.gkl_nodes();
        match self.position(id) {
            Some(i) => {
                proof {
                    lemma_remove(ns, gkl_key(), i as int);
                }
                self.nodes.remove(i);
                assert(self.gkl_nodes() =~= ns.remove(i as int));
            },
            None => {},
        }
        let ghost ci = self.child_index();
        let ghost pred = |e: (Seq<char>, Seq<char>)| e.0 != id@ && e.1 != id@;
        let mut kept: Vec<(NodeId, NodeId)> = Vec::new();
        let mut k: usize = 0;
        while k < self.children.len()
            invariant
                k <= self.children.len(),
                ci == self.child_index(),
                ci.no_duplicates(),
                pred == (|e: (Seq<char>, Seq<char>)| e.0 != id@ && e.1 != id@),
                kept@.map_values(|e: (NodeId, NodeId)| (e.0@, e.1@)) == ci.take(k as int).filter(pred),
            decreases self.children.len() - k,
        {
            proof {
                lemma_filter_step(ci, pred, k as int);
            }
            assert(ci[k as int] == (self.children@[k as int].0@, self.children@[k as int].1@));
            if !self.children[k].0.same(id) && !self.children[k].1.same(id) {
                let ghost before = kept@.map_values(|e: (NodeId, NodeId)| (e.0@, e.1@));
                kept.push((self.children[k].0.clone(), self.children[k].1.clone()));
                assert(kept@.map_values(|e: (NodeId, NodeId)| (e.0@, e.1@)) =~= before.push(ci[k as int]));
            }
            k += 1;
        }
        proof {
            lemma_take_full(ci);
            crate::keyed::lemma_filter_no_dup(ci, pred);
        }
        self.children = kept;
    }

    /// Counts of the global nodes: all, at L1, at L2, hubs.
    pub fn stats(&self) -> (s: GklStats)
        ensures
            s.total_nodes == self.gkl_nodes().len(),
            s.l1_count == self.gkl_nodes().filter(at_level(Level::L1)).len(),
            s.l2_count == self.gkl_nodes().filter(at_level(Level::L2)).len(),
            s.hub_count == self.gkl_nodes().filter(hub()).len(),
    {
        let l1 = self.list_by_level(Level::L1);
        let l2 = self.list_by_level(Level::L2);
        assert(selector(3, NodeType::Atom, Level::L0) =~= hub());
        let hubs = self.select(3, NodeType::Atom, Level::L0);
        GklStats { total_nodes: self.nodes.len(), l1_count: l1.len(), l2_count: l2.len(), hub_count: hubs.len() }
    }

    /// Copy a workspace node into the global layer under `gkl_id`: same type, level,
    /// content, tags and creation time, active, without parent or workspace, not a hub.
    pub fn import_from_workspace(&mut self, node: &Node, gkl_id: &NodeId) -> (r: Result<GklNode, GklError>)
        requires
            old(self).wf(),
        ensures
            final(self).wf(),
            final(self).child_index() == old(self).child_index(),
            !has_prefix(gkl_id@, gkl_prefix()) ==> r == Err::<GklNode, GklError>(GklError::NotGklId)
                && final(self).gkl_nodes() == old(self).gkl_nodes(),
            has_prefix(gkl_id@, gkl_prefix()) ==> (r matches Ok(g) && imported(node@, gkl_id@, g@)
                && final(self).gkl_nodes() == store_gkl(old(self).gkl_nodes(), g@)),
    {
        let g = GklNode {
            node: Node {
                id: gkl_id.clone(),
                node_type: node.node_type,
                level: node.level,
                content: node.content.clone(),
                metadata: Metadata {
                    parent_id: None,
                    workspace_id: None,
                    tags: copy_strings(&node.metadata.tags),
                },
                status: Status::Active,
                created_at: node.created_at,
                updated_at: node.created_at,
            },
            is_hub: false,
        };
        match self.save_node(&g) {
            Ok(_) => Ok(g),
            Err(e) => Err(e),
        }
    }
}

/// `g` is node `n` imported under id `id`.
pub open spec fn imported(n: NodeView, id: Seq<char>, g: GklNodeView) -> bool {
    &&& g.node.id == id
    &&& g.node.node_type == n.node_type
    &&& g.node.level == n.level
    &&& g.node.content == n.content
    &&& g.node.metadata.tags == n.metadata.tags
    &&& g.node.metadata.parent_id is None
    &&& g.node.metadata.workspace_id is None
    &&& g.node.status == Status::Active
    &&& g.node.created_at == n.created_at
    &&& g.node.updated_at == n.created_at
    &&& !g.is_hub
}

/// The selection used by the listings: by type (0), by level (1), L1 hubs (2), hubs (3),
/// everything (otherwise).
pub open spec fn selector(kind: u8, t: NodeType, l: Level) -> spec_fn(GklNodeView) -> bool {
    |n: GklNodeView| if kind == 0 {
        n.node.node_type == t
    } else if kind == 1 {
        n.node.level == l
    } else if kind == 2 {
        n.node.level == Level::L1 && n.is_hub
    } else if kind == 3 {
        n.is_hub
    } else {
        true
    }
}

proof fn lemma_filter_all<A>(s: Seq<A>, p: spec_fn(A) -> bool)
    requires
        forall|x: A| #[trigger] p(x),
    ensures
        s.filter(p) == s,
    decreases s.len(),
{
    reveal_with_fuel(Seq::filter, 1);
    if s.len() > 0 {
        lemma_filter_all(s.drop_last(), p);
        assert(s.drop_last().push(s.last()) =~= s);
    } else {
        assert(s.filter(p) =~= s);
    }
}

/// Whether `have` holds one of `want`.
pub(crate) fn has_any_tag(have: &Vec<String>, want: &Vec<String>) -> (b: bool)
    ensures
        b == exists|i: int| 0 <= i < want@.len() && strings_view(have@).contains(#[trigger] strings_view(want@)[i]),
{
    let mut i: usize = 0;
    while i < want.len()
        invariant
            i <= want.len(),
            forall|k: int| 0 <= k < i ==> !strings_view(have@).contains(#[trigger] strings_view(want@)[k]),
        decreases want.len() - i,
    {
        let mut j: usize = 0;
        while j < have.len()
            invariant
                i < want.len(),
                j <= have.len(),
                forall|k: int| 0 <= k < j ==> strings_view(have@)[k] != strings_view(want@)[i as int],
            decreases have.len() - j,
        {
            if same_text(have[j].as_str(), want[i].as_str()) {
                assert(strings_view(have@)[j as int] == strings_view(want@)[i as int]);
                return true;
            }
            j += 1;
        }
        i += 1;
    }
    false
}

impl super::Actor for GKLactor {
    fn name(&self) -> &'static str {
        "GKLactor"
    }

    /// The number of global nodes.
    fn size(&self) -> (r: usize)
        ensures
            r == self.gkl_nodes().len(),
    {
        self.nodes.len()
    }
}

} // verus!
