//! Node: the basic block of the memory graph.

use vstd::prelude::*;
use crate::clock::{Timestamp, now, new_uuid};

verus! {

/// Unique node identifier.
#[derive(Debug, PartialEq, Eq, Hash)]
pub struct NodeId(pub String);

impl View for NodeId {
    type V = Seq<char>;

    open spec fn view(&self) -> Seq<char> {
        self.0@
    }
}

impl Clone for NodeId {
    fn clone(&self) -> (r: Self)
        ensures
            r == *self,
    {
        NodeId(self.0.clone())
    }
}

impl NodeId {
    /// A fresh random identifier (a UUID v4 in text form).
    pub fn new() -> (r: Self) {
        NodeId(new_uuid())
    }

    /// An identifier with the given text.
    pub fn from_string(s: String) -> (r: Self)
        ensures
            r@ == s@,
    {
        NodeId(s)
    }

    /// Whether two identifiers have the same text.
    pub fn same(&self, other: &NodeId) -> (b: bool)
        ensures
            b == (self@ == other@),
    {
        self.0 == other.0
    }

    /// The identifier's text, copied.
    pub fn text(&self) -> (s: String)
        ensures
            s@ == self@,
    {
        self.0.clone()
    }
}

impl Default for NodeId {
    fn default() -> (r: Self) {
        Self::new()
    }
}

/// Node type: the meaning of a node.
#[derive(Debug, Clone, Copy, PartialEq, Eq, Hash, Structural)]
pub enum NodeType {
    /// L2: a basic fact.
    Atom,
    /// L2: a cause.
    Cause,
    /// L2: an effect.
    Effect,
    /// L2: a rule (if -> then).
    Rule,
    /// L0: a grouping of domains.
    Cluster,
    /// L0: an aggregator of clusters.
    Hub,
    /// L1: a domain generated from L2 atoms.
    Domain,
}

/// Level: the memory hierarchy.
#[derive(Debug, Clone, Copy, PartialEq, Eq, Hash, Structural)]
pub enum Level {
    /// Short-term (about 20 actions, ephemeral).
    S0,
    /// Hubs and clusters.
    L0,
    /// Domains.
    L1,
    /// Atoms, causes, effects, rules.
    L2,
    /// Global cross-workspace memory.
    GKL,
}

/// Status: the life cycle of a node.
#[derive(Debug, Clone, Copy, PartialEq, Eq, Hash, Structural)]
pub enum Status {
    Active,
    Draft,
    Archived,
}

impl Default for Status {
    fn default() -> (r: Self)
        ensures
            r == Status::Active,
    {
        Status::Active
    }
}

impl Default for Level {
    fn default() -> (r: Self)
        ensures
            r == Level::L2,
    {
        Level::L2
    }
}

/// The text of an optional string.
pub open spec fn opt_view(o: Option<String>) -> Option<Seq<char>> {
    match o {
        Some(s) => Some(s@),
        None => None,
    }
}

/// The texts of a list of strings.
pub open spec fn strings_view(v: Seq<String>) -> Seq<Seq<char>> {
    v.map_values(|s: String| s@)
}

/// A copy of an optional string.
pub fn copy_opt(o: &Option<String>) -> (r: Option<String>)
    ensures
        opt_view(r) == opt_view(*o),
{
    match o {
        Some(s) => Some(s.clone()),
        None => None,
    }
}

/// A copy of a list of strings.
pub fn copy_strings(v: &Vec<String>) -> (r: Vec<String>)
    ensures
        strings_view(r@) == strings_view(v@),
{
    let mut r: Vec<String> = Vec::new();
    let mut i: usize = 0;
    while i < v.len()
        invariant
            i <= v.len(),
            r@.len() == i,
            forall|k: int| 0 <= k < i ==> #[trigger] r@[k]@ == v@[k]@,
        decreases v.len() - i,
    {
        r.push(v[i].clone());
        i += 1;
    }
    assert(strings_view(r@) =~= strings_view(v@));
    r
}

/// Extra node data. Two orthogonal dimensions: `parent_id` is the parent in the cluster
/// hierarchy (L0 -> L1 -> L2), `workspace_id` the storage partition the node lives in.
#[derive(Debug, Default)]
pub struct Metadata {
    pub tags: Vec<String>,
    pub parent_id: Option<String>,
    pub workspace_id: Option<String>,
}

/// The mathematical content of a `Metadata`.
pub struct MetadataView {
    pub tags: Seq<Seq<char>>,
    pub parent_id: Option<Seq<char>>,
    pub workspace_id: Option<Seq<char>>,
}

impl View for Metadata {
    type V = MetadataView;

    open spec fn view(&self) -> MetadataView {
        MetadataView {
            tags: strings_view(self.tags@),
            parent_id: opt_view(self.parent_id),
            workspace_id: opt_view(self.workspace_id),
        }
    }
}

impl Clone for Metadata {
    fn clone(&self) -> (r: Self)
        ensures
            r@ == self@,
    {
        Metadata {
            tags: copy_strings(&self.tags),
            parent_id: copy_opt(&self.parent_id),
            workspace_id: copy_opt(&self.workspace_id),
        }
    }
}

/// A node of the memory graph.
#[derive(Debug)]
pub struct Node {
    pub id: NodeId,
    pub node_type: NodeType,
    pub level: Level,
    pub content: String,
    pub metadata: Metadata,
    pub status: Status,
    pub created_at: Timestamp,
    pub updated_at: Timestamp,
}

/// The mathematical content of a `Node`.
pub struct NodeView {
    pub id: Seq<char>,
    pub node_type: NodeType,
    pub level: Level,
    pub content: Seq<char>,
    pub metadata: MetadataView,
    pub status: Status,
    pub created_at: Timestamp,
    pub updated_at: Timestamp,
}

impl View for Node {
    type V = NodeView;

    open spec fn view(&self) -> NodeView {
        NodeView {
            id: self.id@,
            node_type: self.node_type,
            level: self.level,
            content: self.content@,
            metadata: self.metadata@,
            status: self.status,
            created_at: self.created_at,
            updated_at: self.updated_at,
        }
    }
}

impl Clone for Node {
    fn clone(&self) -> (r: Self)
        ensures
            r@ == self@,
    {
        Node {
            id: self.id.clone(),
            node_type: self.node_type,
            level: self.level,
            content: self.content.clone(),
            metadata: self.metadata.clone(),
            status: self.status,
            created_at: self.created_at,
            updated_at: self.updated_at,
        }
    }
}

/// The views of a list of nodes.
pub open spec fn nodes_view(v: Seq<Node>) -> Seq<NodeView> {
    v.map_values(|n: Node| n@)
}

impl Node {
    /// A new L2, active node with a fresh random id, empty metadata, and both timestamps
    /// set to the current time.
    pub fn new(node_type: NodeType, content: String) -> (r: Self)
        ensures
            r.node_type == node_type,
            r.level == Level::L2,
            r.content@ == content@,
            r.metadata@.tags.len() == 0,
            r.metadata@.parent_id is None,
            r.metadata@.workspace_id is None,
            r.status == Status::Active,
            r.created_at == r.updated_at,
    {
        let t = now();
        Node {
            id: NodeId::new(),
            node_type,
            level: Level::L2,
            content,
            metadata: Metadata { tags: Vec::new(), parent_id: None, workspace_id: None },
            status: Status::Active,
            created_at: t,
            updated_at: t,
        }
    }

    /// A new L2, active node with the given id (for deterministic ids such as `gkl_L2_*`).
    pub fn with_id(id: NodeId, node_type: NodeType, content: String) -> (r: Self)
        ensures
            r.id@ == id@,
            r.node_type == node_type,
            r.level == Level::L2,
            r.content@ == content@,
            r.metadata@.tags.len() == 0,
            r.metadata@.parent_id is None,
            r.metadata@.workspace_id is None,
            r.status == Status::Active,
            r.created_at == r.updated_at,
    {
        let t = now();
        Node {
            id,
            node_type,
            level: Level::L2,
            content,
            metadata: Metadata { tags: Vec::new(), parent_id: None, workspace_id: None },
            status: Status::Active,
            created_at: t,
            updated_at: t,
        }
    }

    /// The same node at `level`.
    pub fn with_level(self, level: Level) -> (r: Self)
        ensures
            r@ == (NodeView { level, ..self@ }),
    {
        let mut n = self;
        n.level = level;
        n
    }

    /// The same node with `tags`.
    pub fn with_tags(self, tags: Vec<String>) -> (r: Self)
        ensures
            r@ == (NodeView { metadata: MetadataView { tags: strings_view(tags@), ..self@.metadata }, ..self@ }),
    {
        let mut n = self;
        n.metadata.tags = tags;
        n
    }

    /// The same node placed in workspace `workspace_id` (storage partition).
    pub fn with_workspace(self, workspace_id: String) -> (r: Self)
        ensures
            r@ == (NodeView { metadata: MetadataView { workspace_id: Some(workspace_id@), ..self@.metadata }, ..self@ }),
    {
        let mut n = self;
        n.metadata.workspace_id = Some(workspace_id);
        n
    }

    /// The same node under cluster parent `parent_id` (L0 -> L1 -> L2 hierarchy);
    /// independent of the workspace.
    pub fn with_parent(self, parent_id: String) -> (r: Self)
        ensures
            r@ == (NodeView { metadata: MetadataView { parent_id: Some(parent_id@), ..self@.metadata }, ..self@ }),
    {
        let mut n = self;
        n.metadata.parent_id = Some(parent_id);
        n
    }
}

/// The durable form of a `Node`: status and `updated_at` are run-time data and are
/// not kept; the level is always L2 when read back.
#[derive(Debug)]
pub struct StoredNode {
    pub id: NodeId,
    pub node_type: NodeType,
    pub content: String,
    pub parent_id: Option<String>,
    pub workspace_id: Option<String>,
    pub tags: Vec<String>,
    pub created_at: Timestamp,
}

impl StoredNode {
    /// The durable fields of `n`.
    pub fn from_node(n: &Node) -> (r: Self)
        ensures
            r.id@ == n.id@,
            r.node_type == n.node_type,
            r.content@ == n.content@,
            opt_view(r.parent_id) == n.metadata@.parent_id,
            opt_view(r.workspace_id) == n.metadata@.workspace_id,
            strings_view(r.tags@) == n.metadata@.tags,
            r.created_at == n.created_at,
    {
        StoredNode {
            id: n.id.clone(),
            node_type: n.node_type,
            content: n.content.clone(),
            parent_id: copy_opt(&n.metadata.parent_id),
            workspace_id: copy_opt(&n.metadata.workspace_id),
            tags: copy_strings(&n.metadata.tags),
            created_at: n.created_at,
        }
    }

    /// The node read back from its durable form: level L2, status Active, and
    /// `updated_at` set to the time of reading.
    pub fn into_node(self) -> (r: Node)
        ensures
            r.id@ == self.id@,
            r.node_type == self.node_type,
            r.level == Level::L2,
            r.content@ == self.content@,
            r.metadata@.parent_id == opt_view(self.parent_id),
            r.metadata@.workspace_id == opt_view(self.workspace_id),
            r.metadata@.tags == strings_view(self.tags@),
            r.status == Status::Active,
            r.created_at == self.created_at,
    {
        let t = now();
        Node {
            id: self.id,
            node_type: self.node_type,
            level: Level::L2,
            content: self.content,
            metadata: Metadata { tags: self.tags, parent_id: self.parent_id, workspace_id: self.workspace_id },
            status: Status::Active,
            created_at: self.created_at,
            updated_at: t,
        }
    }
}

} // verus!
