//! The memory service: the tool requests of the MCP/gRPC front end, on the memory actors,
//! in plain values. The wire messages and the server are the front end's; the names,
//! defaults, checks and actor calls of each request are here.

use vstd::prelude::*;
use crate::graph::{Graph, find_node};
use crate::graph::node::{Node, NodeId, NodeView, NodeType, Level, Status, strings_view};
use crate::graph::edge::{Edge, EdgeId, EdgeView, Relation, Confidence, Provenance};
use crate::text::same_text;
use crate::actors::workspace_manager::{WorkspaceManager, WorkspaceStatus, Workspace, workspaces_view, status_pred,
    find_ws, store_ws, ws_key, ws_index, WorkspaceView};
use crate::keyed::has_key;
use crate::text::{chars_of, string_from_chars, to_lowercase, lowercase, str_contains, is_substring};
use crate::actors::s0::{S0Actor, S0Entry, S0EntryView, pushed, newest, s0_view};
use crate::actors::l2::{L2Actor, find_edge, opt_owned_node_view, stored_form};
use crate::actors::chain::{ChainActor, ChainEntry, ChainEntryView, ChainResult, entries_view, exists_node, is_cause};
use crate::actors::forward::forward_chain;
use crate::actors::symptoms::{backward_parts, symptom_starts};
use crate::actors::search::SearchActor;
use crate::actors::trust::TrustFirewall;

verus! {

// ---------------- names on the wire ----------------

/// The wire name of a node type.
pub open spec fn node_type_text(t: NodeType) -> Seq<char> {
    match t {
        NodeType::Atom => "atom"@,
        NodeType::Cause => "cause"@,
        NodeType::Effect => "effect"@,
        NodeType::Rule => "rule"@,
        NodeType::Cluster => "cluster"@,
        NodeType::Hub => "hub"@,
        NodeType::Domain => "domain"@,
    }
}

/// The node type a wire name names, if any.
pub open spec fn node_type_named(s: Seq<char>) -> Option<NodeType> {
    if s == "atom"@ {
        Some(NodeType::Atom)
    } else if s == "cause"@ {
        Some(NodeType::Cause)
    } else if s == "effect"@ {
        Some(NodeType::Effect)
    } else if s == "rule"@ {
        Some(NodeType::Rule)
    } else if s == "cluster"@ {
        Some(NodeType::Cluster)
    } else if s == "hub"@ {
        Some(NodeType::Hub)
    } else if s == "domain"@ {
        Some(NodeType::Domain)
    } else {
        None
    }
}

/// The wire name of a level.
pub open spec fn level_text(l: Level) -> Seq<char> {
    match l {
        Level::S0 => "S0"@,
        Level::L2 => "L2"@,
        Level::L1 => "L1"@,
        Level::L0 => "L0"@,
        Level::GKL => "GKL"@,
    }
}

/// The level a wire name names: `L2`, `L1`, `L0` or `GKL`; any other name is `L2`.
pub open spec fn level_named(s: Seq<char>) -> Level {
    if s == "L1"@ {
        Level::L1
    } else if s == "L0"@ {
        Level::L0
    } else if s == "GKL"@ {
        Level::GKL
    } else {
        Level::L2
    }
}

/// The wire name of a status.
pub open spec fn status_text(s: Status) -> Seq<char> {
    match s {
        Status::Active => "active"@,
        Status::Draft => "draft"@,
        Status::Archived => "archived"@,
    }
}

/// The status a wire name names: `draft` or `archived`; any other name is active.
pub open spec fn status_named(s: Seq<char>) -> Status {
    if s == "draft"@ {
        Status::Draft
    } else if s == "archived"@ {
        Status::Archived
    } else {
        Status::Active
    }
}

/// The wire name of a relation.
pub open spec fn relation_text(r: Relation) -> Seq<char> {
    match r {
        Relation::RelatedTo => "related_to"@,
        Relation::DependsOn => "depends_on"@,
        Relation::Implements => "implements"@,
        Relation::Supersedes => "supersedes"@,
        Relation::LeadsTo => "leads_to"@,
        Relation::ExplainedBy => "explained_by"@,
        Relation::DerivedFrom => "derived_from"@,
        Relation::Inhibits => "inhibits"@,
        Relation::Contradicts => "contradicts"@,
    }
}

/// The relation a wire name names exactly, if any.
pub open spec fn relation_wire_named(s: Seq<char>) -> Option<Relation> {
    if s == "related_to"@ {
        Some(Relation::RelatedTo)
    } else if s == "depends_on"@ {
        Some(Relation::DependsOn)
    } else if s == "implements"@ {
        Some(Relation::Implements)
    } else if s == "supersedes"@ {
        Some(Relation::Supersedes)
    } else if s == "leads_to"@ {
        Some(Relation::LeadsTo)
    } else if s == "explained_by"@ {
        Some(Relation::ExplainedBy)
    } else if s == "derived_from"@ {
        Some(Relation::DerivedFrom)
    } else if s == "inhibits"@ {
        Some(Relation::Inhibits)
    } else if s == "contradicts"@ {
        Some(Relation::Contradicts)
    } else {
        None
    }
}

/// The workspace status a listing filter names: `active` or `archived`; any other name
/// lists every workspace.
pub open spec fn workspace_filter_named(s: Seq<char>) -> Option<WorkspaceStatus> {
    if s == "active"@ {
        Some(WorkspaceStatus::Active)
    } else if s == "archived"@ {
        Some(WorkspaceStatus::Archived)
    } else {
        None
    }
}

/// The wire name of a node type (see `node_type_text`).
pub fn node_type_to_proto(t: NodeType) -> (r: String)
    ensures
        r@ == node_type_text(t),
{
    match t {
        NodeType::Atom => "atom".to_owned(),
        NodeType::Cause => "cause".to_owned(),
        NodeType::Effect => "effect".to_owned(),
        NodeType::Rule => "rule".to_owned(),
        NodeType::Cluster => "cluster".to_owned(),
        NodeType::Hub => "hub".to_owned(),
        NodeType::Domain => "domain".to_owned(),
    }
}

/// The wire name of a level (see `level_text`).
pub fn level_to_proto(l: Level) -> (r: String)
    ensures
        r@ == level_text(l),
{
    match l {
        Level::S0 => "S0".to_owned(),
        Level::L2 => "L2".to_owned(),
        Level::L1 => "L1".to_owned(),
        Level::L0 => "L0".to_owned(),
        Level::GKL => "GKL".to_owned(),
    }
}

/// The wire name of a status (see `status_text`).
pub fn status_to_proto(s: Status) -> (r: String)
    ensures
        r@ == status_text(s),
{
    match s {
        Status::Active => "active".to_owned(),
        Status::Draft => "draft".to_owned(),
        Status::Archived => "archived".to_owned(),
    }
}

/// The wire name of a relation (see `relation_text`).
pub fn relation_to_proto(r: &Relation) -> (s: String)
    ensures
        s@ == relation_text(*r),
{
    match r {
        Relation::RelatedTo => "related_to".to_owned(),
        Relation::DependsOn => "depends_on".to_owned(),
        Relation::Implements => "implements".to_owned(),
        Relation::Supersedes => "supersedes".to_owned(),
        Relation::LeadsTo => "leads_to".to_owned(),
        Relation::ExplainedBy => "explained_by".to_owned(),
        Relation::DerivedFrom => "derived_from".to_owned(),
        Relation::Inhibits => "inhibits".to_owned(),
        Relation::Contradicts => "contradicts".to_owned(),
    }
}

/// The node type a wire name names (see `node_type_named`).
pub fn parse_node_type(s: &str) -> (r: Option<NodeType>)
    ensures
        r == node_type_named(s@),
{
    if same_text(s, "atom") {
        Some(NodeType::Atom)
    } else if same_text(s, "cause") {
        Some(NodeType::Cause)
    } else if same_text(s, "effect") {
        Some(NodeType::Effect)
    } else if same_text(s, "rule") {
        Some(NodeType::Rule)
    } else if same_text(s, "cluster") {
        Some(NodeType::Cluster)
    } else if same_text(s, "hub") {
        Some(NodeType::Hub)
    } else if same_text(s, "domain") {
        Some(NodeType::Domain)
    } else {
        None
    }
}

/// The level a wire name names (see `level_named`).
pub fn parse_level(s: &str) -> (r: Level)
    ensures
        r == level_named(s@),
{
    if same_text(s, "L1") {
        Level::L1
    } else if same_text(s, "L0") {
        Level::L0
    } else if same_text(s, "GKL") {
        Level::GKL
    } else {
        Level::L2
    }
}

/// The status a wire name names (see `status_named`).
pub fn parse_status_name(s: &str) -> (r: Status)
    ensures
        r == status_named(s@),
{
    if same_text(s, "draft") {
        Status::Draft
    } else if same_text(s, "archived") {
        Status::Archived
    } else {
        Status::Active
    }
}

/// The relation a wire name names (see `relation_wire_named`).
pub fn parse_relation(s: &str) -> (r: Option<Relation>)
    ensures
        r == relation_wire_named(s@),
{
    if same_text(s, "related_to") {
        Some(Relation::RelatedTo)
    } else if same_text(s, "depends_on") {
        Some(Relation::DependsOn)
    } else if same_text(s, "implements") {
        Some(Relation::Implements)
    } else if same_text(s, "supersedes") {
        Some(Relation::Supersedes)
    } else if same_text(s, "leads_to") {
        Some(Relation::LeadsTo)
    } else if same_text(s, "explained_by") {
        Some(Relation::ExplainedBy)
    } else if same_text(s, "derived_from") {
        Some(Relation::DerivedFrom)
    } else if same_text(s, "inhibits") {
        Some(Relation::Inhibits)
    } else if same_text(s, "contradicts") {
        Some(Relation::Contradicts)
    } else {
        None
    }
}

/// The workspace status a listing filter names (see `workspace_filter_named`).
pub fn parse_workspace_filter(s: &str) -> (r: Option<WorkspaceStatus>)
    ensures
        r == workspace_filter_named(s@),
{
    if same_text(s, "active") {
        Some(WorkspaceStatus::Active)
    } else if same_text(s, "archived") {
        Some(WorkspaceStatus::Archived)
    } else {
        None
    }
}

/// Reading the wire name of a node type gives the type back.
pub proof fn law_node_type_names_round_trip(t: NodeType)
    ensures
        node_type_named(node_type_text(t)) == Some(t),
{
    reveal_strlit("atom");
    reveal_strlit("cause");
    reveal_strlit("effect");
    reveal_strlit("rule");
    reveal_strlit("cluster");
    reveal_strlit("hub");
    reveal_strlit("domain");
    assert("atom"@ != "cause"@) by {
        assert("atom"@.len() != "cause"@.len());
    }
    assert("atom"@ != "effect"@) by {
        assert("atom"@.len() != "effect"@.len());
    }
    assert("atom"@ != "rule"@) by {
        assert("atom"@[0] != "rule"@[0]);
    }
    assert("atom"@ != "cluster"@) by {
        assert("atom"@.len() != "cluster"@.len());
    }
    assert("atom"@ != "hub"@) by {
        assert("atom"@.len() != "hub"@.len());
    }
    assert("atom"@ != "domain"@) by {
        assert("atom"@.len() != "domain"@.len());
    }
    assert("cause"@ != "effect"@) by {
        assert("cause"@.len() != "effect"@.len());
    }
    assert("cause"@ != "rule"@) by {
        assert("cause"@.len() != "rule"@.len());
    }
    assert("cause"@ != "cluster"@) by {
        assert("cause"@.len() != "cluster"@.len());
    }
    assert("cause"@ != "hub"@) by {
        assert("cause"@.len() != "hub"@.len());
    }
    assert("cause"@ != "domain"@) by {
        assert("cause"@.len() != "domain"@.len());
    }
    assert("effect"@ != "rule"@) by {
        assert("effect"@.len() != "rule"@.len());
    }
    assert("effect"@ != "cluster"@) by {
        assert("effect"@.len() != "cluster"@.len());
    }
    assert("effect"@ != "hub"@) by {
        assert("effect"@.len() != "hub"@.len());
    }
    assert("effect"@ != "domain"@) by {
        assert("effect"@[0] != "domain"@[0]);
    }
    assert("rule"@ != "cluster"@) by {
        assert("rule"@.len() != "cluster"@.len());
    }
    assert("rule"@ != "hub"@) by {
        assert("rule"@.len() != "hub"@.len());
    }
    assert("rule"@ != "domain"@) by {
        assert("rule"@.len() != "domain"@.len());
    }
    assert("cluster"@ != "hub"@) by {
        assert("cluster"@.len() != "hub"@.len());
    }
    assert("cluster"@ != "domain"@) by {
        assert("cluster"@.len() != "domain"@.len());
    }
    assert("hub"@ != "domain"@) by {
        assert("hub"@.len() != "domain"@.len());
    }
}

/// Reading the wire name of a relation gives the relation back.
pub proof fn law_relation_names_round_trip(r: Relation)
    ensures
        relation_wire_named(relation_text(r)) == Some(r),
{
    reveal_strlit("related_to");
    reveal_strlit("depends_on");
    reveal_strlit("implements");
    reveal_strlit("supersedes");
    reveal_strlit("leads_to");
    reveal_strlit("explained_by");
    reveal_strlit("derived_from");
    reveal_strlit("inhibits");
    reveal_strlit("contradicts");
    assert("related_to"@ != "depends_on"@) by {
        assert("related_to"@[0] != "depends_on"@[0]);
    }
    assert("related_to"@ != "implements"@) by {
        assert("related_to"@[0] != "implements"@[0]);
    }
    assert("related_to"@ != "supersedes"@) by {
        assert("related_to"@[0] != "supersedes"@[0]);
    }
    assert("related_to"@ != "leads_to"@) by {
        assert("related_to"@.len() != "leads_to"@.len());
    }
    assert("related_to"@ != "explained_by"@) by {
        assert("related_to"@.len() != "explained_by"@.len());
    }
    assert("related_to"@ != "derived_from"@) by {
        assert("related_to"@.len() != "derived_from"@.len());
    }
    assert("related_to"@ != "inhibits"@) by {
        assert("related_to"@.len() != "inhibits"@.len());
    }
    assert("related_to"@ != "contradicts"@) by {
        assert("related_to"@.len() != "contradicts"@.len());
    }
    assert("depends_on"@ != "implements"@) by {
        assert("depends_on"@[0] != "implements"@[0]);
    }
    assert("depends_on"@ != "supersedes"@) by {
        assert("depends_on"@[0] != "supersedes"@[0]);
    }
    assert("depends_on"@ != "leads_to"@) by {
        assert("depends_on"@.len() != "leads_to"@.len());
    }
    assert("depends_on"@ != "explained_by"@) by {
        assert("depends_on"@.len() != "explained_by"@.len());
    }
    assert("depends_on"@ != "derived_from"@) by {
        assert("depends_on"@.len() != "derived_from"@.len());
    }
    assert("depends_on"@ != "inhibits"@) by {
        assert("depends_on"@.len() != "inhibits"@.len());
    }
    assert("depends_on"@ != "contradicts"@) by {
        assert("depends_on"@.len() != "contradicts"@.len());
    }
    assert("implements"@ != "supersedes"@) by {
        assert("implements"@[0] != "supersedes"@[0]);
    }
    assert("implements"@ != "leads_to"@) by {
        assert("implements"@.len() != "leads_to"@.len());
    }
    assert("implements"@ != "explained_by"@) by {
        assert("implements"@.len() != "explained_by"@.len());
    }
    assert("implements"@ != "derived_from"@) by {
        assert("implements"@.len() != "derived_from"@.len());
    }
    assert("implements"@ != "inhibits"@) by {
        assert("implements"@.len() != "inhibits"@.len());
    }
    assert("implements"@ != "contradicts"@) by {
        assert("implements"@.len() != "contradicts"@.len());
    }
    assert("supersedes"@ != "leads_to"@) by {
        assert("supersedes"@.len() != "leads_to"@.len());
    }
    assert("supersedes"@ != "explained_by"@) by {
        assert("supersedes"@.len() != "explained_by"@.len());
    }
    assert("supersedes"@ != "derived_from"@) by {
        assert("supersedes"@.len() != "derived_from"@.len());
    }
    assert("supersedes"@ != "inhibits"@) by {
        assert("supersedes"@.len() != "inhibits"@.len());
    }
    assert("supersedes"@ != "contradicts"@) by {
        assert("supersedes"@.len() != "contradicts"@.len());
    }
    assert("leads_to"@ != "explained_by"@) by {
        assert("leads_to"@.len() != "explained_by"@.len());
    }
    assert("leads_to"@ != "derived_from"@) by {
        assert("leads_to"@.len() != "derived_from"@.len());
    }
    assert("leads_to"@ != "inhibits"@) by {
        assert("leads_to"@[0] != "inhibits"@[0]);
    }
    assert("leads_to"@ != "contradicts"@) by {
        assert("leads_to"@.len() != "contradicts"@.len());
    }
    assert("explained_by"@ != "derived_from"@) by {
        assert("explained_by"@[0] != "derived_from"@[0]);
    }
    assert("explained_by"@ != "inhibits"@) by {
        assert("explained_by"@.len() != "inhibits"@.len());
    }
    assert("explained_by"@ != "contradicts"@) by {
        assert("explained_by"@.len() != "contradicts"@.len());
    }
    assert("derived_from"@ != "inhibits"@) by {
        assert("derived_from"@.len() != "inhibits"@.len());
    }
    assert("derived_from"@ != "contradicts"@) by {
        assert("derived_from"@.len() != "contradicts"@.len());
    }
    assert("inhibits"@ != "contradicts"@) by {
        assert("inhibits"@.len() != "contradicts"@.len());
    }
}

/// Reading the wire name of a status gives the status back.
pub proof fn law_status_names_round_trip(s: Status)
    ensures
        status_named(status_text(s)) == s,
{
    reveal_strlit("active");
    reveal_strlit("draft");
    reveal_strlit("archived");
    assert("active"@ != "draft"@) by {
        assert("active"@.len() != "draft"@.len());
    }
    assert("active"@ != "archived"@) by {
        assert("active"@.len() != "archived"@.len());
    }
    assert("draft"@ != "archived"@) by {
        assert("draft"@.len() != "archived"@.len());
    }
}

/// Reading the wire name of a level gives the level back, but for `S0`, which is read as
/// `L2`.
pub proof fn law_level_names_round_trip(l: Level)
    ensures
        l != Level::S0 ==> level_named(level_text(l)) == l,
        level_named(level_text(Level::S0)) == Level::L2,
{
    reveal_strlit("S0");
    reveal_strlit("L2");
    reveal_strlit("L1");
    reveal_strlit("L0");
    reveal_strlit("GKL");
    assert("S0"@ != "L2"@) by {
        assert("S0"@[0] != "L2"@[0]);
    }
    assert("S0"@ != "L1"@) by {
        assert("S0"@[0] != "L1"@[0]);
    }
    assert("S0"@ != "L0"@) by {
        assert("S0"@[0] != "L0"@[0]);
    }
    assert("S0"@ != "GKL"@) by {
        assert("S0"@.len() != "GKL"@.len());
    }
    assert("L2"@ != "L1"@) by {
        assert("L2"@[1] != "L1"@[1]);
    }
    assert("L2"@ != "L0"@) by {
        assert("L2"@[1] != "L0"@[1]);
    }
    assert("L2"@ != "GKL"@) by {
        assert("L2"@.len() != "GKL"@.len());
    }
    assert("L1"@ != "L0"@) by {
        assert("L1"@[1] != "L0"@[1]);
    }
    assert("L1"@ != "GKL"@) by {
        assert("L1"@.len() != "GKL"@.len());
    }
    assert("L0"@ != "GKL"@) by {
        assert("L0"@.len() != "GKL"@.len());
    }
}

// ---------------- the service ----------------

/// Why a request is refused.
#[derive(Debug, Clone, Copy, PartialEq, Eq, Structural)]
pub enum ServiceError {
    /// The node type has no wire name of that text.
    UnknownNodeType,
    /// The relation has no wire name of that text.
    UnknownRelation,
    /// The chain direction is none of `backward`, `forward_pre`, `forward_post`,
    /// `post_mortem`.
    UnknownDirection,
    /// A backward or post-mortem chain needs an anchor (its text).
    AnchorTextRequired,
    /// A forward chain needs an anchor (its node id).
    NodeIdRequired,
    /// The node is not stored.
    NodeNotFound,
    /// The source node of a link is not stored.
    SourceNotFound,
    /// The target node of a link is not stored.
    TargetNotFound,
    /// The workspace does not exist.
    WorkspaceNotFound,
    /// A forward chain starts from a stored node that is not a cause.
    NotACause,
}

/// The class of a refusal as the RPC front end reports it.
#[derive(Debug, Clone, Copy, PartialEq, Eq, Structural)]
pub enum StatusCode {
    /// The request itself is malformed: unknown names, missing anchors.
    InvalidArgument,
    /// What the request names is not stored.
    NotFound,
    /// The request was well formed, but carrying it out failed.
    Internal,
}

/// The status class of each refusal: naming errors and missing anchors are invalid
/// arguments, absent nodes and workspaces are not found, and a forward chain from a
/// node that is not a cause is a failed traversal.
pub open spec fn status_code_of(e: ServiceError) -> StatusCode {
    match e {
        ServiceError::UnknownNodeType => StatusCode::InvalidArgument,
        ServiceError::UnknownRelation => StatusCode::InvalidArgument,
        ServiceError::UnknownDirection => StatusCode::InvalidArgument,
        ServiceError::AnchorTextRequired => StatusCode::InvalidArgument,
        ServiceError::NodeIdRequired => StatusCode::InvalidArgument,
        ServiceError::NodeNotFound => StatusCode::NotFound,
        ServiceError::SourceNotFound => StatusCode::NotFound,
        ServiceError::TargetNotFound => StatusCode::NotFound,
        ServiceError::WorkspaceNotFound => StatusCode::NotFound,
        ServiceError::NotACause => StatusCode::Internal,
    }
}

impl ServiceError {
    /// The status class of this refusal (see `status_code_of`).
    pub fn code(&self) -> (c: StatusCode)
        ensures
            c == status_code_of(*self),
    {
        match self {
            ServiceError::UnknownNodeType => StatusCode::InvalidArgument,
            ServiceError::UnknownRelation => StatusCode::InvalidArgument,
            ServiceError::UnknownDirection => StatusCode::InvalidArgument,
            ServiceError::AnchorTextRequired => StatusCode::InvalidArgument,
            ServiceError::NodeIdRequired => StatusCode::InvalidArgument,
            ServiceError::NodeNotFound => StatusCode::NotFound,
            ServiceError::SourceNotFound => StatusCode::NotFound,
            ServiceError::TargetNotFound => StatusCode::NotFound,
            ServiceError::WorkspaceNotFound => StatusCode::NotFound,
            ServiceError::NotACause => StatusCode::Internal,
        }
    }
}

/// The memory actors the tool requests run on.
pub struct MemoryServiceHandler {
    pub s0: S0Actor,
    pub l2: L2Actor,
    pub chain: ChainActor,
    pub search: SearchActor,
    pub workspace_manager: WorkspaceManager,
    pub trust_firewall: TrustFirewall,
    pub graph: Graph,
}

/// A node a proposal describes, but for its id and times: its type, and its level,
/// content, tags and status as named, with no parent and no workspace.
pub open spec fn proposed(n: NodeView, t: NodeType, level: Seq<char>, content: Seq<char>, tags: Seq<Seq<char>>,
    status: Seq<char>) -> bool {
    &&& n.node_type == t
    &&& n.level == level_named(level)
    &&& n.content == content
    &&& n.metadata.tags == tags
    &&& n.metadata.parent_id is None
    &&& n.metadata.workspace_id is None
    &&& n.status == status_named(status)
}

/// The stored nodes among `ids`, in order (missing ones are skipped).
pub open spec fn found_nodes(nodes: Seq<NodeView>, ids: Seq<Seq<char>>) -> Seq<NodeView>
    decreases ids.len(),
{
    if ids.len() == 0 {
        Seq::empty()
    } else {
        let r = found_nodes(nodes, ids.drop_last());
        match find_node(nodes, ids.last()) {
            Some(n) => r.push(n),
            None => r,
        }
    }
}

impl MemoryServiceHandler {
    /// Every actor is well formed.
    pub open spec fn wf(&self) -> bool {
        &&& self.s0.wf()
        &&& self.l2.wf()
        &&& self.search.wf()
        &&& self.workspace_manager.wf()
        &&& self.trust_firewall.wf()
        &&& self.graph.wf()
    }

    /// The actors other than S0 are those of `other`.
    pub open spec fn same_stores(&self, other: Self) -> bool {
        &&& self.l2 == other.l2
        &&& self.chain == other.chain
        &&& self.search == other.search
        &&& self.workspace_manager == other.workspace_manager
        &&& self.trust_firewall == other.trust_firewall
        &&& self.graph == other.graph
    }

    /// A service over these actors.
    pub fn new(s0: S0Actor, l2: L2Actor, chain: ChainActor, search: SearchActor, workspace_manager: WorkspaceManager,
        trust_firewall: TrustFirewall, graph: Graph) -> (h: Self)
        requires
            s0.wf(),
            l2.wf(),
            search.wf(),
            workspace_manager.wf(),
            trust_firewall.wf(),
            graph.wf(),
        ensures
            h.wf(),
            h.s0 == s0 && h.l2 == l2 && h.chain == chain && h.search == search,
            h.workspace_manager == workspace_manager && h.trust_firewall == trust_firewall && h.graph == graph,
    {
        MemoryServiceHandler { s0, l2, chain, search, workspace_manager, trust_firewall, graph }
    }

    /// Record an action in S0 under a fresh id, from source `grpc`; its id, and whether
    /// the buffer was full (so that the oldest entry left it, which calls for a
    /// consolidation).
    pub fn record_action(&mut self, summary: String) -> (r: (String, bool))
        requires
            old(self).wf(),
        ensures
            final(self).wf(),
            final(self).same_stores(*old(self)),
            final(self).s0.cap() == old(self).s0.cap(),
            final(self).s0.entries() == pushed(old(self).s0.entries(), old(self).s0.cap(), final(self).s0.entries().last()),
            final(self).s0.entries().last().id == r.0@,
            final(self).s0.entries().last().source == "grpc"@,
            final(self).s0.entries().last().summary == summary@,
            r.1 == (old(self).s0.entries().len() >= old(self).s0.cap()),
    {
        let ghost sv = summary@;
        let id = crate::clock::new_uuid();
        let t = crate::clock::now();
        let entry = S0Entry { id: id.clone(), source: "grpc".to_owned(), summary, timestamp: t };
        let evicted = self.s0.push(entry);
        (id, evicted.is_some())
    }

    /// The most recent S0 entries, newest first: `limit` of them, twenty when `limit` is
    /// not positive.
    pub fn get_s0_context(&self, limit: i32) -> (r: Vec<S0Entry>)
        ensures
            s0_view(r@) == newest(self.s0.entries(), if limit > 0 { limit as nat } else { 20 }),
    {
        let n: usize = if limit > 0 { limit as usize } else { 20 };
        self.s0.get_recent(n)
    }

    /// Flush the session: a non-empty summary is recorded in S0 from source `grpc-flush`
    /// (a forced consolidation asks for nothing more here). Always `(true, 0)`: flushed,
    /// no new L2 node.
    pub fn flush_session_memory(&mut self, force: bool, summary: String) -> (r: (bool, u32))
        requires
            old(self).wf(),
        ensures
            final(self).wf(),
            final(self).same_stores(*old(self)),
            r == (true, 0u32),
            summary@.len() == 0 ==> final(self).s0 == old(self).s0,
            summary@.len() > 0 ==> {
                &&& final(self).s0.entries() == pushed(old(self).s0.entries(), old(self).s0.cap(), final(self).s0.entries().last())
                &&& final(self).s0.entries().last().source == "grpc-flush"@
                &&& final(self).s0.entries().last().summary == summary@
            },
    {
        proof {
            reveal_strlit("");
        }
        if !same_text(summary.as_str(), "") {
            assert(summary@.len() > 0) by {
                if summary@.len() == 0 {
                    assert(summary@ =~= ""@);
                }
            }
            let id = crate::clock::new_uuid();
            let t = crate::clock::now();
            let entry = S0Entry { id, source: "grpc-flush".to_owned(), summary, timestamp: t };
            self.s0.push(entry);
        }
        (true, 0)
    }

    /// The stored nodes among `ids`, in order (see `found_nodes`).
    pub fn fetch_l2_atoms(&self, ids: &Vec<String>) -> (r: Vec<Node>)
        requires
            self.wf(),
        ensures
            crate::graph::node::nodes_view(r@) == found_nodes(self.l2.node_views(), strings_view(ids@)),
    {
        let ghost iv = strings_view(ids@);
        let mut r: Vec<Node> = Vec::new();
        let mut i: usize = 0;
        while i < ids.len()
            invariant
                self.wf(),
                i <= ids.len(),
                iv == strings_view(ids@),
                crate::graph::node::nodes_view(r@) == found_nodes(self.l2.node_views(), iv.take(i as int)),
            decreases ids.len() - i,
        {
            assert(iv.take(i + 1).drop_last() =~= iv.take(i as int));
            assert(iv.take(i + 1).last() == ids@[i as int]@);
            let id = NodeId::from_string(ids[i].clone());
            match self.l2.get_node(&id) {
                Some(n) => {
                    let ghost before = crate::graph::node::nodes_view(r@);
                    r.push(n);
                    assert(crate::graph::node::nodes_view(r@) =~= before.push(r@[r@.len() - 1]@));
                },
                None => {},
            }
            i += 1;
        }
        assert(iv.take(ids.len() as int) =~= iv);
        r
    }

    /// Store a proposed node in L2 and in the graph: of the named type (an unknown name is
    /// refused), level and status (see `level_named`, `status_named`), with the content and
    /// tags, under `id_hint` when it is not empty and a fresh id otherwise. Its id.
    pub fn propose_new_memory(&mut self, level: &str, node_type: &str, content: String, tags: Vec<String>,
        status: &str, id_hint: &str) -> (r: Result<NodeId, ServiceError>)
        requires
            old(self).wf(),
        ensures
            final(self).wf(),
            final(self).s0 == old(self).s0,
            final(self).chain == old(self).chain,
            final(self).search == old(self).search,
            final(self).workspace_manager == old(self).workspace_manager,
            final(self).trust_firewall == old(self).trust_firewall,
            match node_type_named(node_type@) {
                None => r == Err::<NodeId, ServiceError>(ServiceError::UnknownNodeType) && *final(self) == *old(self),
                Some(t) => match r {
                    Ok(id) => {
                        &&& id_hint@.len() > 0 ==> id@ == id_hint@
                        &&& find_node(final(self).l2.node_views(), id@) matches Some(n)
                            && proposed(n, t, level@, content@, strings_view(tags@), status@)
                        &&& find_node(final(self).graph.node_views(), id@) matches Some(g)
                            && proposed(g, t, level@, content@, strings_view(tags@), status@)
                        &&& forall|other: Seq<char>| other != id@ ==> find_node(final(self).l2.node_views(), other)
                            == find_node(old(self).l2.node_views(), other)
                        &&& forall|other: Seq<char>| other != id@ ==> find_node(final(self).graph.node_views(), other)
                            == find_node(old(self).graph.node_views(), other)
                        &&& final(self).l2.edge_views() == old(self).l2.edge_views()
                        &&& final(self).graph.edge_views() == old(self).graph.edge_views()
                    },
                    Err(_) => false,
                },
            },
    {
        let t = match parse_node_type(node_type) {
            Some(t) => t,
            None => return Err(ServiceError::UnknownNodeType),
        };
        proof {
            reveal_strlit("");
        }
        let id = if same_text(id_hint, "") {
            NodeId::new()
        } else {
            assert(id_hint@.len() > 0) by {
                if id_hint@.len() == 0 {
                    assert(id_hint@ =~= ""@);
                }
            }
            NodeId::from_string(id_hint.to_owned())
        };
        let mut node = Node::with_id(id.clone(), t, content).with_level(parse_level(level)).with_tags(tags);
        node.status = parse_status_name(status);
        let ghost nv = node@;
        assert(proposed(nv, t, level@, content@, nv.metadata.tags, status@));
        self.l2.add_node(&node);
        self.graph.add_node(node);
        assert(proposed(stored_form(nv), t, level@, content@, nv.metadata.tags, status@));
        Ok(id)
    }

    /// Rewrite a stored node: its content and status replaced where given, touched now;
    /// in L2 and in the graph. A node that is not stored is refused.
    fn rewrite_node(&mut self, id: &NodeId, content: Option<String>, status: Option<Status>)
        -> (r: Result<(), ServiceError>)
        requires
            old(self).wf(),
        ensures
            final(self).wf(),
            rewrite_outcome(*old(self), *final(self), id@, crate::graph::node::opt_view(content), status, r),
    {
        let mut node = match self.l2.get_node(id) {
            Some(n) => n,
            None => return Err(ServiceError::NodeNotFound),
        };
        let ghost n0 = node@;
        match content {
            Some(c) => {
                node.content = c;
            },
            None => {},
        }
        match status {
            Some(st) => {
                node.status = st;
            },
            None => {},
        }
        node.updated_at = crate::clock::now();
        let ghost e = rewritten(n0, crate::graph::node::opt_view(content), status);
        assert(node@ == (NodeView { updated_at: node@.updated_at, ..e }));
        self.l2.add_node(&node);
        self.graph.add_node(node);
        Ok(())
    }

    /// Update a stored node: a non-empty content replaces its content, a non-empty status
    /// name its status (see `status_named`). A node that is not stored is refused.
    pub fn update_node(&mut self, node_id: &str, content: String, status: &str) -> (r: Result<(), ServiceError>)
        requires
            old(self).wf(),
        ensures
            final(self).wf(),
            rewrite_outcome(*old(self), *final(self), node_id@,
                if content@.len() > 0 { Some(content@) } else { None },
                if status@.len() > 0 { Some(status_named(status@)) } else { None }, r),
    {
        proof {
            reveal_strlit("");
        }
        let c = if same_text(content.as_str(), "") {
            None
        } else {
            assert(content@.len() > 0) by {
                if content@.len() == 0 {
                    assert(content@ =~= ""@);
                }
            }
            Some(content)
        };
        let st = if same_text(status, "") {
            None
        } else {
            assert(status@.len() > 0) by {
                if status@.len() == 0 {
                    assert(status@ =~= ""@);
                }
            }
            Some(parse_status_name(status))
        };
        self.rewrite_node(&NodeId::from_string(node_id.to_owned()), c, st)
    }

    /// Archive a stored node. A node that is not stored is refused.
    pub fn archive_node(&mut self, node_id: &str) -> (r: Result<(), ServiceError>)
        requires
            old(self).wf(),
        ensures
            final(self).wf(),
            rewrite_outcome(*old(self), *final(self), node_id@, None, Some(Status::Archived), r),
    {
        self.rewrite_node(&NodeId::from_string(node_id.to_owned()), None, Some(Status::Archived))
    }

    /// Make a stored node active again. A node that is not stored is refused.
    pub fn restore_node(&mut self, node_id: &str) -> (r: Result<(), ServiceError>)
        requires
            old(self).wf(),
        ensures
            final(self).wf(),
            rewrite_outcome(*old(self), *final(self), node_id@, None, Some(Status::Active), r),
    {
        self.rewrite_node(&NodeId::from_string(node_id.to_owned()), None, Some(Status::Active))
    }

    /// Link two stored nodes by the named relation: a new manual edge, with full
    /// confidence and no workspace, in L2 and in the graph. A missing source, then a
    /// missing target, then an unknown relation name is refused. The edge's id.
    pub fn link_nodes(&mut self, source_id: &str, target_id: &str, relation: &str) -> (r: Result<EdgeId, ServiceError>)
        requires
            old(self).wf(),
        ensures
            final(self).wf(),
            final(self).s0 == old(self).s0,
            final(self).chain == old(self).chain,
            final(self).search == old(self).search,
            final(self).workspace_manager == old(self).workspace_manager,
            final(self).trust_firewall == old(self).trust_firewall,
            find_node(old(self).l2.node_views(), source_id@) is None ==>
                r == Err::<EdgeId, ServiceError>(ServiceError::SourceNotFound) && *final(self) == *old(self),
            find_node(old(self).l2.node_views(), source_id@) is Some
                && find_node(old(self).l2.node_views(), target_id@) is None ==>
                r == Err::<EdgeId, ServiceError>(ServiceError::TargetNotFound) && *final(self) == *old(self),
            find_node(old(self).l2.node_views(), source_id@) is Some
                && find_node(old(self).l2.node_views(), target_id@) is Some ==> match relation_wire_named(relation@) {
                None => r == Err::<EdgeId, ServiceError>(ServiceError::UnknownRelation) && *final(self) == *old(self),
                Some(rel) => match r {
                    Ok(id) => {
                        &&& find_edge(final(self).l2.edge_views(), id@) matches Some(e) && linked(e, source_id@, target_id@, rel)
                        &&& final(self).graph.edge_views().len() == old(self).graph.edge_views().len() + 1
                        &&& final(self).graph.edge_views().drop_last() == old(self).graph.edge_views()
                        &&& linked(final(self).graph.edge_views().last(), source_id@, target_id@, rel)
                        &&& final(self).graph.edge_views().last().id == id@
                        &&& forall|other: Seq<char>| other != id@ ==> find_edge(final(self).l2.edge_views(), other)
                            == find_edge(old(self).l2.edge_views(), other)
                        &&& final(self).l2.node_views() == old(self).l2.node_views()
                        &&& final(self).graph.node_views() == old(self).graph.node_views()
                    },
                    Err(_) => false,
                },
            },
    {
        let source = NodeId::from_string(source_id.to_owned());
        let target = NodeId::from_string(target_id.to_owned());
        if self.l2.get_node(&source).is_none() {
            return Err(ServiceError::SourceNotFound);
        }
        if self.l2.get_node(&target).is_none() {
            return Err(ServiceError::TargetNotFound);
        }
        let rel = match parse_relation(relation) {
            Some(rel) => rel,
            None => return Err(ServiceError::UnknownRelation),
        };
        let edge = Edge::new(source, target, rel);
        let id = edge.id.clone();
        let ghost ev = edge@;
        self.l2.add_edge(&edge);
        self.graph.add_edge(edge);
        assert(self.graph.edge_views().drop_last() =~= old(self).graph.edge_views());
        Ok(id)
    }
}

/// A node with its content and status replaced where given.
pub open spec fn rewritten(n: NodeView, content: Option<Seq<char>>, status: Option<Status>) -> NodeView {
    NodeView {
        content: match content {
            Some(c) => c,
            None => n.content,
        },
        status: match status {
            Some(s) => s,
            None => n.status,
        },
        ..n
    }
}

/// The outcome of rewriting node `id` (see `rewritten`): refused, with nothing changed,
/// when it is not stored; else L2 holds the rewritten node in its stored form (see
/// `stored_form`) and the graph holds it touched at some time, every other node and every
/// edge unchanged; the other actors unchanged either way.
pub open spec fn rewrite_outcome(old: MemoryServiceHandler, new: MemoryServiceHandler, id: Seq<char>,
    content: Option<Seq<char>>, status: Option<Status>, r: Result<(), ServiceError>) -> bool {
    &&& new.s0 == old.s0
    &&& new.chain == old.chain
    &&& new.search == old.search
    &&& new.workspace_manager == old.workspace_manager
    &&& new.trust_firewall == old.trust_firewall
    &&& match find_node(old.l2.node_views(), id) {
        None => r == Err::<(), ServiceError>(ServiceError::NodeNotFound) && new == old,
        Some(n) => {
            let e = rewritten(n, content, status);
            &&& r is Ok
            &&& find_node(new.l2.node_views(), id) == Some(stored_form(e))
            &&& find_node(new.graph.node_views(), id) matches Some(g) && g == (NodeView { updated_at: g.updated_at, ..e })
            &&& forall|other: Seq<char>| other != id ==> find_node(new.l2.node_views(), other)
                == find_node(old.l2.node_views(), other)
            &&& forall|other: Seq<char>| other != id ==> find_node(new.graph.node_views(), other)
                == find_node(old.graph.node_views(), other)
            &&& new.l2.edge_views() == old.l2.edge_views()
            &&& new.graph.edge_views() == old.graph.edge_views()
        },
    }
}

/// A new manual link from `source` to `target` by `rel`, with full confidence and no
/// workspace.
pub open spec fn linked(e: EdgeView, source: Seq<char>, target: Seq<char>, rel: Relation) -> bool {
    &&& e.source == source
    &&& e.target == target
    &&& e.relation == rel
    &&& e.confidence == Confidence::spec_one()
    &&& e.provenance == Provenance::Manual
    &&& e.workspace_id is None
}

// ---------------- chains ----------------

/// The anchor of a chain request: a node id and a text, as the request gives them.
pub struct ChainAnchor {
    pub id: String,
    pub text: String,
}

/// A chain traversal to run.
pub enum ChainRequest {
    /// From the effects a symptom text names back towards their causes.
    Backward { text: String, depth: usize },
    /// From a cause forward to its possible effects.
    ForwardPre { id: NodeId, depth: usize },
    /// From an action forward to its stored effects.
    ForwardPost { id: NodeId, depth: usize },
    /// From a symptom text back to its root causes, without a depth limit.
    PostMortem { text: String },
}

/// The content of a chain request.
pub enum ChainRequestView {
    Backward(Seq<char>, nat),
    ForwardPre(Seq<char>, nat),
    ForwardPost(Seq<char>, nat),
    PostMortem(Seq<char>),
}

impl View for ChainRequest {
    type V = ChainRequestView;

    open spec fn view(&self) -> ChainRequestView {
        match self {
            ChainRequest::Backward { text, depth } => ChainRequestView::Backward(text@, *depth as nat),
            ChainRequest::ForwardPre { id, depth } => ChainRequestView::ForwardPre(id@, *depth as nat),
            ChainRequest::ForwardPost { id, depth } => ChainRequestView::ForwardPost(id@, *depth as nat),
            ChainRequest::PostMortem { text } => ChainRequestView::PostMortem(text@),
        }
    }
}

/// The id and text of an anchor, if there is one.
pub open spec fn anchor_view(a: Option<&ChainAnchor>) -> Option<(Seq<char>, Seq<char>)> {
    match a {
        Some(x) => Some((x.id@, x.text@)),
        None => None,
    }
}

/// The traversal a request asks for: by its direction, from its anchor's text (backward,
/// post-mortem) or node id (forward), at most `max_depth` hops (three when it is not
/// positive). A missing anchor or an unknown direction is refused.
pub open spec fn requested_chain(direction: Seq<char>, anchor: Option<(Seq<char>, Seq<char>)>, max_depth: int)
    -> Result<ChainRequestView, ServiceError> {
    let d: nat = if max_depth > 0 { max_depth as nat } else { 3 };
    if direction == "backward"@ {
        match anchor {
            Some((_, text)) => Ok(ChainRequestView::Backward(text, d)),
            None => Err(ServiceError::AnchorTextRequired),
        }
    } else if direction == "forward_pre"@ {
        match anchor {
            Some((id, _)) => Ok(ChainRequestView::ForwardPre(id, d)),
            None => Err(ServiceError::NodeIdRequired),
        }
    } else if direction == "forward_post"@ {
        match anchor {
            Some((id, _)) => Ok(ChainRequestView::ForwardPost(id, d)),
            None => Err(ServiceError::NodeIdRequired),
        }
    } else if direction == "post_mortem"@ {
        match anchor {
            Some((_, text)) => Ok(ChainRequestView::PostMortem(text)),
            None => Err(ServiceError::AnchorTextRequired),
        }
    } else {
        Err(ServiceError::UnknownDirection)
    }
}

/// A chain request with an unknown direction or without an anchor is refused before any
/// traversal, and the refusal is an invalid argument; so is every refusal of the request
/// itself.
pub proof fn law_chain_request_refusals(direction: Seq<char>, anchor: Option<(Seq<char>, Seq<char>)>, max_depth: int)
    ensures
        (direction != "backward"@ && direction != "forward_pre"@ && direction != "forward_post"@
            && direction != "post_mortem"@) || anchor is None ==> requested_chain(direction, anchor, max_depth) is Err,
        requested_chain(direction, anchor, max_depth) matches Err(e) ==> status_code_of(e) == StatusCode::InvalidArgument,
{
}

/// The traversal a request asks for (see `requested_chain`).
pub fn chain_request(direction: &str, anchor: Option<&ChainAnchor>, max_depth: i32) -> (r: Result<ChainRequest, ServiceError>)
    ensures
        match r {
            Ok(q) => requested_chain(direction@, anchor_view(anchor), max_depth as int) == Ok::<ChainRequestView, ServiceError>(q@),
            Err(e) => requested_chain(direction@, anchor_view(anchor), max_depth as int) == Err::<ChainRequestView, ServiceError>(e),
        },
{
    let depth: usize = if max_depth > 0 { max_depth as usize } else { 3 };
    if same_text(direction, "backward") {
        match anchor {
            Some(a) => Ok(ChainRequest::Backward { text: a.text.clone(), depth }),
            None => Err(ServiceError::AnchorTextRequired),
        }
    } else if same_text(direction, "forward_pre") {
        match anchor {
            Some(a) => Ok(ChainRequest::ForwardPre { id: NodeId::from_string(a.id.clone()), depth }),
            None => Err(ServiceError::NodeIdRequired),
        }
    } else if same_text(direction, "forward_post") {
        match anchor {
            Some(a) => Ok(ChainRequest::ForwardPost { id: NodeId::from_string(a.id.clone()), depth }),
            None => Err(ServiceError::NodeIdRequired),
        }
    } else if same_text(direction, "post_mortem") {
        match anchor {
            Some(a) => Ok(ChainRequest::PostMortem { text: a.text.clone() }),
            None => Err(ServiceError::AnchorTextRequired),
        }
    } else {
        Err(ServiceError::UnknownDirection)
    }
}

/// A forward traversal from a stored node that is not a cause is refused.
pub open spec fn chain_refused(l2: L2Actor, q: ChainRequestView) -> bool {
    match q {
        ChainRequestView::ForwardPre(id, _) => exists_node(l2.node_views(), id) && !is_cause(l2.node_views(), id),
        ChainRequestView::ForwardPost(id, _) => exists_node(l2.node_views(), id) && !is_cause(l2.node_views(), id),
        _ => false,
    }
}

/// The entries of a traversal the request asks for: those of the backward traversals
/// from the effects the text names (see `backward_parts`), with no depth limit for a
/// post-mortem; those of the forward traversal from a cause (see `forward_chain`), none
/// from a node that is not stored.
pub open spec fn chain_outcome(l2: L2Actor, q: ChainRequestView, entries: Seq<ChainEntryView>) -> bool {
    match q {
        ChainRequestView::Backward(text, d) => backward_outcome(l2, text, d, entries),
        ChainRequestView::PostMortem(text) => backward_outcome(l2, text, usize::MAX as nat, entries),
        ChainRequestView::ForwardPre(id, d) => forward_outcome(l2, id, d, entries),
        ChainRequestView::ForwardPost(id, d) => forward_outcome(l2, id, d, entries),
    }
}

/// The entries of the backward traversals from the effects `text` names (see
/// `backward_parts`).
pub open spec fn backward_outcome(l2: L2Actor, text: Seq<char>, d: nat, entries: Seq<ChainEntryView>) -> bool {
    exists|rs: Seq<(Seq<ChainEntryView>, bool, bool)>, a: bool, b: bool|
        #[trigger] backward_parts(l2.node_views(), l2.edge_views(), symptom_starts(l2, text), d, rs, entries, a, b)
}

/// The entries of the forward traversal from a cause (see `forward_chain`); none from a
/// node that is not stored.
pub open spec fn forward_outcome(l2: L2Actor, id: Seq<char>, d: nat, entries: Seq<ChainEntryView>) -> bool {
    if is_cause(l2.node_views(), id) {
        exists|m: bool| #[trigger] forward_chain(l2.node_views(), l2.edge_views(), id, d, entries, m)
    } else {
        entries.len() == 0
    }
}

/// The entries of a list of entries with their nodes.
pub open spec fn entry_part(v: Seq<(ChainEntry, Option<Node>)>) -> Seq<ChainEntryView> {
    v.map_values(|p: (ChainEntry, Option<Node>)| p.0@)
}

impl MemoryServiceHandler {
    /// Run the traversal a request asks for.
    fn run_chain(&self, q: &ChainRequest) -> (r: Result<ChainResult, ServiceError>)
        requires
            self.wf(),
        ensures
            chain_refused(self.l2, q@) ==> r == Err::<ChainResult, ServiceError>(ServiceError::NotACause),
            !chain_refused(self.l2, q@) ==> (r matches Ok(res) && chain_outcome(self.l2, q@, entries_view(res.entries@))),
    {
        match q {
            ChainRequest::Backward { text, depth } => {
                let res = self.chain.chain_backward(&self.l2, text.as_str(), *depth);
                proof {
                    let starts = symptom_starts(self.l2, text@);
                    let rs = choose|rs: Seq<(Seq<ChainEntryView>, bool, bool)>| #[trigger] backward_parts(
                        self.l2.node_views(), self.l2.edge_views(), starts, *depth as nat, rs,
                        entries_view(res.entries@), res.reached_root, res.max_depth_reached);
                    assert(backward_parts(self.l2.node_views(), self.l2.edge_views(), starts, *depth as nat, rs,
                        entries_view(res.entries@), res.reached_root, res.max_depth_reached));
                    assert(backward_outcome(self.l2, text@, *depth as nat, entries_view(res.entries@)));
                }
                Ok(res)
            },
            ChainRequest::PostMortem { text } => {
                let res = self.chain.chain_post_mortem(&self.l2, text.as_str());
                proof {
                    let starts = symptom_starts(self.l2, text@);
                    let rs = choose|rs: Seq<(Seq<ChainEntryView>, bool, bool)>| #[trigger] backward_parts(
                        self.l2.node_views(), self.l2.edge_views(), starts, usize::MAX as nat, rs,
                        entries_view(res.entries@), res.reached_root, res.max_depth_reached);
                    assert(backward_parts(self.l2.node_views(), self.l2.edge_views(), starts, usize::MAX as nat, rs,
                        entries_view(res.entries@), res.reached_root, res.max_depth_reached));
                }
                Ok(res)
            },
            ChainRequest::ForwardPre { id, depth } => match self.chain.chain_forward_pre(&self.l2, id, *depth) {
                Ok(res) => {
                    proof {
                        if is_cause(self.l2.node_views(), id@) {
                            assert(forward_chain(self.l2.node_views(), self.l2.edge_views(), id@, *depth as nat,
                                entries_view(res.entries@), res.max_depth_reached));
                        }
                        if !chain_refused(self.l2, q@) {
                                }
                    }
                    Ok(res)
                },
                Err(_) => Err(ServiceError::NotACause),
            },
            ChainRequest::ForwardPost { id, depth } => match self.chain.chain_forward_post(&self.l2, id, *depth) {
                Ok(res) => {
                    proof {
                        if is_cause(self.l2.node_views(), id@) {
                            assert(forward_chain(self.l2.node_views(), self.l2.edge_views(), id@, *depth as nat,
                                entries_view(res.entries@), res.max_depth_reached));
                        }
                        if !chain_refused(self.l2, q@) {
                                }
                    }
                    Ok(res)
                },
                Err(_) => Err(ServiceError::NotACause),
            },
        }
    }

    /// The chain a request asks for (see `requested_chain`, `chain_outcome`), each entry
    /// with its stored node when there is one. Requests refused by `requested_chain` or
    /// `chain_refused` are refused.
    pub fn get_chain(&self, direction: &str, anchor: Option<&ChainAnchor>, max_depth: i32)
        -> (r: Result<Vec<(ChainEntry, Option<Node>)>, ServiceError>)
        requires
            self.wf(),
        ensures
            match requested_chain(direction@, anchor_view(anchor), max_depth as int) {
                Err(e) => r matches Err(x) && x == e,
                Ok(q) => if chain_refused(self.l2, q) {
                    r matches Err(x) && x == ServiceError::NotACause
                } else {
                    match r {
                        Ok(v) => {
                            &&& chain_outcome(self.l2, q, entry_part(v@))
                            &&& forall|i: int| 0 <= i < v@.len() ==> opt_owned_node_view(#[trigger] v@[i].1)
                                == find_node(self.l2.node_views(), v@[i].0.node_id@)
                        },
                        Err(_) => false,
                    }
                },
            },
    {
        let q = match chain_request(direction, anchor, max_depth) {
            Ok(q) => q,
            Err(e) => return Err(e),
        };
        let res = match self.run_chain(&q) {
            Ok(res) => res,
            Err(e) => return Err(e),
        };
        let mut out: Vec<(ChainEntry, Option<Node>)> = Vec::new();
        let mut i: usize = 0;
        while i < res.entries.len()
            invariant
                self.wf(),
                i <= res.entries.len(),
                entry_part(out@) == entries_view(res.entries@).take(i as int),
                forall|k: int| 0 <= k < out@.len() ==> opt_owned_node_view(#[trigger] out@[k].1)
                    == find_node(self.l2.node_views(), out@[k].0.node_id@),
            decreases res.entries.len() - i,
        {
            let e = res.entries[i].clone();
            let n = self.l2.get_node(&e.node_id);
            let ghost before = entry_part(out@);
            out.push((e, n));
            assert(entry_part(out@) =~= before.push(res.entries@[i as int]@));
            assert(entries_view(res.entries@).take(i + 1) =~= entries_view(res.entries@).take(i as int)
                .push(res.entries@[i as int]@));
            i += 1;
        }
        assert(entries_view(res.entries@).take(res.entries.len() as int) =~= entries_view(res.entries@));
        Ok(out)
    }
}

// ---------------- workspaces, consolidation, verification ----------------

/// The workspace id a bootstrap derives from a working directory: `ws_` and the
/// directory with `/` and `\\` read as `_` and `:` left out.
pub open spec fn bootstrap_id_of(cwd: Seq<char>) -> Seq<char>
    decreases cwd.len(),
{
    if cwd.len() == 0 {
        "ws_"@
    } else {
        let r = bootstrap_id_of(cwd.drop_last());
        let c = cwd.last();
        if c == '/' || c == '\\' {
            r.push('_')
        } else if c == ':' {
            r
        } else {
            r.push(c)
        }
    }
}

/// The workspace id a bootstrap derives from a working directory (see
/// `bootstrap_id_of`).
pub fn bootstrap_workspace_id(cwd: &str) -> (r: String)
    ensures
        r@ == bootstrap_id_of(cwd@),
{
    let cs = chars_of(cwd);
    let mut v: Vec<char> = Vec::new();
    v.push('w');
    v.push('s');
    v.push('_');
    proof {
        reveal_strlit("ws_");
        assert(v@ =~= "ws_"@);
    }
    let mut i: usize = 0;
    while i < cs.len()
        invariant
            i <= cs.len(),
            v@ == bootstrap_id_of(cs@.take(i as int)),
        decreases cs.len() - i,
    {
        assert(cs@.take(i + 1).drop_last() =~= cs@.take(i as int));
        let c = cs[i];
        if c == '/' || c == '\\' {
            v.push('_');
        } else if c != ':' {
            v.push(c);
        }
        i += 1;
    }
    assert(cs@.take(cs.len() as int) =~= cs@);
    string_from_chars(v.as_slice())
}

/// A verification answer matches the expected pattern: in lower case it says `да` or
/// `уверен`.
pub open spec fn answer_confirms(answer: Seq<char>) -> bool {
    is_substring(lowercase(answer), "да"@) || is_substring(lowercase(answer), "уверен"@)
}

/// Whether a verification answer matches the expected pattern (see `answer_confirms`).
pub fn compare_verification_response(actual_response: &str) -> (r: bool)
    ensures
        r == answer_confirms(actual_response@),
{
    let low = to_lowercase(actual_response);
    str_contains(low.as_str(), "да") || str_contains(low.as_str(), "уверен")
}

impl MemoryServiceHandler {
    /// Create a workspace (an empty path is no path); the first one made while none is
    /// active becomes active.
    pub fn create_workspace(&mut self, name: String, path: String) -> (w: Workspace)
        requires
            old(self).wf(),
        ensures
            final(self).wf(),
            final(self).s0 == old(self).s0 && final(self).l2 == old(self).l2 && final(self).chain == old(self).chain,
            final(self).search == old(self).search && final(self).trust_firewall == old(self).trust_firewall,
            final(self).graph == old(self).graph,
            w@.name == name@,
            w@.path == (if path@.len() == 0 { None } else { Some(path@) }),
            w@.status == WorkspaceStatus::Active,
            final(self).workspace_manager.spaces() == store_ws(old(self).workspace_manager.spaces(), w@),
            final(self).workspace_manager.active() == (if old(self).workspace_manager.active() is None {
                Some(w@.id)
            } else {
                old(self).workspace_manager.active()
            }),
    {
        proof {
            reveal_strlit("");
        }
        let p = if same_text(path.as_str(), "") {
            None
        } else {
            assert(path@.len() > 0) by {
                if path@.len() == 0 {
                    assert(path@ =~= ""@);
                }
            }
            Some(path)
        };
        self.workspace_manager.create_workspace(name, p)
    }

    /// Make a workspace active. A workspace that does not exist is refused.
    pub fn switch_workspace(&mut self, workspace_id: &str) -> (r: Result<(), ServiceError>)
        requires
            old(self).wf(),
        ensures
            final(self).wf(),
            final(self).s0 == old(self).s0 && final(self).l2 == old(self).l2 && final(self).chain == old(self).chain,
            final(self).search == old(self).search && final(self).trust_firewall == old(self).trust_firewall,
            final(self).graph == old(self).graph,
            final(self).workspace_manager.spaces() == old(self).workspace_manager.spaces(),
            has_key(old(self).workspace_manager.spaces(), ws_key(), workspace_id@) ==> r is Ok
                && final(self).workspace_manager.active() == Some(workspace_id@),
            !has_key(old(self).workspace_manager.spaces(), ws_key(), workspace_id@) ==>
                r == Err::<(), ServiceError>(ServiceError::WorkspaceNotFound)
                && final(self).workspace_manager.active() == old(self).workspace_manager.active(),
    {
        if self.workspace_manager.switch_workspace(workspace_id) {
            Ok(())
        } else {
            Err(ServiceError::WorkspaceNotFound)
        }
    }

    /// Archive a workspace (see `WorkspaceManager::archive_workspace`). A workspace that
    /// does not exist is refused.
    pub fn archive_workspace(&mut self, workspace_id: &str) -> (r: Result<(), ServiceError>)
        requires
            old(self).wf(),
        ensures
            final(self).wf(),
            final(self).s0 == old(self).s0 && final(self).l2 == old(self).l2 && final(self).chain == old(self).chain,
            final(self).search == old(self).search && final(self).trust_firewall == old(self).trust_firewall,
            final(self).graph == old(self).graph,
            (r is Ok) == has_key(old(self).workspace_manager.spaces(), ws_key(), workspace_id@),
            r is Err ==> r == Err::<(), ServiceError>(ServiceError::WorkspaceNotFound)
                && final(self).workspace_manager.spaces() == old(self).workspace_manager.spaces()
                && final(self).workspace_manager.active() == old(self).workspace_manager.active(),
            r is Ok ==> exists|w: WorkspaceView| w == (WorkspaceView { status: WorkspaceStatus::Archived,
                updated_at: w.updated_at, ..old(self).workspace_manager.spaces()[ws_index(old(self).workspace_manager.spaces(),
                workspace_id@)] }) && #[trigger] final(self).workspace_manager.spaces() == store_ws(
                old(self).workspace_manager.spaces(), w),
            r is Ok ==> final(self).workspace_manager.active() == (if old(self).workspace_manager.active()
                == Some(workspace_id@) { None } else { old(self).workspace_manager.active() }),
    {
        if self.workspace_manager.archive_workspace(workspace_id) {
            Ok(())
        } else {
            Err(ServiceError::WorkspaceNotFound)
        }
    }

    /// The workspaces with the status the filter names (all of them for another name),
    /// in creation order.
    pub fn list_workspaces(&self, status: &str) -> (r: Vec<Workspace>)
        ensures
            workspaces_view(r@) == self.workspace_manager.spaces().filter(status_pred(workspace_filter_named(status@))),
    {
        self.workspace_manager.list_workspaces(parse_workspace_filter(status))
    }

    /// Nodes and edges fetched from another workspace: none yet, for a workspace that
    /// exists. A workspace that does not exist is refused.
    pub fn fetch_from_workspace(&self, workspace_id: &str) -> (r: Result<(Vec<Node>, Vec<Edge>), ServiceError>)
        requires
            self.wf(),
        ensures
            find_ws(self.workspace_manager.spaces(), workspace_id@) is Some ==> (r matches Ok(p) && p.0@.len() == 0
                && p.1@.len() == 0),
            find_ws(self.workspace_manager.spaces(), workspace_id@) is None ==> (r matches Err(e)
                && e == ServiceError::WorkspaceNotFound),
    {
        match self.workspace_manager.get_workspace(workspace_id) {
            Some(_) => Ok((Vec::new(), Vec::new())),
            None => Err(ServiceError::WorkspaceNotFound),
        }
    }

    /// Links suggested between two workspaces: none yet, when both exist. A missing
    /// workspace is refused.
    pub fn suggest_cross_workspace_links(&self, from_workspace_id: &str, to_workspace_id: &str)
        -> (r: Result<Vec<(NodeId, NodeId)>, ServiceError>)
        requires
            self.wf(),
        ensures
            (find_ws(self.workspace_manager.spaces(), from_workspace_id@) is Some
                && find_ws(self.workspace_manager.spaces(), to_workspace_id@) is Some) ==> (r matches Ok(v) && v@.len() == 0),
            !(find_ws(self.workspace_manager.spaces(), from_workspace_id@) is Some
                && find_ws(self.workspace_manager.spaces(), to_workspace_id@) is Some) ==> (r matches Err(e)
                && e == ServiceError::WorkspaceNotFound),
    {
        let from = self.workspace_manager.get_workspace(from_workspace_id);
        let to = self.workspace_manager.get_workspace(to_workspace_id);
        if from.is_some() && to.is_some() {
            Ok(Vec::new())
        } else {
            Err(ServiceError::WorkspaceNotFound)
        }
    }

    /// Consolidate S0 into L2: each of the (at most one hundred) most recent S0 entries
    /// becomes a new atom with its summary as content, in L2 and in the graph. Whether
    /// there was anything to consolidate, and how many atoms were added.
    pub fn consolidate_workspace(&mut self, force: bool) -> (r: (bool, usize))
        requires
            old(self).wf(),
        ensures
            final(self).wf(),
            final(self).s0 == old(self).s0 && final(self).chain == old(self).chain,
            final(self).search == old(self).search && final(self).trust_firewall == old(self).trust_firewall,
            final(self).workspace_manager == old(self).workspace_manager,
            final(self).l2.edge_views() == old(self).l2.edge_views(),
            final(self).graph.edge_views() == old(self).graph.edge_views(),
            r.1 == newest(old(self).s0.entries(), 100).len(),
            r.0 == (r.1 > 0),
            r.1 == 0 ==> *final(self) == *old(self),
    {
        let entries = self.s0.get_recent(100);
        if entries.len() == 0 {
            return (false, 0);
        }
        let mut count: usize = 0;
        let mut i: usize = 0;
        while i < entries.len()
            invariant
                self.wf(),
                i <= entries.len(),
                count == i,
                self.s0 == old(self).s0 && self.chain == old(self).chain,
                self.search == old(self).search && self.trust_firewall == old(self).trust_firewall,
                self.workspace_manager == old(self).workspace_manager,
                self.l2.edge_views() == old(self).l2.edge_views(),
                self.graph.edge_views() == old(self).graph.edge_views(),
            decreases entries.len() - i,
        {
            let node = Node::new(NodeType::Atom, entries[i].summary.clone());
            self.l2.add_node(&node);
            self.graph.add_node(node);
            count += 1;
            i += 1;
        }
        proof {
            assert(s0_view(entries@).len() == entries@.len());
        }
        (true, count)
    }

    /// Close a verification: the user's reputation records a correct claim.
    pub fn finalize_verification(&mut self, user_id: &str)
        requires
            old(self).wf(),
        ensures
            final(self).wf(),
            final(self).s0 == old(self).s0 && final(self).l2 == old(self).l2 && final(self).chain == old(self).chain,
            final(self).search == old(self).search && final(self).graph == old(self).graph,
            final(self).workspace_manager == old(self).workspace_manager,
            final(self).trust_firewall.counts() == old(self).trust_firewall.counts(),
            crate::keyed::find_by_key(final(self).trust_firewall.reps(), crate::actors::trust::rep_key(), user_id@)
                == Some(crate::actors::trust::recorded(crate::keyed::find_by_key(old(self).trust_firewall.reps(),
                    crate::actors::trust::rep_key(), user_id@), user_id@, true)),
            forall|other: Seq<char>| other != user_id@ ==> crate::keyed::find_by_key(final(self).trust_firewall.reps(),
                crate::actors::trust::rep_key(), other) == crate::keyed::find_by_key(old(self).trust_firewall.reps(),
                crate::actors::trust::rep_key(), other),
    {
        self.trust_firewall.update_reputation(user_id, true);
    }
}

// ---------------- nodes on the wire ----------------

/// A node as the tool responses carry it.
pub struct WireNode {
    pub id: String,
    pub node_type: String,
    pub content: String,
    pub level: String,
    pub scope: String,
    pub status: String,
    pub tags: Vec<String>,
    pub summary: String,
    pub parent_id: String,
    pub created_at: i64,
    pub updated_at: i64,
}

/// A node on the wire: its id, the wire names of its type, level and status, its content
/// and tags, its workspace as parent (empty without one), its times in whole seconds,
/// and an empty scope and summary.
pub fn proto_node_from_graph_node(node: &Node) -> (r: WireNode)
    ensures
        r.id@ == node.id@,
        r.node_type@ == node_type_text(node.node_type),
        r.content@ == node.content@,
        r.level@ == level_text(node.level),
        r.scope@.len() == 0,
        r.status@ == status_text(node.status),
        strings_view(r.tags@) == strings_view(node.metadata.tags@),
        r.summary@.len() == 0,
        r.parent_id@ == (match node.metadata@.workspace_id {
            Some(w) => w,
            None => Seq::<char>::empty(),
        }),
        r.created_at == node.created_at.secs,
        r.updated_at == node.updated_at.secs,
{
    proof {
        reveal_strlit("");
    }
    WireNode {
        id: node.id.0.clone(),
        node_type: node_type_to_proto(node.node_type),
        content: node.content.clone(),
        level: level_to_proto(node.level),
        scope: "".to_owned(),
        status: status_to_proto(node.status),
        tags: crate::graph::node::copy_strings(&node.metadata.tags),
        summary: "".to_owned(),
        parent_id: match &node.metadata.workspace_id {
            Some(w) => w.clone(),
            None => "".to_owned(),
        },
        created_at: node.created_at.secs,
        updated_at: node.updated_at.secs,
    }
}

} // verus!
