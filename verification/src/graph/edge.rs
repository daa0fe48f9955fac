//! Edge: a directed link between two nodes.

use vstd::prelude::*;
use crate::clock::{Timestamp, now, new_uuid};
use super::node::{NodeId, opt_view, copy_opt};

verus! {

/// Unique edge identifier.
#[derive(Debug, PartialEq, Eq, Hash)]
pub struct EdgeId(pub String);

impl View for EdgeId {
    type V = Seq<char>;

    open spec fn view(&self) -> Seq<char> {
        self.0@
    }
}

impl Clone for EdgeId {
    fn clone(&self) -> (r: Self)
        ensures
            r == *self,
    {
        EdgeId(self.0.clone())
    }
}

impl EdgeId {
    /// A fresh random identifier (a UUID v4 in text form).
    pub fn new() -> (r: Self) {
        EdgeId(new_uuid())
    }

    /// Whether two identifiers have the same text.
    pub fn same(&self, other: &EdgeId) -> (b: bool)
        ensures
            b == (self@ == other@),
    {
        self.0 == other.0
    }
}

impl Default for EdgeId {
    fn default() -> (r: Self) {
        Self::new()
    }
}

/// Relation type: the kind of (causal) link.
#[derive(Debug, Clone, Copy, PartialEq, Eq, Hash, Structural)]
pub enum Relation {
    /// A general link.
    RelatedTo,
    /// Cause -> effect.
    LeadsTo,
    /// Effect -> cause.
    ExplainedBy,
    /// Rule -> cause or effect.
    DerivedFrom,
    /// A dependency.
    DependsOn,
    /// Blocks.
    Inhibits,
    /// Conflicts with.
    Contradicts,
    /// Implements.
    Implements,
    /// Replaces.
    Supersedes,
}

/// Provenance: where a link comes from.
#[derive(Debug, Clone, Copy, PartialEq, Eq, Hash, Structural)]
pub enum Provenance {
    /// Created explicitly by a user or an agent.
    Manual,
    /// Proposed by the causal engine.
    Inferred,
    /// Created while aggregating L2 into L1.
    DerivedFromConsolidation,
}

impl Default for Provenance {
    fn default() -> (r: Self)
        ensures
            r == Provenance::Manual,
    {
        Provenance::Manual
    }
}

/// The confidence of an edge, a number in [0, 1], held as the bit pattern of an IEEE-754
/// single-precision value. The library carries it without computing with it.
#[derive(Debug, Clone, Copy, PartialEq, Eq, Hash, Structural)]
pub struct Confidence {
    pub bits: u32,
}

impl Confidence {
    /// Full confidence (1.0).
    pub open spec fn spec_one() -> Confidence {
        Confidence { bits: 0x3F80_0000 }
    }

    /// Full confidence (1.0).
    pub fn one() -> (c: Confidence)
        ensures
            c == Self::spec_one(),
    {
        Confidence { bits: 0x3F80_0000 }
    }
}

/// A directed link between two nodes. `workspace_id` ties the edge to a storage
/// partition, so that traversals can stay inside the active workspace.
#[derive(Debug)]
pub struct Edge {
    pub id: EdgeId,
    pub source: NodeId,
    pub target: NodeId,
    pub relation: Relation,
    pub confidence: Confidence,
    pub provenance: Provenance,
    pub workspace_id: Option<String>,
    pub created_at: Timestamp,
}

/// The mathematical content of an `Edge`.
pub struct EdgeView {
    pub id: Seq<char>,
    pub source: Seq<char>,
    pub target: Seq<char>,
    pub relation: Relation,
    pub confidence: Confidence,
    pub provenance: Provenance,
    pub workspace_id: Option<Seq<char>>,
    pub created_at: Timestamp,
}

impl View for Edge {
    type V = EdgeView;

    open spec fn view(&self) -> EdgeView {
        EdgeView {
            id: self.id@,
            source: self.source@,
            target: self.target@,
            relation: self.relation,
            confidence: self.confidence,
            provenance: self.provenance,
            workspace_id: opt_view(self.workspace_id),
            created_at: self.created_at,
        }
    }
}

impl Clone for Edge {
    fn clone(&self) -> (r: Self)
        ensures
            r@ == self@,
    {
        Edge {
            id: self.id.clone(),
            source: self.source.clone(),
            target: self.target.clone(),
            relation: self.relation,
            confidence: self.confidence,
            provenance: self.provenance,
            workspace_id: copy_opt(&self.workspace_id),
            created_at: self.created_at,
        }
    }
}

/// The views of a list of edges.
pub open spec fn edges_view(v: Seq<Edge>) -> Seq<EdgeView> {
    v.map_values(|e: Edge| e@)
}

impl Edge {
    /// A new manual edge with a fresh random id, full confidence, no workspace, created now.
    pub fn new(source: NodeId, target: NodeId, relation: Relation) -> (r: Self)
        ensures
            r.source@ == source@,
            r.target@ == target@,
            r.relation == relation,
            r.confidence == Confidence::spec_one(),
            r.provenance == Provenance::Manual,
            r.workspace_id is None,
    {
        Edge {
            id: EdgeId::new(),
            source,
            target,
            relation,
            confidence: Confidence::one(),
            provenance: Provenance::Manual,
            workspace_id: None,
            created_at: now(),
        }
    }

    /// The same edge with `provenance`.
    pub fn with_provenance(self, provenance: Provenance) -> (r: Self)
        ensures
            r@ == (EdgeView { provenance, ..self@ }),
    {
        let mut e = self;
        e.provenance = provenance;
        e
    }

    /// The same edge bound to workspace `workspace_id`.
    pub fn with_workspace(self, workspace_id: String) -> (r: Self)
        ensures
            r@ == (EdgeView { workspace_id: Some(workspace_id@), ..self@ }),
    {
        let mut e = self;
        e.workspace_id = Some(workspace_id);
        e
    }
}

} // verus!
