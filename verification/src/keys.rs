//! The key space of the persistent store: where each node, edge and index entry of the
//! memory tiers and of the plans is kept.

use vstd::prelude::*;
use crate::graph::node::{NodeId, NodeType, Level};
use crate::graph::edge::EdgeId;
use crate::actors::plan_actor::{PlanStatus, status_name, status_text};

verus! {

/// The key of a stored node.
pub open spec fn node_key_of(id: Seq<char>) -> Seq<char> {
    "node:"@ + id
}

/// The key of a stored edge.
pub open spec fn edge_key_of(id: Seq<char>) -> Seq<char> {
    "edge:"@ + id
}

/// The key of the index entry of a node under its parent.
pub open spec fn parent_key_of(parent: Seq<char>, id: Seq<char>) -> Seq<char> {
    "nodeidx:by_parent:"@ + parent + ":"@ + id
}

/// The name of a node type in index keys.
pub open spec fn type_key_name(t: NodeType) -> Seq<char> {
    match t {
        NodeType::Atom => "atom"@,
        NodeType::Cause => "cause"@,
        NodeType::Effect => "effect"@,
        NodeType::Rule => "rule"@,
        NodeType::Cluster => "cluster"@,
        NodeType::Hub => "hub"@,
        NodeType::Domain => "domain"@,
    }
}

/// The name of a level in index keys.
pub open spec fn level_key_name(l: Level) -> Seq<char> {
    match l {
        Level::S0 => "s0"@,
        Level::L0 => "l0"@,
        Level::L1 => "l1"@,
        Level::L2 => "l2"@,
        Level::GKL => "gkl"@,
    }
}

/// The key of the index entry of a node under its type (for the L1 domains, the L0
/// clusters and hubs: their own type).
pub open spec fn type_key_of(t: NodeType, id: Seq<char>) -> Seq<char> {
    "nodeidx:by_type:"@ + type_key_name(t) + ":"@ + id
}

/// The key of the index entry of a node under its level.
pub open spec fn level_key_of(l: Level, id: Seq<char>) -> Seq<char> {
    "nodeidx:by_level:"@ + level_key_name(l) + ":"@ + id
}

/// The key of the index entry of a plan under its status.
pub open spec fn status_key_of(s: PlanStatus, id: Seq<char>) -> Seq<char> {
    "plan:index:by_status:"@ + status_text(s) + ":"@ + id
}

/// `a + b` as one text.
fn joined2(a: &str, b: &str) -> (r: String)
    ensures
        r@ == a@ + b@,
{
    let mut s = a.to_owned();
    s.append(b);
    s
}

/// `a + b + ":" + c` as one text.
fn joined_colon(a: &str, b: &str, c: &str) -> (r: String)
    ensures
        r@ == a@ + b@ + ":"@ + c@,
{
    let mut s = a.to_owned();
    s.append(b);
    s.append(":");
    s.append(c);
    s
}

/// The key of a stored node (see `node_key_of`).
pub fn node_key(id: &NodeId) -> (r: String)
    ensures
        r@ == node_key_of(id@),
{
    joined2("node:", id.0.as_str())
}

/// The key of a stored edge (see `edge_key_of`).
pub fn edge_key(id: &EdgeId) -> (r: String)
    ensures
        r@ == edge_key_of(id@),
{
    joined2("edge:", id.0.as_str())
}

/// The key of the index entry of a node under its parent (see `parent_key_of`).
pub fn node_by_parent_key(parent: &str, id: &NodeId) -> (r: String)
    ensures
        r@ == parent_key_of(parent@, id@),
{
    joined_colon("nodeidx:by_parent:", parent, id.0.as_str())
}

/// The name of a node type in index keys (see `type_key_name`).
pub fn node_type_name(t: NodeType) -> (r: &'static str)
    ensures
        r@ == type_key_name(t),
{
    match t {
        NodeType::Atom => "atom",
        NodeType::Cause => "cause",
        NodeType::Effect => "effect",
        NodeType::Rule => "rule",
        NodeType::Cluster => "cluster",
        NodeType::Hub => "hub",
        NodeType::Domain => "domain",
    }
}

/// The name of a level in index keys (see `level_key_name`).
pub fn level_name(l: Level) -> (r: &'static str)
    ensures
        r@ == level_key_name(l),
{
    match l {
        Level::S0 => "s0",
        Level::L0 => "l0",
        Level::L1 => "l1",
        Level::L2 => "l2",
        Level::GKL => "gkl",
    }
}

/// The key of the index entry of a node under its type (see `type_key_of`).
pub fn node_by_type_key(node_type: NodeType, id: &NodeId) -> (r: String)
    ensures
        r@ == type_key_of(node_type, id@),
{
    joined_colon("nodeidx:by_type:", node_type_name(node_type), id.0.as_str())
}

/// The key of the index entry of a node under its level (see `level_key_of`).
pub fn node_by_level_key(level: Level, id: &NodeId) -> (r: String)
    ensures
        r@ == level_key_of(level, id@),
{
    joined_colon("nodeidx:by_level:", level_name(level), id.0.as_str())
}

/// The key of the index entry of a plan under its status (see `status_key_of`).
pub fn status_index_key(status: PlanStatus, id: &str) -> (r: String)
    ensures
        r@ == status_key_of(status, id@),
{
    joined_colon("plan:index:by_status:", status_name(status), id)
}

/// Two texts with one prefix are equal only when their rests are.
proof fn lemma_prefix_cancel(p: Seq<char>, a: Seq<char>, b: Seq<char>)
    requires
        p + a == p + b,
    ensures
        a == b,
{
    assert(a =~= (p + a).subrange(p.len() as int, (p + a).len() as int));
    assert(b =~= (p + b).subrange(p.len() as int, (p + b).len() as int));
}

/// Distinct nodes are stored under distinct keys, and so are distinct edges.
pub proof fn law_keys_tell_records_apart(a: Seq<char>, b: Seq<char>)
    ensures
        node_key_of(a) == node_key_of(b) ==> a == b,
        edge_key_of(a) == edge_key_of(b) ==> a == b,
{
    if node_key_of(a) == node_key_of(b) {
        lemma_prefix_cancel("node:"@, a, b);
    }
    if edge_key_of(a) == edge_key_of(b) {
        lemma_prefix_cancel("edge:"@, a, b);
    }
}

/// The key spaces do not overlap: no node key is an edge key or an index key.
pub proof fn law_key_spaces_disjoint(a: Seq<char>, b: Seq<char>, parent: Seq<char>, t: NodeType, l: Level)
    ensures
        node_key_of(a) != edge_key_of(b),
        node_key_of(a) != parent_key_of(parent, b),
        node_key_of(a) != type_key_of(t, b),
        node_key_of(a) != level_key_of(l, b),
        edge_key_of(a) != parent_key_of(parent, b),
        edge_key_of(a) != type_key_of(t, b),
        edge_key_of(a) != level_key_of(l, b),
{
    reveal_strlit("node:");
    reveal_strlit("edge:");
    reveal_strlit("nodeidx:by_parent:");
    reveal_strlit("nodeidx:by_type:");
    reveal_strlit("nodeidx:by_level:");
    assert(node_key_of(a)[0] != edge_key_of(b)[0]);
    assert(node_key_of(a)[4] != parent_key_of(parent, b)[4]);
    assert(node_key_of(a)[4] != type_key_of(t, b)[4]);
    assert(node_key_of(a)[4] != level_key_of(l, b)[4]);
    assert(edge_key_of(a)[0] != parent_key_of(parent, b)[0]);
    assert(edge_key_of(a)[0] != type_key_of(t, b)[0]);
    assert(edge_key_of(a)[0] != level_key_of(l, b)[0]);
}

} // verus!
