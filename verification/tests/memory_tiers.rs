use graphmind::actors::llm_client::LlmClient;
use graphmind::actors::gkl::{GKLactor, GklNode};
use graphmind::actors::l0::{L0Actor, L0Node};
use graphmind::actors::l1::{L1Actor, L1Domain};
use graphmind::actors::l2::L2Actor;
use graphmind::actors::s0::{S0Actor, S0Entry};
use graphmind::actors::workspace_manager::{WorkspaceManager, WorkspaceStatus};
use graphmind::actors::Actor;
use graphmind::clock::Timestamp;
use graphmind::graph::edge::{Edge, EdgeId, Relation};
use graphmind::graph::node::{Level, Node, NodeId, NodeType};
use graphmind::graph::Graph;

fn make_node(content: &str, ty: NodeType, workspace: Option<&str>) -> Node {
    let mut n = Node::new(ty, content.to_string());
    n.level = Level::L2;
    n.metadata.workspace_id = workspace.map(String::from);
    n
}

fn make_node_with_parent(content: &str, ty: NodeType, parent: Option<&str>, workspace: Option<&str>) -> Node {
    let mut n = Node::new(ty, content.to_string());
    n.level = Level::L2;
    n.metadata.parent_id = parent.map(String::from);
    n.metadata.workspace_id = workspace.map(String::from);
    n
}

// ---------------- L2 ----------------

#[test]
fn test_add_and_get_node() {
    let mut actor = L2Actor::new();
    let n = make_node("hello", NodeType::Atom, None);
    let id = actor.add_node(&n);
    let fetched = actor.get_node(&id).unwrap();
    assert_eq!(fetched.content, "hello");
    assert_eq!(fetched.node_type, NodeType::Atom);
}

#[test]
fn test_get_missing_node_returns_none() {
    let actor = L2Actor::new();
    let result = actor.get_node(&NodeId("missing".into()));
    assert!(result.is_none());
}

#[test]
fn test_list_by_workspace() {
    let mut actor = L2Actor::new();
    actor.add_node(&make_node("a", NodeType::Atom, Some("ws1")));
    actor.add_node(&make_node("b", NodeType::Atom, Some("ws1")));
    actor.add_node(&make_node("c", NodeType::Atom, Some("ws2")));
    assert_eq!(actor.list_by_workspace("ws1").len(), 2);
    assert_eq!(actor.list_by_workspace("ws2").len(), 1);
    assert!(actor.list_by_workspace("nope").is_empty());
}

#[test]
fn test_node_roundtrip_preserves_parent_id() {
    let mut actor = L2Actor::new();
    let n = make_node_with_parent("atom", NodeType::Atom, Some("l0-id"), Some("ws-x"));
    let id = actor.add_node(&n);
    let fetched = actor.get_node(&id).unwrap();
    assert_eq!(fetched.metadata.parent_id.as_deref(), Some("l0-id"));
    assert_eq!(fetched.metadata.workspace_id.as_deref(), Some("ws-x"));
}

#[test]
fn test_list_by_workspace_does_not_match_parent_field() {
    let mut actor = L2Actor::new();
    let n = make_node_with_parent("atom", NodeType::Atom, Some("ws-l0"), Some("ws-real"));
    actor.add_node(&n);
    assert!(actor.list_by_workspace("ws-l0").is_empty());
    assert_eq!(actor.list_by_workspace("ws-real").len(), 1);
}

#[test]
fn l2_test_list_by_type() {
    let mut actor = L2Actor::new();
    actor.add_node(&make_node("a", NodeType::Atom, None));
    actor.add_node(&make_node("b", NodeType::Atom, None));
    actor.add_node(&make_node("c", NodeType::Cause, None));
    assert_eq!(actor.list_by_type(NodeType::Atom).len(), 2);
    assert_eq!(actor.list_by_type(NodeType::Cause).len(), 1);
    assert!(actor.list_by_type(NodeType::Effect).is_empty());
}

#[test]
fn test_node_count() {
    let mut actor = L2Actor::new();
    assert_eq!(actor.node_count(), 0);
    actor.add_node(&make_node("a", NodeType::Atom, None));
    actor.add_node(&make_node("b", NodeType::Atom, None));
    assert_eq!(actor.node_count(), 2);
}

#[test]
fn test_add_and_get_edge() {
    let mut actor = L2Actor::new();
    let src = make_node("src", NodeType::Cause, None);
    let tgt = make_node("tgt", NodeType::Effect, None);
    actor.add_node(&src);
    actor.add_node(&tgt);
    let edge = Edge::new(src.id.clone(), tgt.id.clone(), Relation::LeadsTo);
    let eid = actor.add_edge(&edge);
    let fetched = actor.get_edge(&eid).unwrap();
    assert_eq!(fetched.source, src.id);
    assert_eq!(fetched.target, tgt.id);
    assert_eq!(fetched.relation, Relation::LeadsTo);
}

#[test]
fn test_edge_roundtrip_preserves_workspace_id() {
    let mut actor = L2Actor::new();
    let src = make_node("src", NodeType::Cause, None);
    let tgt = make_node("tgt", NodeType::Effect, None);
    actor.add_node(&src);
    actor.add_node(&tgt);
    let edge = Edge::new(src.id.clone(), tgt.id.clone(), Relation::LeadsTo).with_workspace("ws-test".to_string());
    let eid = actor.add_edge(&edge);
    assert_eq!(actor.get_edge(&eid).unwrap().workspace_id.as_deref(), Some("ws-test"));
    let edge_no_ws = Edge::new(src.id.clone(), tgt.id.clone(), Relation::RelatedTo);
    let eid_no_ws = actor.add_edge(&edge_no_ws);
    assert!(actor.get_edge(&eid_no_ws).unwrap().workspace_id.is_none());
}

#[test]
fn test_edges_from_node() {
    let mut actor = L2Actor::new();
    let a = make_node("a", NodeType::Cause, None);
    let b = make_node("b", NodeType::Effect, None);
    let c = make_node("c", NodeType::Effect, None);
    actor.add_node(&a);
    actor.add_node(&b);
    actor.add_node(&c);
    actor.add_edge(&Edge::new(a.id.clone(), b.id.clone(), Relation::LeadsTo));
    actor.add_edge(&Edge::new(a.id.clone(), c.id.clone(), Relation::LeadsTo));
    actor.add_edge(&Edge::new(b.id.clone(), c.id.clone(), Relation::RelatedTo));
    assert_eq!(actor.edges_from(&a.id).len(), 2);
    assert_eq!(actor.edges_from(&b.id).len(), 1);
    assert!(actor.edges_from(&c.id).is_empty());
}

#[test]
fn test_edge_count() {
    let mut actor = L2Actor::new();
    let a = make_node("a", NodeType::Atom, None);
    let b = make_node("b", NodeType::Atom, None);
    actor.add_node(&a);
    actor.add_node(&b);
    assert_eq!(actor.edge_count(), 0);
    actor.add_edge(&Edge::new(a.id.clone(), b.id.clone(), Relation::RelatedTo));
    assert_eq!(actor.edge_count(), 1);
}

#[test]
fn test_get_missing_edge_returns_none() {
    let actor = L2Actor::new();
    assert!(actor.get_edge(&EdgeId("missing".into())).is_none());
}

#[test]
fn l2_delete_then_get_is_none() {
    let mut actor = L2Actor::new();
    let a = make_node("a", NodeType::Atom, Some("w"));
    let id = actor.add_node(&a);
    assert!(actor.delete_node(&id));
    assert!(actor.get_node(&id).is_none());
    assert!(!actor.delete_node(&id));
}

// ---------------- L1 ----------------

fn make_atom(content: &str, workspace: Option<&str>) -> Node {
    let mut n = Node::new(NodeType::Atom, content.to_string());
    n.level = Level::L2;
    n.metadata.workspace_id = workspace.map(String::from);
    n
}

#[test]
fn test_save_and_get_domain() {
    let mut actor = L1Actor::new();
    let mut node = Node::new(NodeType::Domain, "Test domain".to_string());
    node.level = Level::L1;
    let domain = L1Domain { node, member_atom_ids: vec![NodeId("a1".into()), NodeId("a2".into())] };
    let id = actor.save_domain(&domain);
    let fetched = actor.get_domain(&id).unwrap();
    assert_eq!(fetched.node.content, "Test domain");
    assert_eq!(fetched.member_atom_ids.len(), 2);
}

#[test]
fn test_autogenerate_single_domain() {
    let mut actor = L1Actor::new();
    let a1 = make_atom("Clerk setup", Some("ws1"));
    let a2 = make_atom("Clerk middleware", Some("ws1"));
    let a3 = make_atom("Clerk client", Some("ws1"));
    let edges = vec![
        Edge::new(a1.id.clone(), a2.id.clone(), Relation::RelatedTo),
        Edge::new(a2.id.clone(), a3.id.clone(), Relation::RelatedTo),
    ];
    let r = actor.autogenerate_domains("ws1", &vec![a1, a2, a3], &edges);
    assert_eq!(r.created_domains.len(), 1);
    assert_eq!(r.orphan_atoms.len(), 0);
    assert_eq!(r.created_domains[0].member_atom_ids.len(), 3);
    let name = &r.created_domains[0].node.content;
    assert!(name.starts_with("Домен: "));
    for part in ["Clerk setup", "Clerk middleware", "Clerk client"] {
        assert!(name.contains(part));
    }
}

#[test]
fn test_autogenerate_with_orphans() {
    let mut actor = L1Actor::new();
    let a1 = make_atom("A", Some("ws1"));
    let a2 = make_atom("B", Some("ws1"));
    let a3 = make_atom("C", Some("ws1"));
    let edges = vec![Edge::new(a1.id.clone(), a2.id.clone(), Relation::RelatedTo)];
    let a3_id = a3.id.clone();
    let r = actor.autogenerate_domains("ws1", &vec![a1, a2, a3], &edges);
    assert_eq!(r.created_domains.len(), 1);
    assert_eq!(r.orphan_atoms, vec![a3_id]);
}

#[test]
fn test_find_domain_for_atom() {
    let mut actor = L1Actor::new();
    let a1 = make_atom("A", Some("ws1"));
    let a2 = make_atom("B", Some("ws1"));
    let edges = vec![Edge::new(a1.id.clone(), a2.id.clone(), Relation::RelatedTo)];
    let a1_id = a1.id.clone();
    let r = actor.autogenerate_domains("ws1", &vec![a1, a2], &edges);
    let d = actor.find_domain_for_atom(&a1_id).unwrap();
    assert_eq!(d.node.id, r.created_domains[0].node.id);
}

#[test]
fn test_delete_domain() {
    let mut actor = L1Actor::new();
    let a1 = make_atom("A", Some("ws1"));
    let a2 = make_atom("B", Some("ws1"));
    let edges = vec![Edge::new(a1.id.clone(), a2.id.clone(), Relation::RelatedTo)];
    let a1_id = a1.id.clone();
    let r = actor.autogenerate_domains("ws1", &vec![a1, a2], &edges);
    let id = r.created_domains[0].node.id.clone();
    actor.delete_domain(&id);
    assert!(actor.get_domain(&id).is_none());
    assert!(actor.find_domain_for_atom(&a1_id).is_none());
}

#[test]
fn l1_test_stats() {
    let mut actor = L1Actor::new();
    let a1 = make_atom("A", Some("ws1"));
    let a2 = make_atom("B", Some("ws1"));
    let edges = vec![Edge::new(a1.id.clone(), a2.id.clone(), Relation::RelatedTo)];
    actor.autogenerate_domains("ws1", &vec![a1, a2], &edges);
    let s = actor.stats("ws1");
    assert_eq!(s.domain_count, 1);
    assert_eq!(s.total_atoms, 2);
    assert_eq!(actor.size(), 1);
}

#[test]
fn l1_domain_name_counts_beyond_three() {
    let mut actor = L1Actor::new();
    let atoms: Vec<Node> = ["a", "b", "c", "d"].iter().map(|c| make_atom(c, Some("w"))).collect();
    let edges: Vec<Edge> = (0..3).map(|i| Edge::new(atoms[i].id.clone(), atoms[i + 1].id.clone(), Relation::RelatedTo)).collect();
    let r = actor.autogenerate_domains("w", &atoms, &edges);
    assert_eq!(r.created_domains.len(), 1);
    let name = &r.created_domains[0].node.content;
    assert!(name.starts_with("Домен (4 атомов): "));
    assert!(name.ends_with(" и др."));
}

// ---------------- L0 ----------------

fn make_domain(content: &str, workspace: Option<&str>) -> Node {
    let mut n = Node::new(NodeType::Domain, content.to_string());
    n.level = Level::L1;
    n.metadata.workspace_id = workspace.map(String::from);
    n
}

#[test]
fn test_autogenerate_single_cluster() {
    let mut actor = L0Actor::new();
    let d1 = make_domain("Аутентификация через Clerk", Some("ws1"));
    let d2 = make_domain("Clerk middleware", Some("ws1"));
    let d3 = make_domain("Clerk React client", Some("ws1"));
    let result = actor.autogenerate_l0("ws1", &vec![d1, d2, d3]);
    assert_eq!(result.clusters.len(), 1);
    assert_eq!(result.orphan_domains.len(), 0);
    assert_eq!(result.clusters[0].member_ids.len(), 3);
}

#[test]
fn test_autogenerate_multiple_clusters() {
    let mut actor = L0Actor::new();
    let d1 = make_domain("Clerk authentication setup", Some("ws1"));
    let d2 = make_domain("Clerk middleware integration", Some("ws1"));
    let d3 = make_domain("PostgreSQL database schema", Some("ws1"));
    let d4 = make_domain("PostgreSQL database migrations", Some("ws1"));
    let result = actor.autogenerate_l0("ws1", &vec![d1, d2, d3, d4]);
    assert!(result.clusters.len() >= 2, "Expected at least 2 clusters, got {}", result.clusters.len());
    assert_eq!(result.orphan_domains.len(), 0);
}

#[test]
fn test_autogenerate_with_hub() {
    let mut actor = L0Actor::new();
    let d1 = make_domain("Аутентификация через Clerk", Some("ws1"));
    let d2 = make_domain("Clerk middleware", Some("ws1"));
    let result = actor.autogenerate_l0("ws1", &vec![d1, d2]);
    assert_eq!(result.clusters.len(), 1);
    assert!(result.hub.is_some());
    let hub = result.hub.unwrap();
    assert_eq!(hub.member_ids.len(), 1);
    assert_eq!(hub.node.content, "Хаб: 1 кластеров, 2 доменов");
}

#[test]
fn test_find_cluster_for_domain() {
    let mut actor = L0Actor::new();
    let d1 = make_domain("Аутентификация через Clerk", Some("ws1"));
    let d2 = make_domain("Clerk middleware", Some("ws1"));
    let d1_id = d1.id.clone();
    let result = actor.autogenerate_l0("ws1", &vec![d1, d2]);
    let cluster_id = result.clusters[0].node.id.clone();
    let cluster = actor.find_cluster_for_domain(&d1_id).unwrap();
    assert_eq!(cluster.node.id, cluster_id);
}

#[test]
fn test_list_clusters() {
    let mut actor = L0Actor::new();
    let d1 = make_domain("Clerk authentication setup", Some("ws1"));
    let d2 = make_domain("Clerk middleware integration", Some("ws1"));
    let d3 = make_domain("PostgreSQL database schema", Some("ws2"));
    let d4 = make_domain("PostgreSQL database migrations", Some("ws2"));
    let result1 = actor.autogenerate_l0("ws1", &vec![d1, d2]);
    let result2 = actor.autogenerate_l0("ws2", &vec![d3, d4]);
    assert_eq!(result1.clusters.len(), 1);
    assert_eq!(result2.clusters.len(), 1);
    let ws1_cluster = actor.get_node(&result1.clusters[0].node.id).unwrap();
    let ws2_cluster = actor.get_node(&result2.clusters[0].node.id).unwrap();
    assert_eq!(ws1_cluster.node.metadata.workspace_id, Some("ws1".to_string()));
    assert_eq!(ws2_cluster.node.metadata.workspace_id, Some("ws2".to_string()));
    assert_eq!(actor.list_clusters("ws1").len(), 1);
    assert_eq!(actor.list_clusters("ws2").len(), 1);
}

#[test]
fn test_delete_cluster() {
    let mut actor = L0Actor::new();
    let d1 = make_domain("Аутентификация через Clerk", Some("ws1"));
    let d2 = make_domain("Clerk middleware", Some("ws1"));
    let d1_id = d1.id.clone();
    let result = actor.autogenerate_l0("ws1", &vec![d1, d2]);
    let cluster_id = result.clusters[0].node.id.clone();
    assert!(actor.get_node(&cluster_id).is_some());
    actor.delete_node(&cluster_id);
    assert!(actor.get_node(&cluster_id).is_none());
    assert!(actor.find_cluster_for_domain(&d1_id).is_none());
}

#[test]
fn l0_test_stats() {
    let mut actor = L0Actor::new();
    let d1 = make_domain("Аутентификация через Clerk", Some("ws1"));
    let d2 = make_domain("Clerk middleware", Some("ws1"));
    let d3 = make_domain("PostgreSQL Drizzle schema", Some("ws1"));
    let d4 = make_domain("Database migrations", Some("ws1"));
    actor.autogenerate_l0("ws1", &vec![d1, d2, d3, d4]);
    let stats = actor.stats("ws1");
    assert!(stats.cluster_count >= 1);
    assert!(stats.hub_count >= 1);
    assert_eq!(stats.total_domains, 4);
}

#[test]
fn l0_unmatched_domains_gathered_in_one_cluster() {
    let mut actor = L0Actor::new();
    let d1 = make_domain("Alpha service", Some("w"));
    let d2 = make_domain("Beta storage", Some("w"));
    let result = actor.autogenerate_l0("w", &vec![d1, d2]);
    assert_eq!(result.clusters.len(), 1);
    assert_eq!(result.clusters[0].member_ids.len(), 2);
    assert_eq!(result.clusters[0].node.content, "Кластер: Alpha service, Beta storage");
    assert!(result.orphan_domains.is_empty());
}

#[test]
fn l0_no_domains_no_structure() {
    let mut actor = L0Actor::new();
    let result = actor.autogenerate_l0("w", &Vec::new());
    assert!(result.clusters.is_empty());
    assert!(result.hub.is_none());
    assert_eq!(actor.size(), 0);
}

// ---------------- GKL ----------------

fn make_gkl_atom(content: &str, id_suffix: &str) -> GklNode {
    let id = GKLactor::make_gkl_id(id_suffix);
    let mut node = Node::with_id(id, NodeType::Atom, content.to_string());
    node.level = Level::L2;
    GklNode { node, is_hub: false }
}

fn make_gkl_hub(content: &str, id_suffix: &str) -> GklNode {
    let id = GKLactor::make_gkl_id(id_suffix);
    let mut node = Node::with_id(id, NodeType::Hub, content.to_string());
    node.level = Level::L1;
    GklNode { node, is_hub: true }
}

#[test]
fn test_make_gkl_id() {
    let id = GKLactor::make_gkl_id("L2_test");
    assert!(id.0.starts_with("gkl_"));
    assert!(id.0.contains("L2_test"));
}

#[test]
fn test_save_and_get_node() {
    let mut actor = GKLactor::new();
    let node = make_gkl_atom("Test atom", "L2_test_atom");
    let id = actor.save_node(&node).unwrap();
    let fetched = actor.get_node(&id).unwrap();
    assert_eq!(fetched.node.content, "Test atom");
    assert_eq!(fetched.node.node_type, NodeType::Atom);
    assert!(!fetched.is_hub);
}

#[test]
fn test_save_hub() {
    let mut actor = GKLactor::new();
    let id = actor.save_node(&make_gkl_hub("Framework hub", "L1_framework")).unwrap();
    let fetched = actor.get_node(&id).unwrap();
    assert_eq!(fetched.node.node_type, NodeType::Hub);
    assert!(fetched.is_hub);
    assert_eq!(fetched.node.level, Level::L1);
}

#[test]
fn test_non_gkl_id_rejected() {
    let mut actor = GKLactor::new();
    let mut node = Node::new(NodeType::Atom, "Test".to_string());
    node.id = NodeId::from_string("not_gkl_id".to_string());
    assert!(actor.save_node(&GklNode { node, is_hub: false }).is_err());
}

#[test]
fn gkl_test_list_by_type() {
    let mut actor = GKLactor::new();
    actor.save_node(&make_gkl_atom("Atom 1", "L2_atom1")).unwrap();
    actor.save_node(&make_gkl_atom("Atom 2", "L2_atom2")).unwrap();
    assert_eq!(actor.list_by_type(NodeType::Atom).len(), 2);
}

#[test]
fn test_list_by_level() {
    let mut actor = GKLactor::new();
    actor.save_node(&make_gkl_atom("L2 atom", "L2_test")).unwrap();
    actor.save_node(&make_gkl_hub("L1 hub", "L1_test")).unwrap();
    assert_eq!(actor.list_by_level(Level::L2).len(), 1);
    assert_eq!(actor.list_by_level(Level::L1).len(), 1);
}

#[test]
fn test_list_l1_hubs() {
    let mut actor = GKLactor::new();
    actor.save_node(&make_gkl_hub("Framework hub", "L1_framework")).unwrap();
    actor.save_node(&make_gkl_atom("Not a hub", "L1_not_hub")).unwrap();
    let hubs = actor.list_l1_hubs();
    assert_eq!(hubs.len(), 1);
    assert!(hubs[0].is_hub);
}

#[test]
fn test_list_l2_atoms() {
    let mut actor = GKLactor::new();
    actor.save_node(&make_gkl_atom("Atom 1", "L2_atom1")).unwrap();
    actor.save_node(&make_gkl_atom("Atom 2", "L2_atom2")).unwrap();
    assert_eq!(actor.list_l2_atoms().len(), 2);
}

#[test]
fn test_add_edge_and_get_children() {
    let mut actor = GKLactor::new();
    let hub = make_gkl_hub("Framework hub", "L1_framework");
    let atom1 = make_gkl_atom("Atom 1", "L2_atom1");
    let atom2 = make_gkl_atom("Atom 2", "L2_atom2");
    actor.save_node(&hub).unwrap();
    actor.save_node(&atom1).unwrap();
    actor.save_node(&atom2).unwrap();
    actor.add_edge(&Edge::new(hub.node.id.clone(), atom1.node.id.clone(), Relation::RelatedTo));
    actor.add_edge(&Edge::new(hub.node.id.clone(), atom2.node.id.clone(), Relation::RelatedTo));
    assert_eq!(actor.get_children(&hub.node.id).len(), 2);
}

#[test]
fn test_find_by_tags() {
    let mut actor = GKLactor::new();
    let mut node1 = make_gkl_atom("Atom 1", "L2_atom1");
    node1.node.metadata.tags = vec!["rust".to_string(), "framework".to_string()];
    let mut node2 = make_gkl_atom("Atom 2", "L2_atom2");
    node2.node.metadata.tags = vec!["python".to_string()];
    actor.save_node(&node1).unwrap();
    actor.save_node(&node2).unwrap();
    let rust_nodes = actor.find_by_tags(&vec!["rust".to_string()]);
    assert_eq!(rust_nodes.len(), 1);
    assert!(rust_nodes[0].node.metadata.tags.contains(&"rust".to_string()));
}

#[test]
fn test_delete_node() {
    let mut actor = GKLactor::new();
    let id = actor.save_node(&make_gkl_atom("To delete", "L2_delete")).unwrap();
    assert!(actor.get_node(&id).is_some());
    actor.delete_node(&id);
    assert!(actor.get_node(&id).is_none());
}

#[test]
fn gkl_test_stats() {
    let mut actor = GKLactor::new();
    actor.save_node(&make_gkl_atom("Atom 1", "L2_atom1")).unwrap();
    actor.save_node(&make_gkl_atom("Atom 2", "L2_atom2")).unwrap();
    actor.save_node(&make_gkl_hub("Hub", "L1_hub")).unwrap();
    let stats = actor.stats();
    assert_eq!(stats.total_nodes, 3);
    assert_eq!(stats.l2_count, 2);
    assert_eq!(stats.l1_count, 1);
    assert_eq!(stats.hub_count, 1);
}

#[test]
fn test_import_from_workspace() {
    let mut actor = GKLactor::new();
    let mut ws_node = Node::new(NodeType::Atom, "Workspace atom".to_string());
    ws_node.level = Level::L2;
    ws_node.metadata.workspace_id = Some("ws1".to_string());
    ws_node.metadata.tags = vec!["test".to_string()];
    let gkl_id = GKLactor::make_gkl_id("L2_imported");
    let gkl_node = actor.import_from_workspace(&ws_node, &gkl_id).unwrap();
    assert!(GKLactor::is_gkl_id(&gkl_node.node.id));
    assert_eq!(gkl_node.node.content, "Workspace atom");
    assert!(gkl_node.node.metadata.workspace_id.is_none());
    assert!(gkl_node.node.metadata.tags.contains(&"test".to_string()));
}

#[test]
fn test_cache() {
    let mut actor = GKLactor::new();
    let node = make_gkl_atom("Cached atom", "L2_cached");
    actor.save_node(&node).unwrap();
    let n1 = actor.get_node(&node.node.id).unwrap();
    let n2 = actor.get_node(&node.node.id).unwrap();
    assert_eq!(n1.node.content, n2.node.content);
    assert_eq!(actor.size(), 1);
}

// ---------------- S0 ----------------

fn entry(id: &str, summary: &str) -> S0Entry {
    S0Entry { id: id.to_string(), source: "test".to_string(), summary: summary.to_string(), timestamp: Timestamp { secs: 0, nanos: 0 } }
}

#[test]
fn test_push_and_size() {
    let mut actor = S0Actor::with_capacity(3);
    assert_eq!(actor.size(), 0);
    actor.push(entry("a", "first"));
    actor.push(entry("b", "second"));
    assert_eq!(actor.size(), 2);
}

#[test]
fn test_fifo_eviction_when_full() {
    let mut actor = S0Actor::with_capacity(2);
    actor.push(entry("a", "first"));
    actor.push(entry("b", "second"));
    let evicted = actor.push(entry("c", "third"));
    assert!(evicted.is_some());
    assert_eq!(evicted.unwrap().id, "a");
    assert_eq!(actor.size(), 2);
    let all = actor.get_all();
    assert_eq!(all[0].id, "b");
    assert_eq!(all[1].id, "c");
}

#[test]
fn test_get_recent_newest_first() {
    let mut actor = S0Actor::with_capacity(5);
    actor.push(entry("a", "1"));
    actor.push(entry("b", "2"));
    actor.push(entry("c", "3"));
    let recent = actor.get_recent(2);
    assert_eq!(recent.len(), 2);
    assert_eq!(recent[0].id, "c");
    assert_eq!(recent[1].id, "b");
}

#[test]
fn test_clear() {
    let mut actor = S0Actor::with_capacity(3);
    actor.push(entry("a", "1"));
    actor.push(entry("b", "2"));
    actor.clear();
    assert_eq!(actor.size(), 0);
    assert!(actor.get_all().is_empty());
}

#[test]
fn test_default_capacity_is_20() {
    let actor = S0Actor::new();
    assert_eq!(actor.capacity(), 20);
}

#[test]
fn s0_never_exceeds_capacity() {
    let mut actor = S0Actor::with_capacity(3);
    for i in 0..10 {
        actor.push(entry(&format!("id-{i}"), "s"));
        assert!(actor.len() <= 3);
    }
    let all = actor.get_all();
    assert_eq!(all.iter().map(|e| e.id.clone()).collect::<Vec<_>>(), vec!["id-7", "id-8", "id-9"]);
}

// ---------------- Workspaces ----------------

#[test]
fn test_create_workspace() {
    let mut manager = WorkspaceManager::new();
    let ws = manager.create_workspace("Test Workspace".to_string(), Some("/path/to/project".to_string()));
    assert_eq!(ws.name, "Test Workspace");
    assert_eq!(ws.status, WorkspaceStatus::Active);
    assert!(ws.id.starts_with("ws_"));
}

#[test]
fn test_get_workspace() {
    let mut manager = WorkspaceManager::new();
    let ws = manager.create_workspace("Test".to_string(), None);
    let fetched = manager.get_workspace(&ws.id).unwrap();
    assert_eq!(fetched.id, ws.id);
    assert_eq!(fetched.name, "Test");
}

#[test]
fn test_switch_workspace() {
    let mut manager = WorkspaceManager::new();
    let _ws1 = manager.create_workspace("WS1".to_string(), None);
    let ws2 = manager.create_workspace("WS2".to_string(), None);
    assert!(manager.switch_workspace(&ws2.id));
    assert_eq!(manager.get_active_workspace_id(), Some(ws2.id.clone()));
}

#[test]
fn test_archive_workspace() {
    let mut manager = WorkspaceManager::new();
    let ws = manager.create_workspace("Test".to_string(), None);
    assert!(manager.archive_workspace(&ws.id));
    assert_eq!(manager.get_workspace(&ws.id).unwrap().status, WorkspaceStatus::Archived);
}

#[test]
fn test_list_workspaces() {
    let mut manager = WorkspaceManager::new();
    manager.create_workspace("WS1".to_string(), None);
    manager.create_workspace("WS2".to_string(), None);
    assert_eq!(manager.list_workspaces(None).len(), 2);
    assert_eq!(manager.list_workspaces(Some(WorkspaceStatus::Active)).len(), 2);
}

#[test]
fn test_detect_workspace() {
    let mut manager = WorkspaceManager::new();
    let cwd = "/home/user/my-project";
    let ws_id = manager.detect_workspace(cwd);
    let ws = manager.get_workspace(&ws_id).unwrap();
    assert_eq!(ws.path, Some(cwd.to_string()));
    assert_eq!(ws.name, "my-project");
    assert_eq!(manager.detect_workspace(cwd), ws_id);
}

#[test]
fn test_bump_node_count() {
    let mut manager = WorkspaceManager::new();
    let ws = manager.create_workspace("Test".to_string(), None);
    assert_eq!(ws.node_count, 0);
    manager.bump_node_count(&ws.id, 1).unwrap();
    let updated = manager.get_workspace(&ws.id).unwrap();
    assert_eq!(updated.node_count, 1);
    assert!(
        (updated.updated_at.secs, updated.updated_at.nanos) > (updated.created_at.secs, updated.created_at.nanos),
        "updated_at must move forward"
    );
    manager.bump_node_count(&ws.id, 3).unwrap();
    assert_eq!(manager.get_workspace(&ws.id).unwrap().node_count, 4);
    manager.bump_node_count(&ws.id, -2).unwrap();
    assert_eq!(manager.get_workspace(&ws.id).unwrap().node_count, 2);
    manager.bump_node_count(&ws.id, -10).unwrap();
    assert_eq!(manager.get_workspace(&ws.id).unwrap().node_count, 0);
}

#[test]
fn bump_unknown_workspace_is_not_found() {
    let mut manager = WorkspaceManager::new();
    assert!(manager.bump_node_count("ws_missing", 1).is_err());
    assert!(manager.bump_edge_count("ws_missing", 1).is_err());
}

#[test]
fn test_graph_basic() {
    let mut graph = Graph::new();
    let node1 = Node::new(NodeType::Atom, "test1".to_string());
    let node2 = Node::new(NodeType::Atom, "test2".to_string());
    let id1 = graph.add_node(node1);
    let id2 = graph.add_node(node2);
    assert!(graph.get_node(&id1).is_some());
    assert!(graph.get_node(&id2).is_some());
}

#[test]
fn test_autogenerate_multiple_domains() {
    let mut actor = L1Actor::new();
    let a1 = make_atom("Атом 1", Some("ws1"));
    let a2 = make_atom("Атом 2", Some("ws1"));
    let a3 = make_atom("Атом 3", Some("ws1"));
    let a4 = make_atom("Атом 4", Some("ws1"));
    let e1 = Edge::new(a1.id.clone(), a2.id.clone(), Relation::RelatedTo);
    let e2 = Edge::new(a3.id.clone(), a4.id.clone(), Relation::RelatedTo);
    let result = actor.autogenerate_domains("ws1", &vec![a1, a2, a3, a4], &vec![e1, e2]);
    assert_eq!(result.created_domains.len(), 2);
    assert_eq!(result.orphan_atoms.len(), 0);
}

#[test]
fn test_list_domains() {
    let mut actor = L1Actor::new();
    let a1 = make_atom("Атом 1", Some("ws1"));
    let a2 = make_atom("Атом 2", Some("ws1"));
    let a3 = make_atom("Атом 3", Some("ws2"));
    let a4 = make_atom("Атом 4", Some("ws2"));
    let e1 = Edge::new(a1.id.clone(), a2.id.clone(), Relation::RelatedTo);
    let e2 = Edge::new(a3.id.clone(), a4.id.clone(), Relation::RelatedTo);
    actor.autogenerate_domains("ws1", &vec![a1, a2], &vec![e1]);
    actor.autogenerate_domains("ws2", &vec![a3, a4], &vec![e2]);
    assert_eq!(actor.list_domains("ws1").len(), 1);
    assert_eq!(actor.list_domains("ws2").len(), 1);
}

#[test]
fn test_domain_cache() {
    let mut actor = L1Actor::new();
    let domain = L1Domain {
        node: Node::new(NodeType::Domain, "Cached domain".to_string()).with_level(Level::L1),
        member_atom_ids: vec![],
    };
    let id = actor.save_domain(&domain);
    let d1 = actor.get_domain(&id).unwrap();
    let d2 = actor.get_domain(&id).unwrap();
    assert_eq!(d1.node.content, d2.node.content);
    assert_eq!(actor.size(), 1);
}

#[test]
fn test_save_and_get_cluster() {
    let mut actor = L0Actor::new();
    let cluster = L0Node {
        node: Node::new(NodeType::Cluster, "Test cluster".to_string()).with_level(Level::L0),
        member_ids: vec![],
    };
    let id = actor.save_node(&cluster);
    let fetched = actor.get_node(&id).unwrap();
    assert_eq!(fetched.node.content, "Test cluster");
    assert_eq!(fetched.node.node_type, NodeType::Cluster);
}

#[test]
fn test_save_and_get_hub() {
    let mut actor = L0Actor::new();
    let hub = L0Node {
        node: Node::new(NodeType::Hub, "Test hub".to_string()).with_level(Level::L0),
        member_ids: vec![],
    };
    let id = actor.save_node(&hub);
    let fetched = actor.get_node(&id).unwrap();
    assert_eq!(fetched.node.content, "Test hub");
    assert_eq!(fetched.node.node_type, NodeType::Hub);
}

#[test]
fn llm_clients_are_set_by_with_llm() {
    let client = || LlmClient::new("http://localhost:11434/v1".to_string(), None, "m".to_string());
    assert!(L0Actor::new().llm().is_none());
    assert!(L1Actor::new().llm().is_none());
    let l0 = L0Actor::new().with_llm(client());
    assert_eq!(l0.llm().unwrap().model(), "m");
    let l1 = L1Actor::new().with_llm(client());
    assert_eq!(l1.llm().unwrap().model(), "m");
    let disabled = LlmClient::new(String::new(), None, "m".to_string());
    assert!(L1Actor::new().with_llm(disabled).llm().is_none());
}
