use graphmind::actors::chain::ChainActor;
use graphmind::actors::l2::L2Actor;
use graphmind::actors::s0::S0Actor;
use graphmind::actors::search::SearchActor;
use graphmind::actors::trust::TrustFirewall;
use graphmind::actors::workspace_manager::{WorkspaceManager, WorkspaceStatus};
use graphmind::graph::edge::Relation;
use graphmind::graph::node::{Level, NodeId, NodeType, Status};
use graphmind::graph::Graph;
use graphmind::graph::edge::EdgeId;
use graphmind::keys::{
    edge_key, level_name, node_by_level_key, node_by_parent_key, node_by_type_key, node_key, node_type_name,
    status_index_key,
};
use graphmind::actors::plan_actor::PlanStatus;
use graphmind::service::{
    bootstrap_workspace_id, chain_request, compare_verification_response, level_to_proto, node_type_to_proto,
    parse_level, parse_node_type, proto_node_from_graph_node, parse_relation, parse_status_name, parse_workspace_filter, relation_to_proto,
    status_to_proto, ChainAnchor, ChainRequest, MemoryServiceHandler, ServiceError,
};

fn service() -> MemoryServiceHandler {
    MemoryServiceHandler::new(
        S0Actor::new(),
        L2Actor::new(),
        ChainActor::new(),
        SearchActor::new(),
        WorkspaceManager::new(),
        TrustFirewall::new(),
        Graph::new(),
    )
}

fn anchor(id: &str, text: &str) -> ChainAnchor {
    ChainAnchor { id: id.to_string(), text: text.to_string() }
}

#[test]
fn wire_names_read_back() {
    for t in [
        NodeType::Atom,
        NodeType::Cause,
        NodeType::Effect,
        NodeType::Rule,
        NodeType::Cluster,
        NodeType::Hub,
        NodeType::Domain,
    ] {
        assert_eq!(parse_node_type(&node_type_to_proto(t)), Some(t));
    }
    assert_eq!(node_type_to_proto(NodeType::Domain), "domain");
    assert_eq!(parse_node_type("Atom"), None);
    assert_eq!(level_to_proto(Level::GKL), "GKL");
    assert_eq!(parse_level("L0"), Level::L0);
    assert_eq!(parse_level(&level_to_proto(Level::S0)), Level::L2);
    assert_eq!(parse_level("whatever"), Level::L2);
    assert_eq!(status_to_proto(Status::Archived), "archived");
    assert_eq!(parse_status_name("draft"), Status::Draft);
    assert_eq!(parse_status_name("unknown"), Status::Active);
    assert_eq!(relation_to_proto(&Relation::ExplainedBy), "explained_by");
    assert_eq!(parse_relation("supersedes"), Some(Relation::Supersedes));
    assert_eq!(parse_relation(&relation_to_proto(&Relation::DependsOn)), Some(Relation::DependsOn));
    assert_eq!(parse_relation("leads-to"), None);
    assert_eq!(parse_workspace_filter("archived"), Some(WorkspaceStatus::Archived));
    assert_eq!(parse_workspace_filter(""), None);
}

#[test]
fn propose_new_memory_stores_the_node() {
    let mut s = service();
    assert_eq!(
        s.propose_new_memory("L2", "gadget", "x".to_string(), vec![], "active", "").unwrap_err(),
        ServiceError::UnknownNodeType
    );
    let id = s
        .propose_new_memory("L1", "domain", "Учёт".to_string(), vec!["fin".to_string()], "draft", "dom-1")
        .unwrap();
    assert_eq!(id.0, "dom-1");
    let n = s.l2.get_node(&id).unwrap();
    assert_eq!(n.node_type, NodeType::Domain);
    assert_eq!(n.level, Level::L1);
    assert_eq!(n.status, Status::Draft);
    assert_eq!(n.content, "Учёт");
    assert_eq!(n.metadata.tags, vec!["fin".to_string()]);
    assert!(s.graph.get_node(&id).is_some());
    let fresh = s.propose_new_memory("", "atom", "fact".to_string(), vec![], "", "").unwrap();
    assert!(!fresh.0.is_empty());
    let f = s.l2.get_node(&fresh).unwrap();
    assert_eq!(f.level, Level::L2);
    assert_eq!(f.status, Status::Active);
}

#[test]
fn update_archive_and_restore_nodes() {
    let mut s = service();
    let id = s.propose_new_memory("L2", "atom", "old".to_string(), vec![], "active", "n1").unwrap();
    s.update_node("n1", "new".to_string(), "").unwrap();
    assert_eq!(s.l2.get_node(&id).unwrap().content, "new");
    assert_eq!(s.l2.get_node(&id).unwrap().status, Status::Active);
    s.update_node("n1", String::new(), "draft").unwrap();
    assert_eq!(s.l2.get_node(&id).unwrap().content, "new");
    assert_eq!(s.l2.get_node(&id).unwrap().status, Status::Draft);
    s.archive_node("n1").unwrap();
    assert_eq!(s.l2.get_node(&id).unwrap().status, Status::Archived);
    assert_eq!(s.graph.get_node(&id).unwrap().status, Status::Archived);
    s.restore_node("n1").unwrap();
    assert_eq!(s.l2.get_node(&id).unwrap().status, Status::Active);
    assert_eq!(s.update_node("missing", "x".to_string(), "").unwrap_err(), ServiceError::NodeNotFound);
    assert_eq!(s.archive_node("missing").unwrap_err(), ServiceError::NodeNotFound);
}

#[test]
fn fetch_l2_atoms_skips_missing_ids() {
    let mut s = service();
    s.propose_new_memory("L2", "atom", "a".to_string(), vec![], "", "a1").unwrap();
    s.propose_new_memory("L2", "atom", "b".to_string(), vec![], "", "a2").unwrap();
    let got = s.fetch_l2_atoms(&vec!["a2".to_string(), "zz".to_string(), "a1".to_string()]);
    let contents: Vec<&str> = got.iter().map(|n| n.content.as_str()).collect();
    assert_eq!(contents, vec!["b", "a"]);
}

#[test]
fn link_nodes_checks_ends_then_relation() {
    let mut s = service();
    s.propose_new_memory("L2", "cause", "c".to_string(), vec![], "", "c1").unwrap();
    s.propose_new_memory("L2", "effect", "e".to_string(), vec![], "", "e1").unwrap();
    assert_eq!(s.link_nodes("zz", "e1", "bogus").unwrap_err(), ServiceError::SourceNotFound);
    assert_eq!(s.link_nodes("c1", "zz", "bogus").unwrap_err(), ServiceError::TargetNotFound);
    assert_eq!(s.link_nodes("c1", "e1", "bogus").unwrap_err(), ServiceError::UnknownRelation);
    let id = s.link_nodes("c1", "e1", "leads_to").unwrap();
    let e = s.l2.get_edge(&id).unwrap();
    assert_eq!(e.source.0, "c1");
    assert_eq!(e.target.0, "e1");
    assert_eq!(e.relation, Relation::LeadsTo);
}

#[test]
fn chain_requests_follow_the_direction() {
    assert!(matches!(
        chain_request("backward", Some(&anchor("", "boom")), 0),
        Ok(ChainRequest::Backward { depth: 3, .. })
    ));
    assert!(matches!(chain_request("forward_pre", Some(&anchor("c1", "")), 5), Ok(ChainRequest::ForwardPre { depth: 5, .. })));
    assert!(matches!(chain_request("post_mortem", Some(&anchor("", "x")), 2), Ok(ChainRequest::PostMortem { .. })));
    assert_eq!(chain_request("backward", None, 1).err(), Some(ServiceError::AnchorTextRequired));
    assert_eq!(chain_request("forward_post", None, 1).err(), Some(ServiceError::NodeIdRequired));
    assert_eq!(chain_request("sideways", Some(&anchor("a", "b")), 1).err(), Some(ServiceError::UnknownDirection));
}

#[test]
fn get_chain_runs_the_traversal_with_nodes() {
    let mut s = service();
    s.propose_new_memory("L2", "cause", "cache not flushed".to_string(), vec![], "", "c1").unwrap();
    s.propose_new_memory("L2", "effect", "records lost".to_string(), vec![], "", "e1").unwrap();
    s.propose_new_memory("L2", "atom", "note".to_string(), vec![], "", "a1").unwrap();
    s.link_nodes("c1", "e1", "leads_to").unwrap();
    let forward = s.get_chain("forward_pre", Some(&anchor("c1", "")), 3).unwrap();
    assert!(forward.iter().any(|(e, n)| e.node_id.0 == "e1" && n.as_ref().unwrap().content == "records lost"));
    let backward = s.get_chain("backward", Some(&anchor("", "RECORDS")), 3).unwrap();
    assert!(backward.iter().any(|(e, _)| e.node_id.0 == "c1"));
    assert_eq!(s.get_chain("forward_pre", Some(&anchor("a1", "")), 3).unwrap_err(), ServiceError::NotACause);
    assert!(s.get_chain("forward_post", Some(&anchor("nowhere", "")), 3).unwrap().is_empty());
    assert_eq!(s.get_chain("up", None, 3).unwrap_err(), ServiceError::UnknownDirection);
}

#[test]
fn session_tools_use_s0() {
    let mut s = service();
    let cap = s.s0.capacity();
    let mut triggered = Vec::new();
    for i in 0..=cap {
        let (id, full) = s.record_action(format!("action {i}"));
        assert!(!id.is_empty());
        triggered.push(full);
    }
    assert!(triggered[..cap].iter().all(|t| !t));
    assert!(triggered[cap]);
    let recent = s.get_s0_context(0);
    assert_eq!(recent.len(), 20.min(cap));
    assert_eq!(recent[0].summary, format!("action {cap}"));
    assert_eq!(recent[0].source, "grpc");
    assert_eq!(s.get_s0_context(2).len(), 2);
    let before = s.s0.len();
    assert_eq!(s.flush_session_memory(true, String::new()), (true, 0));
    assert_eq!(s.s0.len(), before);
    s.flush_session_memory(false, "итог".to_string());
    assert_eq!(s.get_s0_context(1)[0].source, "grpc-flush");
}

#[test]
fn consolidate_workspace_turns_recent_actions_into_atoms() {
    let mut s = service();
    assert_eq!(s.consolidate_workspace(false), (false, 0));
    s.record_action("first".to_string());
    s.record_action("second".to_string());
    assert_eq!(s.consolidate_workspace(true), (true, 2));
    let atoms = s.l2.list_by_type(NodeType::Atom);
    let contents: Vec<&str> = atoms.iter().map(|n| n.content.as_str()).collect();
    assert!(contents.contains(&"first") && contents.contains(&"second"));
}

#[test]
fn workspace_tools() {
    let mut s = service();
    let w = s.create_workspace("proj".to_string(), String::new());
    assert!(w.path.is_none());
    let w2 = s.create_workspace("other".to_string(), "/tmp/other".to_string());
    assert_eq!(w2.path.as_deref(), Some("/tmp/other"));
    assert_eq!(s.workspace_manager.get_active_workspace_id(), Some(w.id.clone()));
    s.switch_workspace(&w2.id).unwrap();
    assert_eq!(s.workspace_manager.get_active_workspace_id(), Some(w2.id.clone()));
    assert_eq!(s.switch_workspace("nope").unwrap_err(), ServiceError::WorkspaceNotFound);
    s.archive_workspace(&w.id).unwrap();
    assert_eq!(s.archive_workspace("nope").unwrap_err(), ServiceError::WorkspaceNotFound);
    assert_eq!(s.list_workspaces("archived").len(), 1);
    assert_eq!(s.list_workspaces("active").len(), 1);
    assert_eq!(s.list_workspaces("").len(), 2);
    assert!(s.fetch_from_workspace(&w.id).unwrap().0.is_empty());
    assert_eq!(s.fetch_from_workspace("nope").unwrap_err(), ServiceError::WorkspaceNotFound);
    assert!(s.suggest_cross_workspace_links(&w.id, &w2.id).unwrap().is_empty());
    assert_eq!(s.suggest_cross_workspace_links(&w.id, "nope").unwrap_err(), ServiceError::WorkspaceNotFound);
}

#[test]
fn bootstrap_ids_and_verification_answers() {
    assert_eq!(bootstrap_workspace_id("C:\\proj/app"), "ws_C_proj_app");
    assert_eq!(bootstrap_workspace_id(""), "ws_");
    assert!(compare_verification_response("Да, всё так"));
    assert!(compare_verification_response("я УВЕРЕН"));
    assert!(!compare_verification_response("нет"));
    let mut s = service();
    s.finalize_verification("user1");
    let rep = s.trust_firewall.reputation("user1").unwrap();
    assert_eq!(rep.total_claims, 1);
    assert_eq!(rep.verified_claims, 1);
}

#[test]
fn node_ids_and_edges_in_the_graph_follow_the_store() {
    let mut s = service();
    s.propose_new_memory("L2", "cause", "c".to_string(), vec![], "", "c1").unwrap();
    s.propose_new_memory("L2", "effect", "e".to_string(), vec![], "", "e1").unwrap();
    s.link_nodes("c1", "e1", "leads_to").unwrap();
    let out = s.graph.out_edges(&NodeId("c1".to_string())).unwrap();
    assert_eq!(out.len(), 1);
}

#[test]
fn storage_keys_follow_the_key_space() {
    let id = NodeId("n1".to_string());
    assert_eq!(node_key(&id), "node:n1");
    assert_eq!(edge_key(&EdgeId("e1".to_string())), "edge:e1");
    assert_eq!(node_by_parent_key("ws1", &id), "nodeidx:by_parent:ws1:n1");
    assert_eq!(node_by_type_key(NodeType::Domain, &id), "nodeidx:by_type:domain:n1");
    assert_eq!(node_by_type_key(NodeType::Hub, &id), "nodeidx:by_type:hub:n1");
    assert_eq!(node_by_level_key(Level::GKL, &id), "nodeidx:by_level:gkl:n1");
    assert_eq!(node_type_name(NodeType::Cluster), "cluster");
    assert_eq!(level_name(Level::S0), "s0");
    assert_eq!(status_index_key(PlanStatus::PendingReview, "P1:x"), "plan:index:by_status:pending_review:P1:x");
    assert_ne!(node_key(&id), edge_key(&EdgeId("n1".to_string())));
}

#[test]
fn nodes_on_the_wire() {
    let mut s = service();
    let id = s.propose_new_memory("L1", "domain", "Учёт".to_string(), vec!["fin".to_string()], "draft", "d1").unwrap();
    let n = s.l2.get_node(&id).unwrap();
    let w = proto_node_from_graph_node(&n);
    assert_eq!(w.id, "d1");
    assert_eq!(w.node_type, "domain");
    assert_eq!(w.level, "L1");
    assert_eq!(w.status, "draft");
    assert_eq!(w.tags, vec!["fin".to_string()]);
    assert_eq!(w.parent_id, "");
    assert!(w.scope.is_empty() && w.summary.is_empty());
    assert_eq!(w.created_at, n.created_at.secs);
}
