use graphmind::actors::trust::verifiability_signals;
use graphmind::actors::causal_engine::{CausalEngine, ConflictType, InferenceContext};
use graphmind::actors::chain::ChainActor;
use graphmind::actors::config::{
    env_bool, parse_backend, parse_mcp_mode, BackendKind, Config, ConfigError, LlmConfig, LlmProvider, McpMode,
    RocksDbConfig,
};
use graphmind::actors::consolidate::{ConsolidateRunner, ConsolidateStats};
use graphmind::actors::coordinator::{CoordinatorCfg, MemoryEvent, MemoryOrchestrator};
use graphmind::actors::inference::{extract_pattern_key, parse_relation_name, severity_level, RiskLevel};
use graphmind::actors::l0::{similarity_links, L0Actor};
use graphmind::actors::l1::L1Actor;
use graphmind::actors::l2::L2Actor;
use graphmind::actors::orchestrator::OrchestratorActor;
use graphmind::actors::plan_actor::{PlanActor, PlanLevel, PlanStatus};
use graphmind::actors::search::{matches_filters, SearchActor, SearchFilters};
use graphmind::actors::trust::{gate_choice, GateChoice, SourceReputation, TrustDecision};
use graphmind::graph::edge::{Edge, Relation};
use graphmind::graph::node::{Level, Metadata, Node, NodeId, NodeType, Status};

// ---------------- Config ----------------

#[test]
fn test_parse_mcp_mode() {
    assert_eq!(parse_mcp_mode(None), McpMode::Dev);
    assert_eq!(parse_mcp_mode(Some("production")), McpMode::Production);
    assert_eq!(parse_mcp_mode(Some("test")), McpMode::Test);
}

#[test]
fn test_parse_backend() {
    assert_eq!(parse_backend(None), BackendKind::RocksDb);
    assert_eq!(parse_backend(Some("file")), BackendKind::File);
    assert_eq!(parse_backend(Some("memory")), BackendKind::InMemory);
}

#[test]
fn test_env_bool() {
    assert!(env_bool(Some("true")));
    assert!(!env_bool(Some("false")));
    assert!(!env_bool(Some("")));
    assert!(!env_bool(None));
}

#[test]
fn test_config_validation_production_requires_llm() {
    let config = Config {
        mcp_mode: McpMode::Production,
        llm: LlmConfig { provider: LlmProvider::Disabled, ..Default::default() },
        ..Default::default()
    };
    let result = config.validate();
    assert!(result.is_err());
    assert!(result.unwrap_err().message().contains("GRAPHMIND_LLM_PROVIDER is required"));
}

#[test]
fn test_config_validation_dev_allows_disabled_llm() {
    let config = Config {
        mcp_mode: McpMode::Dev,
        llm: LlmConfig { provider: LlmProvider::Disabled, ..Default::default() },
        ..Default::default()
    };
    assert!(config.validate().is_ok());
}

#[test]
fn test_bug_003_production_rocksdb_without_feature_fails_fast() {
    let config = Config {
        mcp_mode: McpMode::Production,
        backend: BackendKind::RocksDb,
        llm: LlmConfig {
            provider: LlmProvider::OpenAICompatible,
            base_url: Some("https://api.kodikrouter.ru".to_string()),
            model: "minimax/minimax-m2.7".to_string(),
            api_key: Some("test-key".to_string()),
            ..Default::default()
        },
        rocksdb: RocksDbConfig { use_fsync: true, ..Default::default() },
        ..Default::default()
    };
    let result = config.validate();
    assert!(result.is_err());
    let err = result.unwrap_err().message();
    assert!(err.contains("--features") && err.contains("silent"), "unexpected error message: {err}");
}

#[test]
fn test_bug_003_dev_rocksdb_without_feature_allows_fallback() {
    let config = Config { mcp_mode: McpMode::Dev, backend: BackendKind::RocksDb, ..Default::default() };
    assert!(config.validate().is_ok());
}

#[test]
fn config_errors_each_case() {
    let mock = Config {
        mcp_mode: McpMode::Production,
        llm: LlmConfig { provider: LlmProvider::Mock, ..Default::default() },
        ..Default::default()
    };
    assert_eq!(mock.validate(), Err(ConfigError::MockInProduction));
    let no_key = Config {
        mcp_mode: McpMode::Production,
        llm: LlmConfig { provider: LlmProvider::OpenAI, ..Default::default() },
        ..Default::default()
    };
    assert_eq!(no_key.validate(), Err(ConfigError::ApiKeyRequired(LlmProvider::OpenAI)));
    let no_base = Config {
        llm: LlmConfig { provider: LlmProvider::OpenAICompatible, model: "m".into(), ..Default::default() },
        ..Default::default()
    };
    assert_eq!(no_base.validate(), Err(ConfigError::BaseUrlRequired));
    let no_model = Config {
        llm: LlmConfig {
            provider: LlmProvider::OpenAICompatible,
            base_url: Some("http://x/v1".into()),
            ..Default::default()
        },
        ..Default::default()
    };
    assert_eq!(no_model.validate(), Err(ConfigError::ModelRequired));
    let no_fsync = Config {
        mcp_mode: McpMode::Production,
        backend: BackendKind::RocksDb,
        llm: LlmConfig { provider: LlmProvider::OpenAI, api_key: Some("k".into()), ..Default::default() },
        rocksdb: RocksDbConfig { use_fsync: false, ..Default::default() },
        ..Default::default()
    };
    assert_eq!(no_fsync.validate(), Err(ConfigError::FsyncRequired));
}

// ---------------- Chains ----------------

#[test]
fn test_chain_backward_empty() {
    let l2 = L2Actor::new();
    let actor = ChainActor::new();
    let result = actor.chain_backward(&l2, "test symptom", 3);
    assert!(result.entries.is_empty());
    assert!(!result.reached_root);
}

#[test]
fn test_chain_forward_pre_from_non_cause() {
    let mut l2 = L2Actor::new();
    let actor = ChainActor::new();
    let node_id = l2.add_node(&Node::new(NodeType::Atom, "test atom".to_string()));
    assert!(actor.chain_forward_pre(&l2, &node_id, 3).is_err());
}

#[test]
fn test_chain_post_mortem_unlimited_depth() {
    let l2 = L2Actor::new();
    let actor = ChainActor::new();
    assert!(actor.chain_post_mortem(&l2, "production outage").entries.is_empty());
}

#[test]
fn chain_forward_pre_reaches_effects() {
    let mut l2 = L2Actor::new();
    let cause = Node::new(NodeType::Cause, "Docker cache stale".to_string());
    let effect = Node::new(NodeType::Effect, "Old image deployed".to_string());
    l2.add_node(&cause);
    l2.add_node(&effect);
    l2.add_edge(&Edge::new(cause.id.clone(), effect.id.clone(), Relation::LeadsTo));
    let r = ChainActor::new().chain_forward_pre(&l2, &cause.id, 3).unwrap();
    assert_eq!(r.entries.len(), 2);
    assert_eq!(r.entries[0].node_id, cause.id);
    assert_eq!(r.entries[0].depth, 0);
    assert_eq!(r.entries[1].node_id, effect.id);
    assert_eq!(r.entries[1].depth, 1);
}

// ---------------- Causal engine ----------------

#[test]
fn test_infer_relation_cause_to_effect() {
    let context = InferenceContext {
        source_node: Node::new(NodeType::Cause, "Docker cache не инвалидируется".to_string()),
        target_node: Node::new(NodeType::Effect, "Docker образ содержит старую версию".to_string()),
        context: None,
    };
    assert_eq!(CausalEngine::infer_relation_kind(&context), Relation::LeadsTo);
}

#[test]
fn test_infer_relation_effect_to_cause() {
    let context = InferenceContext {
        source_node: Node::new(NodeType::Effect, "Пользователи видят баги".to_string()),
        target_node: Node::new(NodeType::Cause, "Тесты не покрывают edge cases".to_string()),
        context: None,
    };
    assert_eq!(CausalEngine::infer_relation_kind(&context), Relation::ExplainedBy);
}

#[test]
fn test_infer_relation_rule_to_cause_with_prevention() {
    let context = InferenceContext {
        source_node: Node::new(NodeType::Rule, "IF Docker build THEN always add --no-cache".to_string()),
        target_node: Node::new(NodeType::Cause, "Docker cache не инвалидируется".to_string()),
        context: None,
    };
    assert_eq!(CausalEngine::infer_relation_kind(&context), Relation::Inhibits);
}

#[test]
fn test_find_contradictions_semantic_opposition() {
    let nodes = vec![
        Node::new(NodeType::Atom, "Сервис работает".to_string()),
        Node::new(NodeType::Atom, "Сервис не работает".to_string()),
    ];
    let contradictions = CausalEngine::find_contradictions(&nodes);
    assert_eq!(contradictions.len(), 1);
    assert_eq!(contradictions[0].conflict_type, ConflictType::SemanticOpposition);
}

#[test]
fn rule_against_cause_is_a_violation() {
    let nodes = vec![
        Node::new(NodeType::Rule, "Never store secrets in ENV".to_string()),
        Node::new(NodeType::Cause, "Secrets stored in ENV".to_string()),
    ];
    let c = CausalEngine::find_contradictions(&nodes);
    assert_eq!(c.len(), 1);
    assert_eq!(c[0].conflict_type, ConflictType::RuleViolatesCause);
}

// ---------------- Inference ----------------

#[test]
fn test_extract_pattern_key() {
    assert_eq!(extract_pattern_key("Docker Cache Not Invalidated Properly"), "docker_cache_not");
    assert_eq!(extract_pattern_key("One"), "one");
}

#[test]
fn test_assess_severity_critical() {
    assert_eq!(severity_level("Production crash at night"), RiskLevel::Critical);
}

#[test]
fn test_assess_severity_high() {
    assert_eq!(severity_level("Build fails with error"), RiskLevel::High);
}

#[test]
fn test_assess_severity_medium() {
    assert_eq!(severity_level("Slow response"), RiskLevel::Medium);
}

#[test]
fn test_assess_severity_low() {
    assert_eq!(severity_level("Docs updated"), RiskLevel::Low);
}

#[test]
fn relation_names_are_normalised() {
    assert_eq!(parse_relation_name("Leads-To"), Relation::LeadsTo);
    assert_eq!(parse_relation_name("explainedby"), Relation::ExplainedBy);
    assert_eq!(parse_relation_name("something"), Relation::RelatedTo);
}

// ---------------- Plans ----------------

const DECOMPOSE_DESC: &str =
    "Создать документацию GraphMind v2 с примерами использования и руководством по настройке";

fn actor_with_response(response: Vec<String>) -> PlanActor {
    let mut orch = OrchestratorActor::new("http://127.0.0.1:1".to_string(), None, "test-model".to_string());
    orch.add_test_response(response);
    PlanActor::with_orchestrator(orch)
}

#[test]
fn test_create_p0_and_propose_p1() {
    let mut actor = PlanActor::new();
    let p0 = actor.plan_create_p0("Build GraphMind v2".to_string(), true);
    assert_eq!(p0.level, PlanLevel::P0);
    assert!(p0.autonomous_mode);
    let p1 = actor.plan_propose_p1(&p0.id, "Implement Config actor".to_string()).unwrap();
    assert_eq!(p1.level, PlanLevel::P1);
    assert_eq!(p1.parent_id, Some(p0.id.clone()));
    assert_eq!(p1.status, PlanStatus::PendingReview);
    assert!(p1.quality_tenths > 0);
}

#[test]
fn test_approve_reject_p1() {
    let mut actor = PlanActor::new();
    let p0 = actor.plan_create_p0("P0".to_string(), false);
    let p1 = actor.plan_propose_p1(&p0.id, "Implement X".to_string()).unwrap();
    assert_eq!(actor.plan_approve_p1(&p1.id).unwrap().status, PlanStatus::Approved);
    let p1b = actor.plan_propose_p1(&p0.id, "Implement Y".to_string()).unwrap();
    let rejected = actor.plan_reject_p1(&p1b.id, "out of scope".to_string()).unwrap();
    assert_eq!(rejected.status, PlanStatus::Rejected);
    assert_eq!(rejected.problem_comment, Some("out of scope".to_string()));
}

#[test]
fn test_decompose_p0_to_p1() {
    let mut actor = actor_with_response(vec![
        "Создать структуру проекта".to_string(),
        "Реализовать базовый API".to_string(),
        "Настроить CI/CD".to_string(),
    ]);
    let p0 = actor.plan_create_p0(DECOMPOSE_DESC.to_string(), false);
    let children = actor.plan_decompose(&p0.id).unwrap();
    assert!(children.len() >= 2, "got {} children", children.len());
    assert!(children.iter().all(|c| c.level == PlanLevel::P1));
    assert!(children.iter().all(|c| c.parent_id == Some(p0.id.clone())));
    assert!(!children.iter().any(|c| c.description.starts_with("Исследовать:")));
    assert!(!children.iter().any(|c| c.description.starts_with("Спроектировать:")));
    assert!(!children.iter().any(|c| c.description.starts_with("Реализовать:")));
}

#[test]
fn test_decompose_returns_error_when_llm_fails() {
    let orch = OrchestratorActor::new("http://127.0.0.1:1".to_string(), None, "test-model".to_string());
    let mut actor = PlanActor::with_orchestrator(orch);
    let p0 = actor.plan_create_p0(DECOMPOSE_DESC.to_string(), false);
    assert!(actor.plan_decompose(&p0.id).is_err());
}

#[test]
fn test_claim_complete_p3() {
    let mut orch = OrchestratorActor::new("http://127.0.0.1:1".to_string(), None, "test-model".to_string());
    orch.add_test_response(vec!["P2-задача A".to_string(), "P2-задача B".to_string()]);
    orch.add_test_response(vec!["P3-подзадача X".to_string(), "P3-подзадача Y".to_string()]);
    let mut actor = PlanActor::with_orchestrator(orch);
    let p0 = actor.plan_create_p0(DECOMPOSE_DESC.to_string(), false);
    let p1 = actor.plan_propose_p1(&p0.id, "Реализовать секцию API".to_string()).unwrap();
    actor.plan_approve_p1(&p1.id).unwrap();
    let children_p2 = actor.plan_decompose(&p1.id).unwrap();
    assert!(!children_p2.is_empty());
    let p2 = children_p2[0].clone();
    let children_p3 = actor.plan_decompose(&p2.id).unwrap();
    assert!(!children_p3.is_empty());
    let p3 = children_p3[0].clone();
    assert_eq!(p3.level, PlanLevel::P3);
    let claimed = actor.plan_claim(&p3.id, "agent-42".to_string()).unwrap();
    assert_eq!(claimed.status, PlanStatus::InProgress);
    assert_eq!(claimed.claimed_by, Some("agent-42".to_string()));
    let done = actor.plan_complete(&p3.id, "all good".to_string()).unwrap();
    assert_eq!(done.status, PlanStatus::Done);
    assert_eq!(done.result, Some("all good".to_string()));
}

#[test]
fn test_status_filter() {
    let mut actor = PlanActor::new();
    let p0 = actor.plan_create_p0("P0".to_string(), false);
    actor.plan_propose_p1(&p0.id, "P1".to_string()).unwrap();
    let pending = actor.plan_status(Some(PlanStatus::PendingReview));
    assert_eq!(pending.len(), 1);
    assert_eq!(pending[0].status, PlanStatus::PendingReview);
}

#[test]
fn plan_updates_are_read_back() {
    let mut actor = PlanActor::new();
    let p0 = actor.plan_create_p0("Epic".to_string(), false);
    let mut changed = actor.get_plan(&p0.id).unwrap();
    changed.description = "Epic, reworded".to_string();
    actor.update_plan(&p0.id, changed);
    assert_eq!(actor.get_plan(&p0.id).unwrap().description, "Epic, reworded");
    assert!(actor.plan_delete(&p0.id, true));
    assert!(actor.get_plan(&p0.id).is_none());
}

// ---------------- Search ----------------

fn make_node(content: &str, node_type: NodeType, level: Level, workspace: Option<&str>) -> Node {
    let mut n = Node::new(node_type, content.to_string());
    n.level = level;
    n.metadata.workspace_id = workspace.map(String::from);
    n
}

#[test]
fn test_keyword_search() {
    let mut actor = SearchActor::new();
    let node1 = make_node("Clerk authentication setup", NodeType::Atom, Level::L2, Some("ws1"));
    let node2 = make_node("PostgreSQL database", NodeType::Atom, Level::L2, Some("ws1"));
    actor.index_node(&node1);
    actor.index_node(&node2);
    let results = actor.keyword_search(&vec!["clerk".to_string()], 5, &SearchFilters::default());
    assert_eq!(results.len(), 1);
    assert_eq!(results[0].node.id, node1.id);
    assert_eq!(results[0].matches, 1);
}

#[test]
fn test_memory_index_matches_filters() {
    let metadata = Metadata {
        parent_id: None,
        workspace_id: Some("ws1".to_string()),
        tags: vec!["rust".to_string(), "test".to_string()],
    };
    let filters = SearchFilters {
        workspace_id: Some("ws1".to_string()),
        tags: vec!["rust".to_string()],
        ..Default::default()
    };
    assert!(matches_filters(&metadata, &filters));
    let wrong_ws = SearchFilters { workspace_id: Some("ws2".to_string()), ..Default::default() };
    assert!(!matches_filters(&metadata, &wrong_ws));
}

#[test]
fn keyword_search_ranks_by_matches_then_cache_order() {
    let mut actor = SearchActor::new();
    let a = make_node("alpha beta", NodeType::Atom, Level::L2, None);
    let b = make_node("alpha gamma beta", NodeType::Atom, Level::L2, None);
    let c = make_node("alpha only", NodeType::Atom, Level::L2, None);
    let d = make_node("nothing here", NodeType::Atom, Level::L2, None);
    for n in [&a, &b, &c, &d] {
        actor.index_node(n);
    }
    let kws = vec!["ALPHA".to_string(), "beta".to_string()];
    let r = actor.keyword_search(&kws, 10, &SearchFilters::default());
    let ids: Vec<NodeId> = r.iter().map(|h| h.node.id.clone()).collect();
    assert_eq!(ids, vec![a.id.clone(), b.id.clone(), c.id.clone()]);
    assert_eq!(r.iter().map(|h| h.matches).collect::<Vec<_>>(), vec![2, 2, 1]);
    let top = actor.keyword_search(&kws, 1, &SearchFilters::default());
    assert_eq!(top.len(), 1);
    assert_eq!(top[0].node.id, a.id);
    assert!(actor.keyword_search(&Vec::new(), 10, &SearchFilters::default()).is_empty());
}

#[test]
fn keyword_search_applies_filters() {
    let mut actor = SearchActor::new();
    let a = make_node("clerk one", NodeType::Atom, Level::L2, Some("ws1"));
    let b = make_node("clerk two", NodeType::Cause, Level::L2, Some("ws2"));
    actor.index_node(&a);
    actor.index_node(&b);
    let f = SearchFilters { node_type: Some(NodeType::Cause), ..Default::default() };
    let r = actor.keyword_search(&vec!["clerk".to_string()], 5, &f);
    assert_eq!(r.len(), 1);
    assert_eq!(r[0].node.id, b.id);
    let f2 = SearchFilters { workspace_id: Some("ws1".to_string()), ..Default::default() };
    let r2 = actor.keyword_search(&vec!["clerk".to_string()], 5, &f2);
    assert_eq!(r2.len(), 1);
    assert_eq!(r2[0].node.id, a.id);
}

#[test]
fn resolve_hits_skips_unknown_and_filtered() {
    let mut actor = SearchActor::new();
    let a = make_node("a", NodeType::Atom, Level::L2, None);
    let b = make_node("b", NodeType::Atom, Level::L1, None);
    actor.index_node(&a);
    actor.index_node(&b);
    let hits = vec![(b.id.clone(), 7u32), (NodeId("missing".into()), 1u32), (a.id.clone(), 3u32)];
    let f = SearchFilters { level: Some(Level::L2), ..Default::default() };
    let r = actor.resolve_hits(&hits, &f);
    assert_eq!(r.len(), 1);
    assert_eq!(r[0].node_id, a.id);
    assert_eq!(r[0].score_bits, 3);
    let all = actor.resolve_hits(&hits, &SearchFilters::default());
    assert_eq!(all.len(), 2);
    assert_eq!(all[0].node_id, b.id);
}

#[test]
fn test_remove_node() {
    let mut actor = SearchActor::new();
    let a = make_node("clerk", NodeType::Atom, Level::L2, None);
    actor.index_node(&a);
    actor.remove_node(&a.id);
    assert!(actor.keyword_search(&vec!["clerk".to_string()], 5, &SearchFilters::default()).is_empty());
    assert_eq!(actor.stats(0).cache_count, 0);
}

#[test]
fn test_clear_cache() {
    let mut actor = SearchActor::new();
    actor.index_node(&make_node("x", NodeType::Atom, Level::L2, None));
    actor.index_node(&make_node("y", NodeType::Atom, Level::L2, None));
    assert_eq!(actor.stats(2).cache_count, 2);
    actor.clear_cache();
    let s = actor.stats(2);
    assert_eq!(s.cache_count, 0);
    assert_eq!(s.vector_count, 2);
    assert_eq!(actor.embedding_backend_label(), "char_bag_fallback");
}

// ---------------- Trust ----------------

#[test]
fn test_reputation_update() {
    let mut r = SourceReputation::new("agent:a".to_string());
    r.update(true);
    r.update(false);
    r.update(true);
    assert_eq!(r.total_claims, 3);
    assert_eq!(r.verified_claims, 2);
    assert_eq!(r.false_claims, 1);
}

#[test]
fn test_gate_soft_policy() {
    assert_eq!(gate_choice(false, TrustDecision::Block, false), GateChoice::Write(Status::Active));
    assert_eq!(gate_choice(false, TrustDecision::Block, true), GateChoice::Write(Status::Draft));
    assert_eq!(gate_choice(true, TrustDecision::Block, true), GateChoice::Refuse);
    assert_eq!(gate_choice(true, TrustDecision::Verify, false), GateChoice::Write(Status::Draft));
    assert_eq!(gate_choice(true, TrustDecision::Accept, true), GateChoice::Write(Status::Active));
}

// ---------------- Coordinator ----------------

#[test]
fn test_cycle_trigger_fires_at_threshold() {
    let mut o = MemoryOrchestrator::new(CoordinatorCfg { min_new_nodes: 3, max_idle_secs: 3600, tick_secs: 60, max_decisions: 10 });
    let ev = MemoryEvent::NodeWritten { workspace: "w".into() };
    assert!(o.handle_event(&ev, 1, "t1").is_empty());
    assert!(o.handle_event(&ev, 2, "t2").is_empty());
    assert!(o.status(2).recent_decisions.is_empty());
    let due = o.handle_event(&ev, 3, "t3");
    assert_eq!(due.len(), 1);
    assert_eq!(due[0].workspace, "w");
    assert_eq!(due[0].reason, "cycle:min_new_nodes");
    assert!(o.begin_consolidation("w"));
    assert!(!o.begin_consolidation("w"));
    let outcome: Result<ConsolidateStats, String> = Ok(ConsolidateStats::default());
    o.finish_consolidation("w", "cycle:min_new_nodes", &outcome, 4, "t4");
    let s = o.status(4);
    assert_eq!(s.recent_decisions.len(), 1);
    assert_eq!(s.recent_decisions[0].action, "cycle:min_new_nodes");
    assert_eq!(s.recent_decisions[0].detail, "l2_atoms=0, new_l1=0, new_l0=0, drained=0");
    let w = s.workspaces.iter().find(|x| x.workspace == "w").unwrap();
    assert_eq!(w.new_since_consolidation, 0);
    assert!(s.consolidating.is_empty());
}

#[test]
fn test_firewall_block_logged() {
    let mut o = MemoryOrchestrator::new(CoordinatorCfg::default());
    let ev = MemoryEvent::TrustFirewallBlock { source_id: "project:bad".into(), reason: "манипуляция".into() };
    assert!(o.handle_event(&ev, 0, "t").is_empty());
    let s = o.status(0);
    assert_eq!(s.recent_decisions.len(), 1);
    assert_eq!(s.recent_decisions[0].action, "trust_block");
    assert_eq!(s.recent_decisions[0].workspace, "(firewall)");
    assert_eq!(s.recent_decisions[0].detail, "project:bad: манипуляция");
}

#[test]
fn idle_tick_requests_consolidation() {
    let mut o = MemoryOrchestrator::new(CoordinatorCfg { min_new_nodes: 100, max_idle_secs: 10, tick_secs: 1, max_decisions: 2 });
    o.handle_event(&MemoryEvent::NodeWritten { workspace: "a".into() }, 0, "t");
    o.handle_event(&MemoryEvent::ActionRecorded { workspace: "b".into() }, 0, "t");
    assert!(o.handle_event(&MemoryEvent::Tick, 5, "t").is_empty());
    let due = o.handle_event(&MemoryEvent::Tick, 10, "t");
    assert_eq!(due.len(), 1);
    assert_eq!(due[0].workspace, "a");
    assert_eq!(due[0].reason, "cycle:idle");
    let failed: Result<ConsolidateStats, String> = Err("boom".to_string());
    o.begin_consolidation("a");
    o.finish_consolidation("a", "cycle:idle", &failed, 11, "t");
    o.record_decision("x", "y", "z", "t");
    o.record_decision("x2", "y2", "z2", "t");
    let s = o.status(12);
    assert_eq!(s.recent_decisions.len(), 2);
    assert_eq!(s.recent_decisions[0].workspace, "x2");
    assert_eq!(s.recent_decisions[1].workspace, "x");
    let a = s.workspaces.iter().find(|x| x.workspace == "a").unwrap();
    assert_eq!(a.new_since_consolidation, 1);
    assert_eq!(a.idle_secs, 12);
}

// ---------------- Consolidation ----------------

#[test]
fn consolidation_builds_domains_and_clusters() {
    let mut l2 = L2Actor::new();
    let mut mk = |c: &str| {
        let mut n = Node::new(NodeType::Atom, c.to_string());
        n.metadata.workspace_id = Some("w".to_string());
        l2.add_node(&n);
        n
    };
    let a = mk("Clerk login flow");
    let b = mk("Clerk session tokens");
    let c = mk("Unrelated atom");
    l2.add_edge(&Edge::new(a.id.clone(), b.id.clone(), Relation::LeadsTo));
    let _ = c;
    let mut runner = ConsolidateRunner::new(l2, Some(L1Actor::new()), Some(L0Actor::new()));
    let s = runner.run("w", 4, 2, None);
    assert_eq!(s.drained_from_queue, 4);
    assert_eq!(s.l2_atoms, 2);
    assert_eq!(s.l2_edges, 1);
    assert_eq!(s.new_l1_count, 1);
    assert_eq!(s.new_l0_count, 1);
}

#[test]
fn consolidation_follows_the_llm_grouping() {
    let mut l2 = L2Actor::new();
    for c in ["счёт", "налог", "встреча"] {
        let mut n = Node::new(NodeType::Atom, c.to_string());
        n.metadata.workspace_id = Some("w".to_string());
        l2.add_node(&n);
    }
    let mut runner = ConsolidateRunner::new(l2, Some(L1Actor::new()), None);
    let answer = r#"[{"name":"Учёт","members":[0,1]},{"name":"Встречи","members":[2]}]"#;
    let s = runner.run("w", 0, 0, Some(answer));
    assert_eq!(s.new_l1_count, 2);
    assert_eq!(s.l2_edges, 0);
    let without = ConsolidateRunner::new(L2Actor::new(), Some(L1Actor::new()), None).run("w", 0, 0, Some(answer));
    assert_eq!(without.new_l1_count, 0);
}

#[test]
fn consolidation_without_layers_counts_only() {
    let l2 = L2Actor::new();
    let mut runner = ConsolidateRunner::new(l2, None, None);
    let s = runner.run("w", 0, 0, None);
    assert_eq!(s.new_l1_count, 0);
    assert_eq!(s.new_l0_count, 0);
    assert_eq!(s.l2_edges, 0);
}

// ---------------- Similarity ----------------

#[test]
fn test_compute_text_similarity() {
    let d = |c: &str| Node::new(NodeType::Domain, c.to_string());
    let same = vec![d("Clerk middleware"), d("Clerk middleware")];
    assert_eq!(similarity_links(&same).len(), 1);
    let close = vec![d("Clerk middleware"), d("Clerk React client")];
    assert_eq!(similarity_links(&close).len(), 1);
    let apart = vec![d("Clerk middleware"), d("PostgreSQL schema")];
    assert!(similarity_links(&apart).is_empty());
    let reversed = vec![d("Clerk React client"), d("Clerk middleware")];
    assert_eq!(similarity_links(&reversed).len(), 1);
    let short = vec![d("a b"), d("a b")];
    assert!(similarity_links(&short).is_empty());
}

#[test]
fn verifiability_signals_find_numbers_and_sources() {
    assert_eq!(verifiability_signals("5 пользователей сообщили о проблеме"), (true, false));
    assert_eq!(verifiability_signals("что-то произошло"), (false, false));
    assert_eq!(verifiability_signals("по данным отчёта"), (false, true));
}

fn calibrated(confidence: f32, source: Option<&str>, evidence: usize, consistent: bool) -> (f32, usize) {
    let factors = CausalEngine::calibration_factors(source, evidence, consistent);
    let multiplier: f32 = factors.iter().map(|f| f.percent as f32 / 100.0).product();
    (((confidence * multiplier).clamp(0.0, 1.0) * 100.0).round() / 100.0, factors.len())
}

#[test]
fn test_calibrate_confidence_observed_with_evidence() {
    let (c, n) = calibrated(0.7, Some("observed"), 3, true);
    assert!(c > 0.7);
    assert!(c <= 1.0);
    assert_eq!(n, 3);
}

#[test]
fn test_calibrate_confidence_hypothesized_no_evidence() {
    let (c, _) = calibrated(0.6, Some("hypothesized"), 0, false);
    assert!(c < 0.6);
    assert!(c >= 0.0);
}

#[test]
fn calibration_factors_name_each_signal() {
    let f = CausalEngine::calibration_factors(Some("derived"), 2, true);
    let got: Vec<(&str, u32)> = f.iter().map(|x| (x.label.as_str(), x.percent)).collect();
    assert_eq!(got, vec![("source=derived (+0.1)", 110), ("evidence_count=2 (+0.05)", 105), ("consistent (+0.1)", 110)]);
    let g = CausalEngine::calibration_factors(None, 12, false);
    assert_eq!(g[0].percent, 100);
    assert_eq!(g[1].label, "evidence_count=12 (+0.15)");
    assert_eq!(g[2].percent, 85);
}
