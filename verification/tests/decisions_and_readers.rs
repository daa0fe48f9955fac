use graphmind::actors::answers::{
    contradictions_from_json, ratings_from_json, read_answer, relation_from_json, rule_from_json,
};
use graphmind::actors::causal_engine::{CausalEngine, ConflictType};
use graphmind::actors::llm_client::{chat_reply_from_json, chat_reply_of};
use graphmind::actors::orchestrator::{children_from_answer, OrchestratorActor};
use graphmind::actors::plan_actor::{PlanActor, PlanError};
use graphmind::actors::chain::{ChainActor, ChainResult};
use graphmind::actors::config::{Config, ConfigError, LlmConfig, LlmProvider, McpMode};
use graphmind::actors::l2::L2Actor;
use graphmind::graph::edge::{Edge, Relation};
use graphmind::graph::node::{Node, NodeId, NodeType};
use graphmind::service::{ServiceError, StatusCode};

#[test]
fn prepared_answers_come_out_oldest_first() {
    let mut o = OrchestratorActor::new("http://127.0.0.1:1".to_string(), None, "test-model".to_string());
    o.add_test_response(vec!["A".to_string()]);
    o.add_test_response(vec!["B".to_string()]);
    assert_eq!(o.next_test_response(), Some(vec!["A".to_string()]));
    assert_eq!(o.next_test_response(), Some(vec!["B".to_string()]));
    assert_eq!(o.next_test_response(), None);
}

#[test]
fn decomposition_uses_prepared_answers_in_queue_order() {
    let mut orch = OrchestratorActor::new("http://127.0.0.1:1".to_string(), None, "test-model".to_string());
    orch.add_test_response(vec!["P2-задача A".to_string(), "P2-задача B".to_string()]);
    orch.add_test_response(vec!["P3-подзадача X".to_string()]);
    let mut actor = PlanActor::with_orchestrator(orch);
    let p0 = actor.plan_create_p0("Создать документацию GraphMind v2 с примерами использования и руководством по настройке".to_string(), false);
    let p1 = actor.plan_propose_p1(&p0.id, "Реализовать секцию API".to_string()).unwrap();
    actor.plan_approve_p1(&p1.id).unwrap();
    let p2s = actor.plan_decompose(&p1.id).unwrap();
    let texts: Vec<&str> = p2s.iter().map(|p| p.description.as_str()).collect();
    assert_eq!(texts, vec!["P2-задача A", "P2-задача B"]);
    let p3s = actor.plan_decompose(&p2s[0].id).unwrap();
    assert_eq!(p3s.len(), 1);
    assert_eq!(p3s[0].description, "P3-подзадача X");
}

#[test]
fn children_from_answer_cleans_lines() {
    let kids = children_from_answer("Вот список:\n1. Спроектировать схему\n- Написать миграции\n\n```\n").unwrap();
    assert_eq!(kids, vec!["Спроектировать схему".to_string(), "Написать миграции".to_string()]);
}

#[test]
fn children_from_answer_refuses_an_empty_answer() {
    assert_eq!(children_from_answer("Вот список:\n\n# Заголовок\n"), Err(PlanError::EmptyDecomposition));
    assert_eq!(children_from_answer(""), Err(PlanError::EmptyDecomposition));
}

#[test]
fn chat_reply_reads_the_first_choice() {
    let body = r#"{"id":"x","choices":[{"message":{"role":"assistant","content":"привет"}},{"message":{"content":"second"}}]}"#;
    assert_eq!(chat_reply_of(body), Some("привет".to_string()));
    let j = read_answer(body, '{', '}').unwrap();
    assert_eq!(chat_reply_from_json(&j), Some("привет".to_string()));
}

#[test]
fn chat_reply_refuses_other_shapes() {
    assert_eq!(chat_reply_of("not json"), None);
    assert_eq!(chat_reply_of(r#"{"choices":[]}"#), None);
    assert_eq!(chat_reply_of(r#"{"data":[1]}"#), None);
    assert_eq!(chat_reply_of(r#"{"choices":[{"message":{"content":7}}]}"#), None);
    assert_eq!(chat_reply_of(r#"{"choices":[{"text":"x"}]}"#), None);
}

#[test]
fn rule_checks_explain_their_conflicts() {
    let a = Node::new(NodeType::Atom, "Сервис работает".to_string());
    let b = Node::new(NodeType::Atom, "Сервис не работает".to_string());
    let c = CausalEngine::check_pair(&a, &b).unwrap();
    assert_eq!(c.conflict_type, ConflictType::SemanticOpposition);
    assert_eq!(c.explanation, "Узлы содержат противоположные утверждения");
    let rule = Node::new(NodeType::Rule, "Always flush the cache".to_string());
    let cause = Node::new(NodeType::Cause, "cache not flushed".to_string());
    let d = CausalEngine::check_pair(&rule, &cause).unwrap();
    assert_eq!(d.conflict_type, ConflictType::RuleViolatesCause);
    assert_eq!(d.explanation, "Rule ингибирует Cause");
    let all = CausalEngine::find_contradictions(&[a, b]);
    assert_eq!(all.len(), 1);
    assert_eq!(all[0].explanation, "Узлы содержат противоположные утверждения");
}

#[test]
fn readers_work_on_parsed_values() {
    let nodes = vec![Node::new(NodeType::Atom, "x".to_string()), Node::new(NodeType::Atom, "y".to_string())];
    let arr = read_answer(r#"[{"a":0,"b":1},{"a":1,"b":1}]"#, '[', ']').unwrap();
    let cs = contradictions_from_json(&arr, &nodes);
    assert_eq!(cs.len(), 1);
    assert_eq!(cs[0].node_a, nodes[0].id);
    assert_eq!(cs[0].explanation, "смысловое противоречие");
    let obj = read_answer(r#"{"relation":"leads_to","confidence":0.8}"#, '{', '}').unwrap();
    let rel = relation_from_json(&obj).unwrap();
    assert_eq!(rel.relation, Relation::LeadsTo);
    assert_eq!(rel.confidence, Some("0.8".to_string()));
    assert_eq!(rel.reasoning, "LLM-инференс");
    assert!(contradictions_from_json(&obj, &nodes).is_empty());
    let rule = read_answer(r#"{"if_conditions":["a",3,"b"],"then_effect":"c"}"#, '{', '}').unwrap();
    assert_eq!(rule_from_json(&rule), Some((vec!["a".to_string(), "b".to_string()], "c".to_string())));
    assert_eq!(rule_from_json(&obj), None);
    let ratings = read_answer(r#"[{"i":0,"severity":0.5},{"i":9,"severity":1}]"#, '[', ']').unwrap();
    assert_eq!(ratings_from_json(&ratings, 2), vec![(0usize, "0.5".to_string())]);
    assert!(ratings_from_json(&obj, 2).is_empty());
}

#[test]
fn refusals_have_status_codes() {
    assert_eq!(ServiceError::UnknownDirection.code(), StatusCode::InvalidArgument);
    assert_eq!(ServiceError::AnchorTextRequired.code(), StatusCode::InvalidArgument);
    assert_eq!(ServiceError::NodeIdRequired.code(), StatusCode::InvalidArgument);
    assert_eq!(ServiceError::UnknownNodeType.code(), StatusCode::InvalidArgument);
    assert_eq!(ServiceError::NodeNotFound.code(), StatusCode::NotFound);
    assert_eq!(ServiceError::WorkspaceNotFound.code(), StatusCode::NotFound);
    assert_eq!(ServiceError::NotACause.code(), StatusCode::Internal);
}

fn depth_of(r: &ChainResult, id: &NodeId) -> Option<usize> {
    r.entries.iter().find(|e| &e.node_id == id).map(|e| e.depth)
}

#[test]
fn backward_chain_lists_nodes_at_their_shortest_distance() {
    let mut l2 = L2Actor::new();
    let s = Node::new(NodeType::Effect, "service down".to_string());
    let a = Node::new(NodeType::Atom, "pool exhausted".to_string());
    let t = Node::new(NodeType::Atom, "connections leak".to_string());
    let u = Node::new(NodeType::Cause, "missing close() call".to_string());
    for n in [&s, &a, &t, &u] {
        l2.add_node(n);
    }
    l2.add_edge(&Edge::new(s.id.clone(), a.id.clone(), Relation::ExplainedBy));
    l2.add_edge(&Edge::new(a.id.clone(), t.id.clone(), Relation::ExplainedBy));
    l2.add_edge(&Edge::new(s.id.clone(), t.id.clone(), Relation::ExplainedBy));
    l2.add_edge(&Edge::new(u.id.clone(), t.id.clone(), Relation::LeadsTo));
    let r = ChainActor::new().chain_backward_from_node(&l2, &s.id, 2);
    assert_eq!(depth_of(&r, &s.id), Some(0));
    assert_eq!(depth_of(&r, &a.id), Some(1));
    assert_eq!(depth_of(&r, &t.id), Some(1));
    assert_eq!(depth_of(&r, &u.id), Some(2));
    assert!(r.reached_root);
}

#[test]
fn forward_chain_lists_nodes_at_their_shortest_distance() {
    let mut l2 = L2Actor::new();
    let c = Node::new(NodeType::Cause, "cache stale".to_string());
    let e1 = Node::new(NodeType::Effect, "old image".to_string());
    let e2 = Node::new(NodeType::Effect, "wrong version served".to_string());
    let e3 = Node::new(NodeType::Effect, "users see old UI".to_string());
    for n in [&c, &e1, &e2, &e3] {
        l2.add_node(n);
    }
    l2.add_edge(&Edge::new(c.id.clone(), e1.id.clone(), Relation::LeadsTo));
    l2.add_edge(&Edge::new(e1.id.clone(), e2.id.clone(), Relation::LeadsTo));
    l2.add_edge(&Edge::new(c.id.clone(), e2.id.clone(), Relation::LeadsTo));
    l2.add_edge(&Edge::new(e2.id.clone(), e3.id.clone(), Relation::LeadsTo));
    let r = ChainActor::new().chain_forward_pre(&l2, &c.id, 2).unwrap();
    assert_eq!(depth_of(&r, &e1.id), Some(1));
    assert_eq!(depth_of(&r, &e2.id), Some(1));
    assert_eq!(depth_of(&r, &e3.id), Some(2));
}

#[test]
fn children_from_answer_promises_ok_for_usable_lines() {
    let kids = children_from_answer("- Создать API\n2) Настроить CI\nВот список:").unwrap();
    assert_eq!(kids, vec!["Создать API".to_string(), "Настроить CI".to_string()]);
}

#[test]
fn missing_base_url_message_depends_on_mode() {
    let llm = LlmConfig { provider: LlmProvider::OpenAICompatible, model: "m".into(), ..Default::default() };
    let dev = Config { llm: llm.clone(), ..Default::default() };
    assert_eq!(dev.validate(), Err(ConfigError::BaseUrlRequired));
    assert_eq!(
        ConfigError::BaseUrlRequired.message(),
        "GRAPHMIND_LLM_BASE_URL is required for openai-compatible provider"
    );
    let prod = Config { mcp_mode: McpMode::Production, llm, ..Default::default() };
    assert_eq!(prod.validate(), Err(ConfigError::BaseUrlRequiredInProduction));
    assert!(ConfigError::BaseUrlRequiredInProduction.message().contains("Examples: http://localhost:1234/v1"));
    assert!(ConfigError::RocksDbUnavailable.message().ends_with("See bug_report/003_rocksdb_silent_fallback.md."));
}
