use graphmind::actors::answers::{
    parse_contradictions_response, parse_grouping_response, parse_relation_response, parse_rule_response,
    parse_severity_ratings, read_answer,
};
use graphmind::actors::causal_engine::ConflictType;
use graphmind::actors::inference::{question_nodes, GeneralizationLevel, InferenceActor, LinkError, RelationProposal};
use graphmind::actors::l1::L1Actor;
use graphmind::actors::l2::L2Actor;
use graphmind::graph::edge::{Edge, Relation};
use graphmind::graph::node::{Node, NodeType};

fn node(t: NodeType, s: &str) -> Node {
    Node::new(t, s.to_string())
}

#[test]
fn llm_parse_maps_indices_to_ids() {
    let atoms = vec![node(NodeType::Atom, "x"), node(NodeType::Atom, "y"), node(NodeType::Atom, "z")];
    let resp = r#"Группы: [{"name":"Учёт","members":[0,2]},{"name":"Прочее","members":[1]}]"#;
    let groups = parse_grouping_response(resp, &atoms);
    assert_eq!(groups.len(), 2);
    assert_eq!(groups[0].0, "Учёт");
    assert_eq!(groups[0].1, vec![atoms[0].id.clone(), atoms[2].id.clone()]);
    assert_eq!(groups[1].1, vec![atoms[1].id.clone()]);
}

#[test]
fn llm_parse_malformed_returns_empty() {
    let atoms = vec![node(NodeType::Atom, "x")];
    assert!(parse_grouping_response("no json here", &atoms).is_empty());
    assert!(parse_grouping_response("[garbage", &atoms).is_empty());
}

#[test]
fn grouping_skips_bad_members_and_empty_groups() {
    let atoms = vec![node(NodeType::Atom, "x"), node(NodeType::Atom, "y")];
    let resp = r#"[{"members":[1, 7, "a", 0]},{"name":"Пусто","members":[9]},{"name":"Нет"}]"#;
    let groups = parse_grouping_response(resp, &atoms);
    assert_eq!(groups.len(), 1);
    assert_eq!(groups[0].0, "Домен");
    assert_eq!(groups[0].1, vec![atoms[1].id.clone(), atoms[0].id.clone()]);
}

#[test]
fn grouping_of_an_object_answer_is_empty() {
    let atoms = vec![node(NodeType::Atom, "x")];
    assert!(parse_grouping_response(r#"{"name": [0]}"#, &atoms).is_empty());
}

#[test]
fn read_answer_takes_first_open_to_last_close() {
    let j = read_answer("text [1, [2]] more ] end", '[', ']');
    assert!(j.is_none());
    let j = read_answer("text [1, [2]] more", '[', ']').unwrap();
    let items = j.as_items().unwrap();
    assert_eq!(items.len(), 2);
    assert_eq!(items[0].as_u64(), Some(1));
    assert!(read_answer("] before [", '[', ']').is_none());
}

#[test]
fn test_parse_contradictions_response() {
    let nodes = vec![
        node(NodeType::Effect, "деплой прошёл успешно"),
        node(NodeType::Effect, "выкатка откатилась с ошибкой"),
    ];
    let resp = "Вот результат:\n```json\n[{\"a\":0,\"b\":1,\"explanation\":\"одно об успехе, другое об откате\"}]\n```";
    let out = parse_contradictions_response(resp, &nodes);
    assert_eq!(out.len(), 1);
    assert_eq!(out[0].node_a, nodes[0].id);
    assert_eq!(out[0].node_b, nodes[1].id);
}

#[test]
fn test_parse_contradictions_empty_and_bad() {
    let nodes = vec![node(NodeType::Atom, "x")];
    assert!(parse_contradictions_response("[]", &nodes).is_empty());
    assert!(parse_contradictions_response("no json here", &nodes).is_empty());
}

#[test]
fn contradictions_skip_self_pairs_and_unknown_indices() {
    let nodes = vec![node(NodeType::Atom, "x"), node(NodeType::Atom, "y")];
    let resp = r#"[{"a":0,"b":0},{"a":0,"b":5},{"a":1,"b":0},{"a":"0","b":1}]"#;
    let out = parse_contradictions_response(resp, &nodes);
    assert_eq!(out.len(), 1);
    assert_eq!(out[0].node_a, nodes[1].id);
    assert_eq!(out[0].node_b, nodes[0].id);
    assert_eq!(out[0].explanation, "смысловое противоречие");
    assert!(matches!(out[0].conflict_type, ConflictType::SemanticOpposition));
}

#[test]
fn test_parse_relation_response() {
    let r = parse_relation_response(
        "{\"relation\": \"leads_to\", \"confidence\": 0.82, \"reasoning\": \"причина ведёт к следствию\"}",
    )
    .unwrap();
    assert!(matches!(r.relation, Relation::LeadsTo));
    let confidence: f32 = r.confidence.unwrap().parse().unwrap();
    assert!((confidence - 0.82).abs() < 1e-4);
}

#[test]
fn test_parse_relation_unknown_defaults_related() {
    let r = parse_relation_response("{\"relation\": \"whatever\"}").unwrap();
    assert!(matches!(r.relation, Relation::RelatedTo));
}

#[test]
fn relation_answer_defaults_and_refusals() {
    let r = parse_relation_response("ответ: {\"relation\": \"Explained-By\"} конец").unwrap();
    assert!(matches!(r.relation, Relation::ExplainedBy));
    assert!(r.confidence.is_none());
    assert_eq!(r.reasoning, "LLM-инференс");
    assert!(parse_relation_response("{\"confidence\": 0.4}").is_none());
    assert!(parse_relation_response("{\"relation\": 3}").is_none());
    assert!(parse_relation_response("no object").is_none());
}

#[test]
fn test_parse_rule_response() {
    let (ifs, then) = parse_rule_response(
        "{\"if_conditions\": [\"кэш не сбрасывается\"], \"then_effect\": \"потеря записей при сбое\"}",
    )
    .unwrap();
    assert_eq!(ifs.len(), 1);
    assert_eq!(then, "потеря записей при сбое");
}

#[test]
fn rule_answer_needs_a_non_empty_effect() {
    assert!(parse_rule_response("{\"if_conditions\": [\"a\"], \"then_effect\": \"\"}").is_none());
    assert!(parse_rule_response("{\"if_conditions\": [\"a\"]}").is_none());
    let (ifs, then) = parse_rule_response("{\"if_conditions\": [\"a\", 2, \"b\"], \"then_effect\": \"c\"}").unwrap();
    assert_eq!(ifs, vec!["a".to_string(), "b".to_string()]);
    assert_eq!(then, "c");
    let (ifs, _) = parse_rule_response("{\"then_effect\": \"c\"}").unwrap();
    assert!(ifs.is_empty());
}

#[test]
fn severity_ratings_follow_the_answer() {
    let resp = "Оценки: [{\"i\": 1, \"severity\": 0.9}, {\"i\": 4, \"severity\": 0.2}, {\"i\": 0, \"severity\": 1}, {\"i\": 1}]";
    let r = parse_severity_ratings(resp, 2);
    assert_eq!(r, vec![(1, "0.9".to_string()), (0, "1".to_string())]);
    assert!(parse_severity_ratings("nothing", 2).is_empty());
}

#[test]
fn domains_follow_the_llm_grouping_when_it_has_groups() {
    let mut actor = L1Actor::new();
    let atoms = vec![node(NodeType::Atom, "a"), node(NodeType::Atom, "b"), node(NodeType::Atom, "c")];
    let edges = vec![Edge::new(atoms[0].id.clone(), atoms[1].id.clone(), Relation::RelatedTo)];
    let resp = r#"[{"name":"Учёт","members":[0,2]},{"name":"Прочее","members":[1]}]"#;
    let r = actor.autogenerate_domains_with_answer("ws1", &atoms, &edges, Some(resp));
    assert_eq!(r.created_domains.len(), 2);
    assert_eq!(r.created_domains[0].node.content, "Учёт");
    assert_eq!(r.created_domains[0].member_atom_ids, vec![atoms[0].id.clone(), atoms[2].id.clone()]);
    assert!(r.orphan_atoms.is_empty());
    assert_eq!(actor.find_domain_for_atom(&atoms[1].id).unwrap().node.content, "Прочее");
}

#[test]
fn domains_fall_back_to_connectivity_without_groups() {
    let atoms = vec![node(NodeType::Atom, "a"), node(NodeType::Atom, "b"), node(NodeType::Atom, "c")];
    let edges = vec![Edge::new(atoms[0].id.clone(), atoms[1].id.clone(), Relation::RelatedTo)];
    for answer in [None, Some("no json here"), Some("[]")] {
        let mut actor = L1Actor::new();
        let r = actor.autogenerate_domains_with_answer("ws1", &atoms, &edges, answer);
        assert_eq!(r.created_domains.len(), 1);
        assert_eq!(r.orphan_atoms, vec![atoms[2].id.clone()]);
    }
}

#[test]
fn test_find_contradictions_empty() {
    let l2 = L2Actor::new();
    assert!(InferenceActor::new().find_contradictions(&l2, None).is_empty());
}

#[test]
fn contradictions_follow_the_answer_then_the_heuristic() {
    let mut l2 = L2Actor::new();
    let a = node(NodeType::Atom, "сервис включён");
    let b = node(NodeType::Effect, "сервис выключен");
    l2.add_node(&a);
    l2.add_node(&b);
    let actor = InferenceActor::new();
    let statements = actor.statements(&l2);
    assert_eq!(statements.len(), 2);
    assert_eq!(statements[0].id, a.id);
    let answered = actor.find_contradictions(&l2, Some("[{\"a\":1,\"b\":0,\"explanation\":\"вкл/выкл\"}]"));
    assert_eq!(answered.len(), 1);
    assert_eq!(answered[0].node_a, b.id);
    assert_eq!(answered[0].explanation, "вкл/выкл");
    let fallback = actor.find_contradictions(&l2, Some("[]"));
    assert_eq!(fallback.len(), 1);
    assert_eq!(fallback[0].node_a, a.id);
    assert_eq!(fallback[0].node_b, b.id);
}

#[test]
fn question_nodes_keep_the_first_forty() {
    let nodes: Vec<Node> = (0..45).map(|i| node(NodeType::Atom, &format!("n{i}"))).collect();
    let q = question_nodes(&nodes);
    assert_eq!(q.len(), 40);
    assert_eq!(q[39].id, nodes[39].id);
    assert_eq!(question_nodes(&nodes[..3].to_vec()).len(), 3);
}

#[test]
fn causal_link_uses_the_answer_or_the_node_kinds() {
    let mut l2 = L2Actor::new();
    let cause = node(NodeType::Cause, "cache not flushed");
    let effect = node(NodeType::Effect, "records lost");
    l2.add_node(&cause);
    l2.add_node(&effect);
    let actor = InferenceActor::new();
    match actor.propose_causal_link(&l2, &cause.id, &effect.id, Some("{\"relation\": \"inhibits\"}")).unwrap() {
        RelationProposal::Answered(a) => assert!(matches!(a.relation, Relation::Inhibits)),
        RelationProposal::Inferred(_) => panic!("the answer proposes a relation"),
    }
    match actor.propose_causal_link(&l2, &cause.id, &effect.id, Some("no answer")).unwrap() {
        RelationProposal::Inferred(r) => assert!(matches!(r, Relation::LeadsTo)),
        RelationProposal::Answered(_) => panic!("the answer proposes nothing"),
    }
    let missing = node(NodeType::Atom, "missing");
    assert_eq!(actor.propose_causal_link(&l2, &missing.id, &effect.id, None).unwrap_err(), LinkError::SourceNotFound);
    assert_eq!(actor.propose_causal_link(&l2, &cause.id, &missing.id, None).unwrap_err(), LinkError::TargetNotFound);
}

#[test]
fn rule_from_pattern_uses_the_answer_or_the_heuristic() {
    let causes = vec![node(NodeType::Cause, "cache stale one"), node(NodeType::Cause, "cache stale two")];
    let r = InferenceActor::generate_rule_from_pattern(
        "cache_stale",
        &causes,
        Some("{\"if_conditions\": [\"кэш устарел\"], \"then_effect\": \"старые данные\"}"),
    );
    assert_eq!(r.source_chain, "pattern_cache_stale");
    assert_eq!(r.if_conditions, vec!["кэш устарел".to_string()]);
    assert_eq!(r.then_effect, "старые данные");
    assert_eq!(r.generalization_level, GeneralizationLevel::Narrow);
    let h = InferenceActor::generate_rule_from_pattern("cache_stale", &causes, None);
    assert_eq!(h.if_conditions, vec!["cache stale".to_string()]);
    assert_eq!(h.then_effect, "IF cache_stale THEN potential issue detected");
}
