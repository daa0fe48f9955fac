use graphmind::actors::inference::{heuristic_rule, GeneralizationLevel, InferenceActor, RiskLevel};
use graphmind::actors::l2::L2Actor;
use graphmind::actors::prompts::{
    cluster_name_from_answer, cluster_name_prompt, contradictions_prompt, decomposition_prompt, grouping_prompt,
    join_texts, relation_prompt, rule_prompt, severity_prompt,
};
use graphmind::actors::trust::TrustFirewall;
use graphmind::graph::edge::{Edge, Relation};
use graphmind::graph::node::{Node, NodeType};
use graphmind::order::{sorted_unique, text_less};

fn chars(s: &str) -> Vec<char> {
    s.chars().collect()
}

#[test]
fn llm_prompt_lists_atoms_by_index() {
    let atoms = vec![
        Node::new(NodeType::Atom, "факт про 1С и НДС".to_string()),
        Node::new(NodeType::Atom, "встреча в пятницу".to_string()),
    ];
    let p = grouping_prompt(&atoms);
    assert!(p.contains("0: факт про 1С и НДС"));
    assert!(p.contains("1: встреча в пятницу"));
    assert!(p.contains("JSON"));
}

#[test]
fn grouping_prompt_flattens_lines() {
    let atoms = vec![Node::new(NodeType::Atom, "first\nsecond".to_string())];
    let p = grouping_prompt(&atoms);
    assert!(p.contains("0: first second\n"));
}

#[test]
fn cluster_prompt_needs_contents() {
    assert!(cluster_name_prompt(&Vec::new()).is_none());
    let p = cluster_name_prompt(&vec![chars("Clerk"), chars("Auth")]).unwrap();
    assert_eq!(
        p,
        "Дай короткое имя (2-4 слова) области знаний, объединяющей эти домены:\nClerk\nAuth\nВерни ТОЛЬКО имя, без пояснений и кавычек."
    );
}

#[test]
fn cluster_name_read_from_answer() {
    assert_eq!(cluster_name_from_answer("  \"Аутентификация\"\nлишнее").as_deref(), Some("Кластер: Аутентификация"));
    assert_eq!(cluster_name_from_answer("Безопасность доступа\r\nещё").as_deref(), Some("Кластер: Безопасность доступа"));
    assert_eq!(cluster_name_from_answer("   "), None);
    assert_eq!(cluster_name_from_answer("\"\""), None);
}

#[test]
fn decomposition_prompt_names_count_and_level() {
    let p = decomposition_prompt("Сделать API", 3, 1);
    assert!(p.starts_with("Декомпозируй задачу 'Сделать API' на 3 осмысленных подзадач уровня P1 (стратегические направления).\n"));
    assert!(p.ends_with("Настроить CI/CD пайплайн"));
    assert!(decomposition_prompt("x", 2, 9).contains("уровня подзадачи."));
}

#[test]
fn causal_prompts_carry_their_inputs() {
    let a = Node::new(NodeType::Cause, "Кэш не сброшен".to_string());
    let b = Node::new(NodeType::Effect, "Старая версия".to_string());
    let r = relation_prompt(&a, &b);
    assert!(r.starts_with("Источник: «Кэш не сброшен»\nЦель: «Старая версия»\n\n"));
    let c = contradictions_prompt(&vec![a.clone(), b.clone()]);
    assert!(c.contains("0: Кэш не сброшен\n1: Старая версия\n"));
    let s = severity_prompt("Кэш", &vec![chars("сбой"), chars("медленно")]);
    assert!(s.contains("0: сбой\n1: медленно\n"));
    let rp = rule_prompt(&vec![a, b]);
    assert!(rp.contains("- Кэш не сброшен\n- Старая версия\n"));
}

#[test]
fn join_texts_with_separator() {
    assert_eq!(join_texts(&vec![chars("a"), chars("b"), chars("c")], ", "), chars("a, b, c"));
    assert!(join_texts(&Vec::new(), ", ").is_empty());
}

#[test]
fn text_order_and_sorting() {
    assert!(text_less(&chars("ab"), &chars("b")));
    assert!(text_less(&chars("a"), &chars("ab")));
    assert!(!text_less(&chars("b"), &chars("b")));
    let sorted = sorted_unique(&vec![chars("pear"), chars("apple"), chars("pear"), chars("fig")]);
    assert_eq!(sorted, vec![chars("apple"), chars("fig"), chars("pear")]);
}

#[test]
fn heuristic_rule_from_causes() {
    let causes = vec![
        Node::new(NodeType::Cause, "Docker cache stale again".to_string()),
        Node::new(NodeType::Cause, "Alpha beta gamma".to_string()),
        Node::new(NodeType::Cause, "Docker cache broken".to_string()),
        Node::new(NodeType::Cause, "   ".to_string()),
    ];
    let r = heuristic_rule("docker_cache_stale", &causes);
    assert_eq!(r.source_chain, "pattern_docker_cache_stale");
    assert_eq!(r.if_conditions, vec!["Alpha beta".to_string(), "Docker cache".to_string()]);
    assert_eq!(r.then_effect, "IF docker_cache_stale THEN potential issue detected");
    assert_eq!(r.generalization_level, GeneralizationLevel::Narrow);
}

#[test]
fn test_dream_reflection_empty() {
    let l2 = L2Actor::new();
    assert!(InferenceActor::new().rule_patterns(&l2).is_empty());
}

#[test]
fn rule_patterns_need_three_causes() {
    let mut l2 = L2Actor::new();
    for c in ["Docker cache stale one", "Docker cache stale two", "docker CACHE stale three", "Other thing here"] {
        l2.add_node(&Node::new(NodeType::Cause, c.to_string()));
    }
    let ps = InferenceActor::new().rule_patterns(&l2);
    assert_eq!(ps.len(), 1);
    assert_eq!(ps[0].key, "docker_cache_stale");
    assert_eq!(ps[0].causes.len(), 3);
}

#[test]
fn test_predict_risks_empty_chain() {
    let mut l2 = L2Actor::new();
    let cause = Node::new(NodeType::Cause, "Lonely cause".to_string());
    l2.add_node(&cause);
    let effects = InferenceActor::new().predicted_effects(&l2, &cause.id).unwrap();
    assert!(effects.is_empty());
}

#[test]
fn predicted_effects_with_severity() {
    let mut l2 = L2Actor::new();
    let cause = Node::new(NodeType::Cause, "Config drift".to_string());
    let e1 = Node::new(NodeType::Effect, "Production crash".to_string());
    let e2 = Node::new(NodeType::Effect, "Slow pages".to_string());
    for n in [&cause, &e1, &e2] {
        l2.add_node(n);
    }
    l2.add_edge(&Edge::new(cause.id.clone(), e1.id.clone(), Relation::LeadsTo));
    l2.add_edge(&Edge::new(e1.id.clone(), e2.id.clone(), Relation::LeadsTo));
    let effects = InferenceActor::new().predicted_effects(&l2, &cause.id).unwrap();
    assert_eq!(effects.len(), 2);
    assert_eq!(effects[0].node_id, e1.id);
    assert_eq!(effects[0].severity, RiskLevel::Critical);
    assert_eq!(effects[0].depth, 1);
    assert_eq!(effects[1].severity, RiskLevel::Medium);
    assert_eq!(effects[1].depth, 2);
    let atom = Node::new(NodeType::Atom, "not a cause".to_string());
    l2.add_node(&atom);
    assert!(InferenceActor::new().predicted_effects(&l2, &atom.id).is_err());
}

#[test]
fn test_tone_anomaly_detection() {
    let mut fw = TrustFirewall::new();
    assert!(fw.detect_tone_anomaly("agent:x", "Сделай это срочно!"));
    assert_eq!(fw.anomaly_count("agent:x"), 1);
    assert!(!fw.detect_tone_anomaly("agent:x", "Спокойный текст"));
    assert!(fw.detect_tone_anomaly("agent:x", "быстро"));
    assert!(fw.detect_tone_anomaly("agent:x", "немедленно"));
    assert_eq!(fw.anomaly_count("agent:x"), 3);
    assert!(fw.detect_tone_anomaly("agent:x", "Спокойный текст"));
    assert_eq!(fw.anomaly_count("agent:y"), 0);
}

#[test]
fn firewall_reputation_updates() {
    let mut fw = TrustFirewall::new();
    assert!(fw.reputation("src").is_none());
    fw.update_reputation("src", true);
    fw.update_reputation("src", false);
    fw.update_reputation("other", true);
    let r = fw.reputation("src").unwrap();
    assert_eq!((r.total_claims, r.verified_claims, r.false_claims), (2, 1, 1));
    assert_eq!(fw.reputation("other").unwrap().total_claims, 1);
}
