use graphmind::actors::causal_engine::CausalEngine;
use graphmind::actors::config::{embedding_config_from, EmbeddingConfig, EmbeddingProviderKind, LlmConfig, LlmProvider};
use graphmind::actors::embedding::EmbeddingProvider;
use graphmind::actors::llm_client::LlmClient;
use graphmind::actors::orchestrator::{strip_reasoning, OrchestratorActor, SizeCategory};

#[test]
fn test_contains_prevention_keywords() {
    assert!(CausalEngine::contains_prevention_keywords("Always add --no-cache"));
    assert!(CausalEngine::contains_prevention_keywords("Никогда не используй ENV для паролей"));
    assert!(!CausalEngine::contains_prevention_keywords("Просто сделай это"));
}

#[test]
fn url_normalizes_v1() {
    let cfg_emb = EmbeddingConfig { provider: EmbeddingProviderKind::OpenAI, model: "m".into(), dim: 3, ..Default::default() };
    let cfg_llm = LlmConfig { base_url: Some("https://routerai.ru/v1".into()), ..Default::default() };
    let p = EmbeddingProvider::from_config(&cfg_emb, &cfg_llm);
    assert!(p.is_enabled());
    assert_eq!(p.embeddings_url(), "https://routerai.ru/v1/embeddings");
}

#[test]
fn disabled_when_provider_not_openai() {
    let cfg_emb = EmbeddingConfig { provider: EmbeddingProviderKind::Disabled, ..Default::default() };
    let cfg_llm = LlmConfig { base_url: Some("https://x/v1".into()), ..Default::default() };
    assert!(!EmbeddingProvider::from_config(&cfg_emb, &cfg_llm).is_enabled());
}

#[test]
fn embedding_endpoint_overrides_llm() {
    let cfg_emb = EmbeddingConfig {
        provider: EmbeddingProviderKind::OpenAI,
        model: "bge-m3".into(),
        dim: 1024,
        base_url: Some("http://localhost:11434/v1".into()),
        api_key: Some("ollama".into()),
        ..Default::default()
    };
    let cfg_llm = LlmConfig {
        base_url: Some("https://routerai.ru/api/v1".into()),
        api_key: Some("router-secret".into()),
        ..Default::default()
    };
    let p = EmbeddingProvider::from_config(&cfg_emb, &cfg_llm);
    assert!(p.is_enabled());
    assert_eq!(p.dim(), 1024);
    assert_eq!(p.embeddings_url(), "http://localhost:11434/v1/embeddings");
    assert_eq!(p.api_key.as_deref(), Some("ollama"));
}

#[test]
fn embedding_falls_back_to_llm_endpoint() {
    let cfg_emb = EmbeddingConfig {
        provider: EmbeddingProviderKind::OpenAI,
        model: "m".into(),
        dim: 3,
        ..Default::default()
    };
    let cfg_llm = LlmConfig {
        base_url: Some("https://routerai.ru/api/v1".into()),
        api_key: Some("router-secret".into()),
        ..Default::default()
    };
    let p = EmbeddingProvider::from_config(&cfg_emb, &cfg_llm);
    assert_eq!(p.embeddings_url(), "https://routerai.ru/api/v1/embeddings");
    assert_eq!(p.api_key.as_deref(), Some("router-secret"));
}

#[test]
fn url_does_not_double_v1_when_base_has_v1() {
    let c = LlmClient::new("https://routerai.ru/v1".into(), None, "m".into());
    assert_eq!(c.chat_completions_url(), "https://routerai.ru/v1/chat/completions");
}

#[test]
fn url_adds_v1_when_base_lacks_it() {
    let c = LlmClient::new("http://localhost:8000".into(), None, "m".into());
    assert_eq!(c.chat_completions_url(), "http://localhost:8000/v1/chat/completions");
}

#[test]
fn url_handles_trailing_slash() {
    let c = LlmClient::new("https://routerai.ru/v1/".into(), None, "m".into());
    assert_eq!(c.chat_completions_url(), "https://routerai.ru/v1/chat/completions");
}

#[test]
fn disabled_provider_is_not_enabled() {
    let cfg = LlmConfig { provider: LlmProvider::Disabled, ..Default::default() };
    assert!(!LlmClient::from_config(&cfg).is_enabled());
}

#[test]
fn strip_reasoning_removes_think_block() {
    let s = "<think>рассуждаю долго и нудно</think>\nСоздать API\nНастроить CI";
    assert_eq!(strip_reasoning(s), "Создать API\nНастроить CI");
}

#[test]
fn strip_reasoning_handles_unclosed_and_absent() {
    assert_eq!(strip_reasoning("просто список"), "просто список");
    assert_eq!(strip_reasoning("до <think>после без закрытия"), "до");
}

#[test]
fn test_estimate_size_tiny() {
    let actor = OrchestratorActor::new("http://localhost".to_string(), None, "test".to_string());
    let size = actor.estimate_size("Тест");
    assert_eq!(size, SizeCategory::Tiny);
}

#[test]
fn test_estimate_size_small() {
    let actor = OrchestratorActor::new("http://localhost".to_string(), None, "test".to_string());
    let size = actor.estimate_size("Создать документацию");
    assert_eq!(size, SizeCategory::Small);
}

#[test]
fn test_estimate_size_medium() {
    let actor = OrchestratorActor::new("http://localhost".to_string(), None, "test".to_string());
    let desc = "Создать документацию GraphMind с примерами использования, API reference и руководством по настройке";
    let size = actor.estimate_size(desc);
    assert_eq!(size, SizeCategory::Medium);
}

#[test]
fn test_estimate_size_large() {
    let actor = OrchestratorActor::new("http://localhost".to_string(), None, "test".to_string());
    let desc = "Создать полную документацию GraphMind включая frontend, backend, базу данных, API, мобильное приложение, веб-интерфейс, DevOps и безопасность";
    let size = actor.estimate_size(desc);
    assert_eq!(size, SizeCategory::Large);
}

#[test]
fn test_depth_for_size() {
    let actor = OrchestratorActor::new("http://localhost".to_string(), None, "test".to_string());
    assert_eq!(actor.depth_for_size(SizeCategory::Tiny), 0);
    assert_eq!(actor.depth_for_size(SizeCategory::Small), 1);
    assert_eq!(actor.depth_for_size(SizeCategory::Medium), 2);
    assert_eq!(actor.depth_for_size(SizeCategory::Large), 3);
}

// --- further cases ---

#[test]
fn suggested_count_by_depth() {
    let actor = OrchestratorActor::new("http://localhost".to_string(), None, "test".to_string());
    assert_eq!(actor.suggested_count(1), 3);
    assert_eq!(actor.suggested_count(2), 3);
    assert_eq!(actor.suggested_count(3), 2);
    assert_eq!(actor.suggested_count(7), 2);
}

#[test]
fn estimate_size_action_word_makes_short_text_small() {
    let actor = OrchestratorActor::new("http://localhost".to_string(), None, "test".to_string());
    assert_eq!(actor.estimate_size("create docs"), SizeCategory::Small);
    assert_eq!(actor.estimate_size("build it"), SizeCategory::Medium);
}

#[test]
fn llm_client_from_config_uses_provider_defaults() {
    let cfg = LlmConfig {
        provider: LlmProvider::OpenRouter,
        api_key: Some("k".into()),
        base_url: Some("https://openrouter.ai/api/v1".into()),
        ..Default::default()
    };
    let c = LlmClient::from_config(&cfg);
    assert!(c.is_enabled());
    assert_eq!(c.provider(), LlmProvider::OpenRouter);
    assert_eq!(c.chat_completions_url(), "https://openrouter.ai/api/v1/chat/completions");
}

#[test]
fn embedding_disabled_label_is_fallback() {
    let cfg_emb = EmbeddingConfig { provider: EmbeddingProviderKind::Disabled, ..Default::default() };
    let cfg_llm = LlmConfig::default();
    let p = EmbeddingProvider::from_config(&cfg_emb, &cfg_llm);
    assert_eq!(p.backend_label(), "char_bag_fallback");
}

#[test]
fn semantically_opposite_pairs() {
    assert!(CausalEngine::are_semantically_opposite("Сервис работает", "Сервис не работает"));
    assert!(!CausalEngine::are_semantically_opposite("cache enabled", "cache enabled"));
}

#[test]
fn embedding_config_defaults_per_provider() {
    let c = embedding_config_from(EmbeddingProviderKind::OpenAI, None, None, None, false, None, None, false,
        Some(String::new()), Some("k".to_string()));
    assert_eq!(c.model, "text-embedding-3-small");
    assert_eq!(c.dim, 1536);
    assert_eq!(c.batch_size, 32);
    assert_eq!(c.cache_max_entries, 10000);
    assert!(c.base_url.is_none());
    assert_eq!(c.api_key.as_deref(), Some("k"));
    let l = embedding_config_from(EmbeddingProviderKind::Local, Some("mini".to_string()), Some(8), Some(4), true,
        Some(5), None, true, None, None);
    assert_eq!(l.model, "mini");
    assert_eq!(l.dim, 8);
    assert_eq!(l.batch_size, 4);
    assert!(l.cache_enabled && l.offline);
    let d = embedding_config_from(EmbeddingProviderKind::Disabled, None, None, None, false, None, None, false, None, None);
    assert_eq!(d.model, "");
    assert_eq!(d.dim, 0);
}

#[test]
fn plan_actor_defaults_to_the_local_endpoint() {
    let a = graphmind::actors::plan_actor::PlanActor::new();
    let c = a.orchestrator().llm();
    assert_eq!(c.model(), "kat-coder-pro-v2");
    assert!(c.api_key().is_none());
    assert_eq!(c.timeout_secs(), 30);
}
