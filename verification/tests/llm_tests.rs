use graphify::llm_config::{
    chat_prompt, choose_config_source, config_path, get_json_schema_gbnf, legacy_path,
    legacy_provider, migrate_legacy, plugins_config_path, sort_providers, split_keys, ChatMessage,
    ConfigSource, CoreLlmProvider, LLMConfig, LegacyExtraction, LegacyProvider, LlmError, Provider,
    ProviderType,
};
use graphify::pipeline::{
    after_failure, bearer, chat_url, gemini_url, get_jitter, initial_retry_state, is_rate_limited, jitter_of,
    key_index, missing_key_error, ollama_url, pipeline_failure, rotation_keys, RetryAction,
    MAX_BACKOFF_RETRIES,
};

fn provider(name: &str, t: ProviderType, key: Option<&str>, priority: usize) -> Provider {
    Provider {
        name: name.to_string(),
        provider_type: t,
        endpoint: String::new(),
        model: "m".to_string(),
        api_key: key.map(str::to_string),
        priority,
    }
}

#[test]
fn default_config_is_local_ollama() {
    let c = LLMConfig::default();
    assert_eq!(c.providers.len(), 1);
    assert_eq!(c.providers[0].name, "ollama");
    assert_eq!(c.providers[0].endpoint, "http://localhost:11434");
    assert_eq!(c.providers[0].model, "bge-m3");
    assert_eq!(c.providers[0].priority, 10);
    assert_eq!(c.extraction.chunk_size, 1024);
    assert_eq!(c.extraction.max_concurrency, 1);
    assert!(c.api_keys.is_empty());
}

#[test]
fn split_keys_trims_and_drops_empty_parts() {
    assert_eq!(split_keys(" a, b ,,c "), vec!["a".to_string(), "b".to_string(), "c".to_string()]);
    assert!(split_keys(" , ").is_empty());
}

#[test]
fn populate_api_keys_flattens_provider_keys_in_order() {
    let mut c = LLMConfig::default();
    c.providers = vec![
        provider("g", ProviderType::Gemini, Some("k1, k2"), 1),
        provider("o", ProviderType::Ollama, None, 2),
        provider("r", ProviderType::OpenRouter, Some("k3"), 3),
    ];
    c.populate_api_keys();
    assert_eq!(c.api_keys, vec!["k1".to_string(), "k2".to_string(), "k3".to_string()]);
    c.api_keys = vec!["given".to_string()];
    c.populate_api_keys();
    assert_eq!(c.api_keys, vec!["given".to_string()]);
}

#[test]
fn sort_providers_is_stable_by_priority() {
    let sorted = sort_providers(vec![
        provider("b", ProviderType::Gemini, None, 2),
        provider("a1", ProviderType::Ollama, None, 1),
        provider("c", ProviderType::OpenAI, None, 3),
        provider("a2", ProviderType::Ollama, None, 1),
    ]);
    let names: Vec<&str> = sorted.iter().map(|p| p.name.as_str()).collect();
    assert_eq!(names, vec!["a1", "a2", "b", "c"]);
}

#[test]
fn finish_loaded_fills_keys_then_sorts() {
    let mut c = LLMConfig::default();
    c.providers = vec![
        provider("late", ProviderType::Gemini, Some("x"), 9),
        provider("early", ProviderType::OpenAI, Some("y"), 1),
    ];
    let c = c.finish_loaded();
    assert_eq!(c.providers[0].name, "early");
    assert_eq!(c.api_keys, vec!["x".to_string(), "y".to_string()]);
}

#[test]
fn legacy_providers_migrate_with_defaults() {
    let lp = LegacyProvider {
        name: None,
        provider_type: Some("openrouter".to_string()),
        endpoint: None,
        model: Some("gpt".to_string()),
        priority: None,
        api_key: Some("a,b".to_string()),
    };
    let p = legacy_provider(&lp);
    assert_eq!(p.name, "Unknown");
    assert_eq!(p.provider_type, ProviderType::OpenRouter);
    assert_eq!(p.endpoint, "");
    assert_eq!(p.priority, 10);
    let other = LegacyProvider {
        name: Some("first".to_string()),
        provider_type: Some("something".to_string()),
        endpoint: Some("http://e".to_string()),
        model: None,
        priority: Some(1),
        api_key: None,
    };
    assert_eq!(legacy_provider(&other).provider_type, ProviderType::Ollama);
    let list = vec![lp.clone(), other.clone()];
    let c = migrate_legacy(
        Some(list.as_slice()),
        Some(&LegacyExtraction { chunk_size: Some(512), max_concurrency: None }),
    );
    assert_eq!(c.providers.len(), 2);
    assert_eq!(c.providers[0].name, "first");
    assert_eq!(c.api_keys, vec!["a,b".to_string()]);
    assert_eq!(c.extraction.chunk_size, 512);
    assert_eq!(c.extraction.max_concurrency, 1);
    let empty = migrate_legacy(None, None);
    assert!(empty.providers.is_empty());
    assert_eq!(empty.extraction.chunk_size, 1024);
}

#[test]
fn legacy_keys_keep_input_order() {
    let mk = |name: &str, prio: u64, key: Option<&str>| LegacyProvider {
        name: Some(name.to_string()),
        provider_type: Some("openrouter".to_string()),
        endpoint: None,
        model: None,
        priority: Some(prio),
        api_key: key.map(|k| k.to_string()),
    };
    let list = vec![mk("late", 9, Some("k1")), mk("none", 5, None), mk("early", 1, Some("k2,k3"))];
    let c = migrate_legacy(Some(list.as_slice()), None);
    assert_eq!(c.api_keys, vec!["k1".to_string(), "k2,k3".to_string()]);
    let names: Vec<String> = c.providers.iter().map(|p| p.name.clone()).collect();
    assert_eq!(names, vec!["early".to_string(), "none".to_string(), "late".to_string()]);
}

#[test]
fn config_paths_follow_xdg_then_home() {
    assert_eq!(config_path(Some("/x"), Some("/h")), "/x/graphify/config.toml");
    assert_eq!(config_path(None, Some("/h")), "/h/.config/graphify/config.toml");
    assert_eq!(config_path(None, None), "./.config/graphify/config.toml");
    assert_eq!(legacy_path(Some("/h")), "/h/.graphify/config.json");
    assert_eq!(plugins_config_path(Some("/p.toml"), None, Some("/h")), "/p.toml");
    assert_eq!(plugins_config_path(None, None, Some("/h")), "/h/.config/graphify/config.toml");
}

#[test]
fn config_source_precedence() {
    assert_eq!(
        choose_config_source("/e.toml", Some("/env.toml"), "/s.toml", true, "/l.json", true),
        Ok(ConfigSource::Toml("/e.toml".to_string()))
    );
    assert_eq!(
        choose_config_source("", Some("/env.toml"), "/s.toml", true, "/l.json", true),
        Ok(ConfigSource::Toml("/env.toml".to_string()))
    );
    assert_eq!(
        choose_config_source("", None, "/s.toml", true, "/l.json", true),
        Ok(ConfigSource::Toml("/s.toml".to_string()))
    );
    assert_eq!(
        choose_config_source("", None, "/s.toml", false, "/l.json", true),
        Ok(ConfigSource::Legacy("/l.json".to_string()))
    );
}

#[test]
fn missing_configuration_is_an_error() {
    let r = choose_config_source("", None, "/s.toml", false, "/l.json", false);
    match r {
        Err(e) => assert_eq!(
            e.0,
            "No configuration file found (looked for /s.toml and /l.json)"
        ),
        Ok(_) => panic!("expected an error"),
    }
}

struct Echo;

impl CoreLlmProvider for Echo {
    fn complete(&self, prompt: &str) -> Result<String, LlmError> {
        Ok(format!("<{prompt}>"))
    }
}

#[test]
fn chat_uses_same_gateway_path() -> Result<(), LlmError> {
    let msgs = vec![
        ChatMessage { role: "system".to_string(), content: "be brief".to_string() },
        ChatMessage { role: "user".to_string(), content: "hi".to_string() },
    ];
    assert_eq!(chat_prompt(&msgs), "system: be brief\nuser: hi");
    assert_eq!(Echo.chat(&msgs)?, "<system: be brief\nuser: hi>");
    Ok(())
}

#[test]
fn trait_usable_as_dyn_reference() -> Result<(), LlmError> {
    let p: &dyn CoreLlmProvider = &Echo;
    assert_eq!(p.complete("x")?, "<x>");
    assert_eq!(LlmError("boom".to_string()).message(), "boom");
    Ok(())
}

#[test]
fn gbnf_restricts_to_json_objects() {
    assert!(get_json_schema_gbnf().starts_with("root   ::= object\n"));
}

#[test]
fn rotation_prefers_configured_keys() {
    let p = provider("g", ProviderType::Gemini, Some("a, b"), 1);
    assert_eq!(rotation_keys(&vec!["k".to_string()], &p), vec!["k".to_string()]);
    assert_eq!(rotation_keys(&Vec::new(), &p), vec!["a".to_string(), "b".to_string()]);
}

#[test]
fn missing_key_skips_keyed_providers_only() {
    let g = provider("gem", ProviderType::Gemini, None, 1);
    assert_eq!(
        missing_key_error(&g, 0),
        Some("Provider gem requires an API key but none was supplied".to_string())
    );
    assert_eq!(missing_key_error(&g, 1), None);
    assert_eq!(missing_key_error(&provider("o", ProviderType::Ollama, None, 1), 0), None);
    assert_eq!(key_index(7, 3), 1);
}

#[test]
fn test_api_key_rotation_on_429() {
    let s = initial_retry_state();
    assert_eq!(s.base_delay_ms, 1000);
    let (a, s) = after_failure(s, true, 2, false, 0);
    assert_eq!(a, RetryAction::RotateKey);
    assert_eq!(s.key_failed_count, 1);
    let (a, _) = after_failure(s, true, 2, false, 0);
    assert_eq!(a, RetryAction::NextProvider);
}

#[test]
fn test_adaptive_failover_to_backup() {
    let mut s = initial_retry_state();
    let mut delays = Vec::new();
    loop {
        let (a, next) = after_failure(s, false, 1, true, 7);
        s = next;
        match a {
            RetryAction::Backoff(ms) => delays.push(ms),
            RetryAction::NextProvider => break,
            RetryAction::RotateKey => unreachable!(),
        }
    }
    assert_eq!(delays, vec![1007, 2007, 4007]);
    assert_eq!(s.backoff_attempt, MAX_BACKOFF_RETRIES);
    assert!(get_jitter() < 500);
}

#[test]
fn rate_limits_are_detected_from_status_or_text() {
    assert!(is_rate_limited(Some(429), ""));
    assert!(!is_rate_limited(Some(500), "429"));
    assert!(is_rate_limited(None, "HTTP 429"));
    assert!(is_rate_limited(None, "RESOURCE_EXHAUSTED"));
    assert!(is_rate_limited(None, "Too Many Requests"));
    assert!(!is_rate_limited(None, "bad gateway"));
}

#[test]
fn provider_addresses() {
    assert_eq!(ollama_url("http://h:1//"), "http://h:1/api/generation");
    assert_eq!(
        gemini_url("", "g1", "K"),
        "https://generativelanguage.googleapis.com/v1beta/models/g1:generateContent?key=K"
    );
    assert_eq!(chat_url(ProviderType::OpenRouter, ""), "https://openrouter.ai/api/v1/chat/completions");
    assert_eq!(chat_url(ProviderType::OpenRouter, "http://r/"), "http://r/chat/completions");
    assert_eq!(chat_url(ProviderType::OpenAI, ""), "https://api.openai.com/chat/completions");
    assert_eq!(bearer("t"), "Bearer t");
    assert_eq!(
        pipeline_failure("x"),
        "LLM Pipeline failed after trying all providers. Last error: x"
    );
}

#[test]
fn jitter_is_the_clock_nanos_modulo_500() {
    assert_eq!(jitter_of(None), 0);
    assert_eq!(jitter_of(Some(0)), 0);
    assert_eq!(jitter_of(Some(1_234)), 234);
    assert_eq!(jitter_of(Some(1_700_000_000_123_456_789)), 289);
    assert_eq!(jitter_of(Some(u128::MAX)), (u128::MAX % 500) as u64);
}
