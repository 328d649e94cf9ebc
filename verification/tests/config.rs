use semantic_router::config::{
    default_cache_threshold, default_host, default_max_entries, default_port, default_revision,
    default_threshold, default_true, default_ttl, Backend, CacheConfig, Category, Config,
    ConfigError, DefaultRoute, EmbeddingConfig, PiiAction, PiiConfig, PromptGuardConfig,
    RoutingConfig, SecurityConfig, ServerConfig, StrategyKind,
};

#[test]
fn defaults_have_the_documented_values() {
    assert_eq!(default_host(), "0.0.0.0");
    assert_eq!(default_port(), 8080);
    assert_eq!(default_revision(), "main");
    assert_eq!(default_threshold().to_bits(), 0.35f32.to_bits());
    assert!(default_true());
    assert_eq!(default_cache_threshold().to_bits(), 0.92f32.to_bits());
    assert_eq!(default_ttl(), 300);
    assert_eq!(default_max_entries(), 1000);
}

#[test]
fn default_parts_are_made_of_the_defaults() {
    let server = ServerConfig::default();
    assert_eq!((server.host.as_str(), server.port), ("0.0.0.0", 8080));
    let routing = RoutingConfig::default();
    assert_eq!(routing.confidence_threshold.to_bits(), 0.35f32.to_bits());
    assert_eq!(routing.strategy, StrategyKind::Similarity);
    assert_eq!(routing.classifier_path, None);
    let cache = CacheConfig::default();
    assert!(cache.enabled);
    assert_eq!(cache.similarity_threshold.to_bits(), 0.92f32.to_bits());
    assert_eq!((cache.ttl_seconds, cache.max_entries), (300, 1000));
    let guard = PromptGuardConfig::default();
    assert!(!guard.enabled && guard.extra_patterns.is_empty());
    let pii = PiiConfig::default();
    assert!(!pii.enabled);
    assert_eq!(pii.action, PiiAction::Redact);
    let security = SecurityConfig::default();
    assert!(!security.prompt_guard.enabled && !security.pii.enabled);
}

fn category(name: &str, examples: &[&str]) -> Category {
    Category {
        name: name.to_string(),
        examples: examples.iter().map(|e| e.to_string()).collect(),
        backend: Backend {
            base_url: "http://localhost".to_string(),
            api_key_env: None,
            model: "m".to_string(),
        },
    }
}

fn config(categories: Vec<Category>) -> Config {
    Config {
        server: ServerConfig::default(),
        embedding: EmbeddingConfig {
            model_id: "owner/name".to_string(),
            revision: default_revision(),
        },
        routing: RoutingConfig::default(),
        default: DefaultRoute {
            name: "default".to_string(),
            base_url: "http://localhost".to_string(),
            api_key_env: None,
            model: "m".to_string(),
        },
        cache: CacheConfig::default(),
        security: SecurityConfig::default(),
        categories,
    }
}

#[test]
fn a_usable_configuration_is_accepted() {
    assert!(config(vec![category("a", &["x"]), category("b", &["y", "z"])]).validate().is_ok());
}

#[test]
fn a_configuration_without_categories_is_refused() {
    let error = config(vec![]).validate().unwrap_err();
    assert!(matches!(error, ConfigError::NoCategory));
    assert_eq!(error.message(), "config must define at least one category");
}

#[test]
fn the_first_category_without_examples_is_named() {
    let list = vec![category("a", &["x"]), category("b", &[]), category("c", &[])];
    let error = config(list).validate().unwrap_err();
    assert_eq!(error.message(), "category 'b' must have at least one example utterance");
}
