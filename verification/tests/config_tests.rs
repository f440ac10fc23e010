use rkllm_cli::config::{default_transport, normalize_exts, AppConfig, McpConfig, Transport};
use rkllm_cli::paths::default_extensions;

#[test]
fn normalize_empty_disables() {
    let normalized = normalize_exts(Some(vec![])).unwrap();
    assert!(normalized.is_empty());
}

#[test]
fn normalize_accepts_custom_and_dedupes() {
    let exts = Some(vec!["RS".into(), "toml".into(), "rs".into(), "invalid-ext".into()]);
    let normalized = normalize_exts(exts).unwrap();
    assert_eq!(normalized.len(), 2);
    assert!(normalized.contains(&"rs".to_string()));
    assert!(normalized.contains(&"toml".to_string()));
}

#[test]
fn normalize_falls_back_to_defaults_when_all_dropped() {
    let normalized = normalize_exts(Some(vec!["--".into(), " ".into()])).unwrap();
    assert_eq!(normalized, default_extensions());
}

#[test]
fn normalize_none_stays_none() {
    assert!(normalize_exts(None).is_none());
}

#[test]
fn default_contains_defaults() {
    let cfg = AppConfig::default();
    for ext in default_extensions() {
        assert!(cfg.detect_extensions.contains(&ext));
    }
}

#[test]
fn test_default_config() {
    let config = McpConfig::default();
    assert!(config.is_empty());
}

#[test]
fn stdio_is_the_default_transport() {
    assert_eq!(default_transport(), Transport::Stdio);
}
