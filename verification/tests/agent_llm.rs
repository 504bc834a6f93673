use lore_weekly::agent::llm::{
    grok_build_key_from_auth_json, grok_build_llm_config, grok_build_llm_config_from_auth_json,
    llm_config_from_openai, LlmSource,
};
use lore_weekly::config::OpenAIConfig;

fn openai(model: &str) -> OpenAIConfig {
    OpenAIConfig {
        api_base: "https://api.example/v1".to_string(),
        model_name: model.to_string(),
        api_key: "k-1".to_string(),
    }
}

fn pairs(v: &[(&str, &str)]) -> Vec<(String, String)> {
    v.iter().map(|(a, b)| (a.to_string(), b.to_string())).collect()
}

#[test]
fn configured_endpoint_is_taken_as_is() {
    match llm_config_from_openai(&openai("gpt-x")) {
        LlmSource::Configured(s) => {
            assert_eq!(s.api_base, "https://api.example/v1");
            assert_eq!(s.model_name, "gpt-x");
            assert_eq!(s.api_key, "k-1");
            assert!(s.extra_headers.is_empty());
        }
        LlmSource::GrokAuthFile => panic!("expected the configured endpoint"),
    }
}

#[test]
fn grok_build_model_name_selects_the_proxy() {
    assert!(matches!(llm_config_from_openai(&openai("grok-build")), LlmSource::GrokAuthFile));
}

#[test]
fn grok_proxy_settings_and_headers() {
    let s = grok_build_llm_config("sk-9".to_string());
    assert_eq!(s.api_base, "https://cli-chat-proxy.grok.com/v1");
    assert_eq!(s.model_name, "grok-4.6");
    assert_eq!(s.api_key, "sk-9");
    assert_eq!(
        s.extra_headers,
        pairs(&[
            ("X-XAI-Token-Auth", "xai-grok-cli"),
            ("x-grok-model-override", "grok-4.6"),
            ("x-grok-client-version", "0.2.118"),
            ("x-grok-client-identifier", "grok-shell"),
        ])
    );
}

#[test]
fn auth_json_single_http_key_is_trimmed() {
    let raw = r#"{"https://auth.x.ai": {"key": "  sk-1 ", "other": 3}, "user": {"key": "no"}}"#;
    assert_eq!(grok_build_key_from_auth_json(raw), Ok("sk-1".to_string()));
}

#[test]
fn auth_json_blank_or_non_string_keys_do_not_count() {
    let raw = r#"{"http://a": {"key": "   "}, "http://b": {"key": 7}, "http://c": {"key": "k"}}"#;
    assert_eq!(grok_build_key_from_auth_json(raw), Ok("k".to_string()));
}

#[test]
fn auth_json_without_http_key() {
    assert_eq!(
        grok_build_key_from_auth_json(r#"{"user": {"key": "x"}}"#),
        Err("no nested \"key\" under a top-level key starting with http in auth.json".to_string())
    );
}

#[test]
fn auth_json_ambiguous() {
    let raw = r#"{"http://a": {"key": "x"}, "https://b": {"key": "y"}}"#;
    assert_eq!(
        grok_build_key_from_auth_json(raw),
        Err("ambiguous auth.json: 2 top-level keys starting with http have a nested \"key\"".to_string())
    );
}

#[test]
fn auth_json_not_an_object() {
    assert_eq!(
        grok_build_key_from_auth_json("[1, 2]"),
        Err("auth.json must be a JSON object".to_string())
    );
}

#[test]
fn auth_json_unparsable() {
    let e = grok_build_key_from_auth_json("{not json").unwrap_err();
    assert!(e.starts_with("parse auth.json: "), "{e}");
    assert!(e.len() > "parse auth.json: ".len());
}

#[test]
fn grok_settings_from_auth_text() {
    let s = grok_build_llm_config_from_auth_json(r#"{"https://x": {"key": "abc"}}"#).unwrap();
    assert_eq!(s.api_key, "abc");
    assert_eq!(s.model_name, "grok-4.6");
    assert!(grok_build_llm_config_from_auth_json("{}").is_err());
}
