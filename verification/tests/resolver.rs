use provider_resolver::EnvVars;
use provider_resolver::ModelProviderInfo;
use provider_resolver::WireApi;
use provider_resolver::built_in_model_providers;
use provider_resolver::substitute_env_vars;

fn env_of(pairs: &[(&str, &str)]) -> EnvVars {
    let mut env = EnvVars::new();
    for (k, v) in pairs {
        env.push(k.to_string(), v.to_string());
    }
    env
}

fn plain_profile() -> ModelProviderInfo {
    ModelProviderInfo {
        name: "Test Provider".to_string(),
        base_url: "https://api.example.com".to_string(),
        env_key: None,
        env_key_instructions: None,
        wire_api: WireApi::Chat,
        query_params: None,
        custom_headers: None,
    }
}

#[test]
fn test_custom_headers_env_substitution() {
    let env = env_of(&[("TEST_HEADER_VALUE", "test-value-123")]);
    let provider = ModelProviderInfo {
        custom_headers: Some(vec![
            ("X-Custom-Header".to_string(), "static-value".to_string()),
            ("X-Dynamic-Header".to_string(), "${TEST_HEADER_VALUE}".to_string()),
            (
                "X-Mixed-Header".to_string(),
                "prefix-${TEST_HEADER_VALUE}-suffix".to_string(),
            ),
        ]),
        ..plain_profile()
    };

    let headers = provider.get_custom_headers(&env);

    assert_eq!(headers.get("X-Custom-Header"), Some(&"static-value".to_string()));
    assert_eq!(headers.get("X-Dynamic-Header"), Some(&"test-value-123".to_string()));
    assert_eq!(
        headers.get("X-Mixed-Header"),
        Some(&"prefix-test-value-123-suffix".to_string())
    );
}

#[test]
fn test_codex_custom_headers_env_var() {
    let env = env_of(&[
        ("TEST_TOKEN", "secret-token-456"),
        (
            "CODEX_CUSTOM_HEADERS",
            "X-Custom-Auth: Bearer ${TEST_TOKEN}\nX-App-Version: 2.0.0\nX-Extra: some value",
        ),
    ]);
    let provider = ModelProviderInfo {
        custom_headers: Some(vec![(
            "X-Provider-Header".to_string(),
            "provider-value".to_string(),
        )]),
        ..plain_profile()
    };

    let headers = provider.get_custom_headers(&env);

    assert_eq!(headers.get("X-Provider-Header"), Some(&"provider-value".to_string()));
    assert_eq!(headers.get("X-Custom-Auth"), Some(&"Bearer secret-token-456".to_string()));
    assert_eq!(headers.get("X-App-Version"), Some(&"2.0.0".to_string()));
    assert_eq!(headers.get("X-Extra"), Some(&"some value".to_string()));
}

#[test]
fn url_suffix_responses() {
    let provider = ModelProviderInfo {
        base_url: "https://api.openai.com/v1".to_string(),
        wire_api: WireApi::Responses,
        ..plain_profile()
    };
    assert_eq!(provider.get_full_url(), "https://api.openai.com/v1/responses");
}

#[test]
fn url_suffix_chat() {
    let provider = ModelProviderInfo {
        base_url: "http://localhost:11434/v1".to_string(),
        wire_api: WireApi::Chat,
        ..plain_profile()
    };
    assert_eq!(provider.get_full_url(), "http://localhost:11434/v1/chat/completions");
}

#[test]
fn url_with_query_params() {
    let provider = ModelProviderInfo {
        base_url: "https://x.openai.azure.com/openai".to_string(),
        wire_api: WireApi::Chat,
        query_params: Some(vec![(
            "api-version".to_string(),
            "2025-04-01-preview".to_string(),
        )]),
        ..plain_profile()
    };
    assert_eq!(
        provider.get_full_url(),
        "https://x.openai.azure.com/openai/chat/completions?api-version=2025-04-01-preview"
    );
}

#[test]
fn url_with_several_query_params() {
    let provider = ModelProviderInfo {
        base_url: "https://h".to_string(),
        wire_api: WireApi::Responses,
        query_params: Some(vec![
            ("a".to_string(), "1".to_string()),
            ("b".to_string(), "2".to_string()),
        ]),
        ..plain_profile()
    };
    assert_eq!(provider.get_full_url(), "https://h/responses?a=1&b=2");
}

#[test]
fn url_with_empty_query_params() {
    let provider = ModelProviderInfo {
        base_url: "https://h".to_string(),
        wire_api: WireApi::Chat,
        query_params: Some(Vec::new()),
        ..plain_profile()
    };
    assert_eq!(provider.get_full_url(), "https://h/chat/completions");
}

#[test]
fn api_key_without_env_key_is_no_credential() {
    let env = env_of(&[("SOME_KEY", "value")]);
    let provider = plain_profile();
    assert_eq!(provider.api_key(&env, None), Ok(None));
}

#[test]
fn api_key_present() {
    let env = env_of(&[("X", "sk-123")]);
    let provider = ModelProviderInfo { env_key: Some("X".to_string()), ..plain_profile() };
    assert_eq!(provider.api_key(&env, None), Ok(Some("sk-123".to_string())));
}

#[test]
fn api_key_unset_is_missing_credential() {
    let env = EnvVars::new();
    let provider = ModelProviderInfo {
        env_key: Some("X".to_string()),
        env_key_instructions: Some("set X first".to_string()),
        ..plain_profile()
    };
    let err = provider.api_key(&env, None).unwrap_err();
    assert_eq!(err.var, "X");
    assert_eq!(err.instructions, Some("set X first".to_string()));
}

#[test]
fn api_key_whitespace_only_is_missing_credential() {
    let env = env_of(&[("X", "   \t ")]);
    let provider = ModelProviderInfo { env_key: Some("X".to_string()), ..plain_profile() };
    let err = provider.api_key(&env, None).unwrap_err();
    assert_eq!(err.var, "X");
    assert_eq!(err.instructions, None);
}

#[test]
fn api_key_unicode_whitespace_only_is_missing_credential() {
    let env = env_of(&[("X", "\u{000B}\u{000C}\u{0085}\u{00A0}\u{2003}\u{3000}")]);
    let provider = ModelProviderInfo { env_key: Some("X".to_string()), ..plain_profile() };
    let err = provider.api_key(&env, None).unwrap_err();
    assert_eq!(err.var, "X");
}

#[test]
fn api_key_primary_whitespace_only_is_missing_credential() {
    let env = EnvVars::new();
    let provider = ModelProviderInfo {
        env_key: Some("OPENAI_API_KEY".to_string()),
        ..plain_profile()
    };
    let err = provider.api_key(&env, Some("\u{00A0} \u{2028}".to_string())).unwrap_err();
    assert_eq!(err.var, "OPENAI_API_KEY");
}

#[test]
fn header_unicode_whitespace_is_trimmed() {
    let env = env_of(&[("CODEX_CUSTOM_HEADERS", "\u{00A0}X-Pad\u{2002}:\u{3000}v\u{000C}")]);
    let headers = plain_profile().get_custom_headers(&env);
    assert_eq!(headers.get("X-Pad"), Some(&"v".to_string()));
}

#[test]
fn api_key_primary_variable_uses_alternate_lookup() {
    let env = env_of(&[("OPENAI_API_KEY", "from-environment")]);
    let provider = ModelProviderInfo {
        env_key: Some("OPENAI_API_KEY".to_string()),
        ..plain_profile()
    };
    assert_eq!(
        provider.api_key(&env, Some("from-alternate".to_string())),
        Ok(Some("from-alternate".to_string()))
    );
    let err = provider.api_key(&env, None).unwrap_err();
    assert_eq!(err.var, "OPENAI_API_KEY");
}

#[test]
fn substitution_without_placeholder_is_identity() {
    let env = env_of(&[("X", "value")]);
    assert_eq!(substitute_env_vars("plain text, no markers", &env), "plain text, no markers");
}

#[test]
fn substitution_replaces_placeholder() {
    let env = env_of(&[("TEST_HEADER_VALUE", "test-value-123")]);
    assert_eq!(
        substitute_env_vars("prefix-${TEST_HEADER_VALUE}-suffix", &env),
        "prefix-test-value-123-suffix"
    );
}

#[test]
fn substitution_of_unbound_variable_is_empty() {
    let env = EnvVars::new();
    assert_eq!(substitute_env_vars("a-${NOPE}-b", &env), "a--b");
}

#[test]
fn substitution_handles_several_placeholders() {
    let env = env_of(&[("A", "1"), ("B", "2")]);
    assert_eq!(substitute_env_vars("${A}+${B}=${A}${B}", &env), "1+2=12");
}

#[test]
fn substitution_keeps_unmatched_marker() {
    let env = env_of(&[("UNCLOSED", "value")]);
    assert_eq!(substitute_env_vars("a-${UNCLOSED", &env), "a-${UNCLOSED");
}

#[test]
fn substitution_keeps_tail_after_unmatched_marker() {
    let env = env_of(&[("A", "1")]);
    assert_eq!(substitute_env_vars("${A}-${rest", &env), "1-${rest");
}

#[test]
fn process_wide_block_overrides_profile_header() {
    let env = env_of(&[("T", "secret"), ("CODEX_CUSTOM_HEADERS", "X-A: Bearer ${T}")]);
    let provider = ModelProviderInfo {
        custom_headers: Some(vec![("X-A".to_string(), "static".to_string())]),
        ..plain_profile()
    };
    let headers = provider.get_custom_headers(&env);
    assert_eq!(headers.get("X-A"), Some(&"Bearer secret".to_string()));
    assert_eq!(headers.len(), 1);
}

#[test]
fn process_wide_block_plain_line_is_trimmed_verbatim() {
    let env = env_of(&[("CODEX_CUSTOM_HEADERS", "X-Extra: some value")]);
    let headers = plain_profile().get_custom_headers(&env);
    assert_eq!(headers.get("X-Extra"), Some(&"some value".to_string()));
}

#[test]
fn process_wide_block_line_without_colon_is_skipped() {
    let env = env_of(&[("CODEX_CUSTOM_HEADERS", "not a header line\nX-Good: yes")]);
    let headers = plain_profile().get_custom_headers(&env);
    assert_eq!(headers.get("not a header line"), None);
    assert_eq!(headers.get("X-Good"), Some(&"yes".to_string()));
    assert_eq!(headers.len(), 1);
}

#[test]
fn process_wide_block_later_line_wins() {
    let env = env_of(&[("CODEX_CUSTOM_HEADERS", "X-A: first\nX-A: second")]);
    let headers = plain_profile().get_custom_headers(&env);
    assert_eq!(headers.get("X-A"), Some(&"second".to_string()));
    assert_eq!(headers.len(), 1);
}

#[test]
fn header_names_and_values_are_trimmed() {
    let env = env_of(&[("CODEX_CUSTOM_HEADERS", "  X-Spaced  :  padded value  ")]);
    let headers = plain_profile().get_custom_headers(&env);
    assert_eq!(headers.get("X-Spaced"), Some(&"padded value".to_string()));
}

#[test]
fn no_headers_resolves_to_empty_map() {
    let env = EnvVars::new();
    let headers = plain_profile().get_custom_headers(&env);
    assert_eq!(headers.len(), 0);
    assert_eq!(headers.get("X-Anything"), None);
}

#[test]
fn env_lookup_first_binding_wins() {
    let env = env_of(&[("X", "first"), ("X", "second")]);
    assert_eq!(env.get("X"), Some("first".to_string()));
    assert_eq!(env.get("Y"), None);
}

#[test]
fn wire_api_default_is_chat() {
    assert_eq!(WireApi::default(), WireApi::Chat);
}

#[test]
fn built_in_providers_hold_only_openai() {
    let providers = built_in_model_providers();
    assert_eq!(providers.len(), 1);
    let (key, p) = &providers[0];
    assert_eq!(key, "openai");
    assert_eq!(p.name, "OpenAI");
    assert_eq!(p.base_url, "https://api.openai.com/v1");
    assert_eq!(p.env_key, Some("OPENAI_API_KEY".to_string()));
    assert_eq!(p.wire_api, WireApi::Responses);
    assert!(p.env_key_instructions.is_some());
    assert!(p.query_params.is_none());
    assert!(p.custom_headers.is_none());
    assert_eq!(p.get_full_url(), "https://api.openai.com/v1/responses");
}
