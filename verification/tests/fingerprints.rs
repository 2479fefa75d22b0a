use local_ai::local_compaction::{configured_route_fingerprint, route_configuration_fingerprint};
use local_ai::providers::{CustomApiType, CustomProviderConfig};

fn local_provider() -> CustomProviderConfig {
    CustomProviderConfig {
        name: "local".to_string(),
        base_url: "http://localhost:1234/v1".to_string(),
        models: vec!["model".to_string()],
        ..Default::default()
    }
}

#[test]
fn custom_provider_compaction_fingerprint_tracks_protocol_and_cache_policy() {
    let initial = local_provider();
    let fingerprint =
        |provider: CustomProviderConfig| configured_route_fingerprint("custom/local/model", &[provider]);
    let original = fingerprint(initial.clone()).unwrap();
    for api_type in [CustomApiType::OpenAiResponses, CustomApiType::AnthropicMessages] {
        let changed = CustomProviderConfig { api_type, ..initial.clone() };
        assert_ne!(fingerprint(changed).unwrap(), original);
    }
    let changed = CustomProviderConfig { prompt_caching: false, ..initial };
    assert_ne!(fingerprint(changed).unwrap(), original);
}

#[test]
fn fingerprint_is_a_digest_and_ignores_closing_slashes() {
    let provider = local_provider();
    let fingerprint = route_configuration_fingerprint("local", "model", &provider);
    assert_eq!(fingerprint.len(), 64);
    assert!(fingerprint.chars().all(|c| c.is_ascii_hexdigit()));
    let slashed = CustomProviderConfig {
        base_url: "http://localhost:1234/v1/".to_string(),
        ..provider.clone()
    };
    assert_eq!(route_configuration_fingerprint("local", "model", &slashed), fingerprint);
    assert_ne!(route_configuration_fingerprint("local", "other", &provider), fingerprint);
}

#[test]
fn fingerprint_needs_exactly_one_offer() {
    assert!(configured_route_fingerprint("custom/local/model", &[]).is_none());
    assert!(configured_route_fingerprint("hosted", &[local_provider()]).is_none());
    assert!(configured_route_fingerprint("custom/local/gone", &[local_provider()]).is_none());
    assert!(
        configured_route_fingerprint("custom/local/model", &[local_provider(), local_provider()])
            .is_none()
    );
}
