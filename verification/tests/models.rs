use local_ai::custom_model_routers::{CustomModelRouter, CustomModelRouting, PromptRouting};
use local_ai::execution_profiles::{
    legacy_base_model, AIExecutionProfile, AIExecutionProfilesModel,
    AIExecutionProfilesModelEvent, ProfileIdSource,
};
use local_ai::ids::EntityId;
use local_ai::llm_preferences::{LLMPreferences, LLMPreferencesEvent};
use local_ai::llms::{
    dedupe_model_display_names, get_cached_models, host_config, is_usable_llm,
    is_using_api_key_for_provider, models_by_feature_from_custom_providers, same_info,
    AvailableLLMs, DisableReason, Icon, LLMContextWindow, LLMId, LLMInfo, LLMModelHost,
    LLMProvider, LLMUsageMetadata, ModelsByFeature, RoutingHostConfig, StoredApiKeys, WireHostConfigs, WireLLMInfo,
};
use local_ai::providers::CustomProviderConfig;
use serde_json::Value;

const MIN_CONTEXT_TOKENS: u32 = 4_000;

fn text(value: &Value, key: &str) -> Option<String> {
    value.get(key).and_then(|field| field.as_str()).map(|field| field.to_owned())
}

fn host(name: &str) -> LLMModelHost {
    match name {
        "DirectApi" => LLMModelHost::DirectApi,
        "AwsBedrock" => LLMModelHost::AwsBedrock,
        "CustomEndpoint" => LLMModelHost::CustomEndpoint,
        _ => LLMModelHost::Unknown,
    }
}

fn host_name(host: LLMModelHost) -> &'static str {
    match host {
        LLMModelHost::DirectApi => "DirectApi",
        LLMModelHost::AwsBedrock => "AwsBedrock",
        LLMModelHost::CustomEndpoint => "CustomEndpoint",
        LLMModelHost::Unknown => "Unknown",
    }
}

fn host_entry(value: &Value) -> RoutingHostConfig {
    RoutingHostConfig {
        enabled: value.get("enabled").and_then(|field| field.as_bool()).unwrap_or(false),
        model_routing_host: host(&text(value, "model_routing_host").unwrap_or_default()),
    }
}

fn hosts(value: Option<&Value>) -> WireHostConfigs {
    match value {
        Some(Value::Array(entries)) => {
            WireHostConfigs::List(entries.iter().map(host_entry).collect())
        }
        Some(Value::Object(entries)) => WireHostConfigs::ByHost(
            entries.iter().map(|(name, entry)| (host(name), host_entry(entry))).collect(),
        ),
        _ => WireHostConfigs::List(Vec::new()),
    }
}

fn default_profiles() -> AIExecutionProfilesModel {
    AIExecutionProfilesModel::with_default(
        AIExecutionProfile::default(),
        &mut ProfileIdSource { next: 0 },
    )
}

fn provider_of(name: Option<String>) -> LLMProvider {
    match name.as_deref() {
        Some("OpenAI") => LLMProvider::OpenAI,
        Some("Anthropic") => LLMProvider::Anthropic,
        Some("Google") => LLMProvider::Google,
        Some("Xai") => LLMProvider::Xai,
        _ => LLMProvider::Unknown,
    }
}

fn info(raw: &str) -> LLMInfo {
    let value: Value = serde_json::from_str(raw).expect("should deserialize");
    let multiplier = value
        .get("usage_metadata")
        .and_then(|usage| usage.get("request_multiplier"))
        .and_then(|field| field.as_u64())
        .unwrap_or(1);
    LLMInfo::from_wire(WireLLMInfo {
        display_name: text(&value, "display_name").unwrap(),
        base_model_name: text(&value, "base_model_name"),
        id: LLMId::new(&text(&value, "id").unwrap()),
        reasoning_level: text(&value, "reasoning_level"),
        usage_metadata: LLMUsageMetadata { request_multiplier: multiplier as usize },
        description: text(&value, "description"),
        disable_reason: None,
        vision_supported: value
            .get("vision_supported")
            .and_then(|field| field.as_bool())
            .unwrap_or(false),
        provider: provider_of(text(&value, "provider")),
        host_configs: hosts(value.get("host_configs")),
        context_window: LLMContextWindow::default(),
        capabilities: None,
    })
}

fn written(info: &LLMInfo) -> String {
    let mut map = serde_json::Map::new();
    map.insert("display_name".to_owned(), info.display_name.clone().into());
    map.insert("base_model_name".to_owned(), info.base_model_name.clone().into());
    map.insert("id".to_owned(), info.id.as_str().into());
    let mut usage = serde_json::Map::new();
    usage.insert(
        "request_multiplier".to_owned(),
        (info.usage_metadata.request_multiplier as u64).into(),
    );
    map.insert("usage_metadata".to_owned(), Value::Object(usage));
    if let Some(description) = &info.description {
        map.insert("description".to_owned(), description.clone().into());
    }
    map.insert("vision_supported".to_owned(), info.vision_supported.into());
    let provider = match info.provider {
        LLMProvider::Anthropic => "Anthropic",
        _ => "Unknown",
    };
    map.insert("provider".to_owned(), provider.into());
    let mut hosts = serde_json::Map::new();
    for (host, config) in &info.host_configs {
        let mut entry = serde_json::Map::new();
        entry.insert("enabled".to_owned(), config.enabled.into());
        entry.insert("model_routing_host".to_owned(), host_name(config.model_routing_host).into());
        hosts.insert(host_name(*host).to_owned(), Value::Object(entry));
    }
    map.insert("host_configs".to_owned(), Value::Object(hosts));
    serde_json::to_string(&Value::Object(map)).expect("should serialize")
}

fn model(id: &str, disable_reason: Option<DisableReason>) -> LLMInfo {
    LLMInfo::from_wire(WireLLMInfo {
        display_name: id.to_owned(),
        base_model_name: None,
        id: LLMId::new(id),
        reasoning_level: None,
        usage_metadata: LLMUsageMetadata { request_multiplier: 1 },
        description: None,
        disable_reason,
        vision_supported: false,
        provider: LLMProvider::Unknown,
        host_configs: WireHostConfigs::List(Vec::new()),
        context_window: LLMContextWindow::default(),
        capabilities: None,
    })
}

fn local_providers() -> Vec<CustomProviderConfig> {
    vec![
        CustomProviderConfig {
            name: "local-keyless".to_string(),
            base_url: "http://localhost:1234/v1".to_string(),
            models: vec!["p0-keyless".to_string()],
            api_key_env_var: None,
            api_type: Default::default(),
            ..Default::default()
        },
        CustomProviderConfig {
            name: "local-keyed".to_string(),
            base_url: "http://localhost:5678/v1".to_string(),
            models: vec!["p0-keyed".to_string()],
            api_key_env_var: Some("P0_LOCAL_API_KEY".to_string()),
            api_type: Default::default(),
            ..Default::default()
        },
    ]
}

#[test]
fn startup_loads_existing_custom_provider_models() {
    let preferences = LLMPreferences::new(&local_providers(), MIN_CONTEXT_TOKENS);
    let ids = preferences
        .get_base_llm_choices_for_agent_mode()
        .iter()
        .map(|model| model.id.as_str().to_owned())
        .collect::<Vec<_>>();
    assert_eq!(
        ids,
        vec!["custom/local-keyless/p0-keyless", "custom/local-keyed/p0-keyed"],
        "custom providers configured before startup should populate the Agent Mode catalog"
    );
}

#[test]
fn should_clear_preference_admin_disabled() {
    // AdminDisabled always clears, regardless of BYOK status.
    assert!(DisableReason::AdminDisabled.should_clear_preference());
}

#[test]
fn should_clear_preference_unavailable() {
    assert!(DisableReason::Unavailable.should_clear_preference());
}

#[test]
fn should_not_clear_preference_out_of_requests() {
    // Transient — never clears.
    assert!(!DisableReason::OutOfRequests.should_clear_preference());
}

#[test]
fn should_not_clear_preference_provider_outage() {
    // Transient — never clears.
    assert!(!DisableReason::ProviderOutage.should_clear_preference());
}

#[test]
fn llm_info_deserializes_without_base_model_name() {
    let raw = r#"{
            "display_name": "gpt-4o",
            "id": "gpt-4o",
            "usage_metadata": {
                "request_multiplier": 1,
                "credit_multiplier": null
            },
            "description": null,
            "disable_reason": null,
            "vision_supported": false,
            "spec": null,
            "provider": "Unknown"
        }"#;

    let info = info(raw);
    assert_eq!(info.display_name, "gpt-4o");
    assert_eq!(info.base_model_name, "gpt-4o");
}

#[test]
fn llm_info_deserializes_host_configs_as_vec() {
    // Wire format from server: host_configs is a Vec
    let raw = r#"{
            "display_name": "gpt-4o",
            "id": "gpt-4o",
            "usage_metadata": { "request_multiplier": 1, "credit_multiplier": null },
            "provider": "OpenAI",
            "host_configs": [
                { "enabled": true, "model_routing_host": "DirectApi" },
                { "enabled": false, "model_routing_host": "AwsBedrock" }
            ]
        }"#;

    let info = info(raw);
    assert_eq!(info.display_name, "gpt-4o");
    assert_eq!(info.host_configs.len(), 2);
    assert!(host_config(&info.host_configs, LLMModelHost::DirectApi).unwrap().enabled);
    assert!(!host_config(&info.host_configs, LLMModelHost::AwsBedrock).unwrap().enabled);
}

#[test]
fn llm_info_round_trip_serializes_and_deserializes() {
    // Start with wire format (Vec)
    let wire_json = r#"{
            "display_name": "model-3",
            "base_model_name": "model-3",
            "id": "model-3",
            "usage_metadata": { "request_multiplier": 2, "credit_multiplier": 1.5 },
            "description": "A powerful model",
            "vision_supported": true,
            "provider": "Anthropic",
            "host_configs": [
                { "enabled": true, "model_routing_host": "DirectApi" }
            ]
        }"#;

    // Deserialize from wire format
    let info_from_wire = info(wire_json);

    // Serialize (produces map format)
    let serialized = written(&info_from_wire);

    // Deserialize again (from map format)
    let round_tripped = info(&serialized);

    assert_eq!(info_from_wire, round_tripped);
    assert!(same_info(&info_from_wire, &round_tripped));
}

#[test]
fn older_caches_hold_the_models_of_agent_mode() {
    let older = || AvailableLLMs::from_stored(LLMId::new("a"), vec![model("a", None)], None);
    let newer = ModelsByFeature { coding: older(), ..ModelsByFeature::default() };
    assert_eq!(get_cached_models(Some(newer.clone()), None), Some(newer.clone()));
    assert_eq!(get_cached_models(Some(newer.clone()), Some(older())), Some(newer));
    assert_eq!(
        get_cached_models(None, Some(older())),
        Some(ModelsByFeature { agent_mode: older(), ..ModelsByFeature::default() })
    );
    assert_eq!(get_cached_models(None, None), None);
}

#[test]
fn a_map_of_hosts_is_kept_as_it_is() {
    let raw = r#"{
            "display_name": "m", "id": "m",
            "host_configs": {
                "DirectApi": { "enabled": true, "model_routing_host": "AwsBedrock" },
                "AwsBedrock": { "enabled": false, "model_routing_host": "AwsBedrock" }
            }
        }"#;
    let model = info(raw);
    assert_eq!(model.host_configs.len(), 2);
    let direct = host_config(&model.host_configs, LLMModelHost::DirectApi).unwrap();
    assert!(direct.enabled);
    assert_eq!(direct.model_routing_host, LLMModelHost::AwsBedrock);
    assert!(!host_config(&model.host_configs, LLMModelHost::AwsBedrock).unwrap().enabled);
    assert_eq!(LLMInfo::from_wire(model.to_wire()), model);
}

#[test]
fn reconciling_tells_of_every_choice_that_it_clears() {
    let preferences = LLMPreferences::new(&local_providers(), MIN_CONTEXT_TOKENS);
    let mut profiles = default_profiles();
    let id = profiles.default_profile_id();
    profiles.set_base_model(id, Some(LLMId::new("custom/local-keyed/p0-keyed")));
    let saved_as = profiles.default_profile().sync_id();
    assert!(preferences.reconcile_disabled_model_preferences(&mut profiles).is_empty());
    profiles.set_base_model(id, Some(LLMId::new("custom/gone/model")));
    profiles.set_coding_model(id, Some(LLMId::new("custom/gone/model")));
    profiles.set_context_window_limit(id, Some(4_000));
    let updated = AIExecutionProfilesModelEvent::ProfileUpdated(id);
    assert_eq!(
        preferences.reconcile_disabled_model_preferences(&mut profiles),
        [updated, updated, updated]
    );
    let info = profiles.default_profile();
    assert!(info.data().base_model.is_none());
    assert!(info.data().coding_model.is_none());
    assert!(info.data().context_window_limit.is_none());
    assert_eq!(info.sync_id(), saved_as);
    assert!(preferences.reconcile_disabled_model_preferences(&mut profiles).is_empty());
}

#[test]
fn the_last_configuration_of_a_host_counts() {
    let raw = r#"{
            "display_name": "m", "id": "m",
            "host_configs": [
                { "enabled": true, "model_routing_host": "DirectApi" },
                { "enabled": false, "model_routing_host": "DirectApi" }
            ]
        }"#;
    let info = info(raw);
    assert_eq!(info.host_configs.len(), 1);
    assert!(!host_config(&info.host_configs, LLMModelHost::DirectApi).unwrap().enabled);
    assert!(host_config(&info.host_configs, LLMModelHost::CustomEndpoint).is_none());
}

#[test]
fn unknown_default_gives_way_to_the_first_choice() {
    let available =
        AvailableLLMs::new(LLMId::new("gone"), vec![model("a", None), model("b", None)], None)
            .ok()
            .unwrap();
    assert_eq!(available.default_id().as_str(), "a");
    let empty = AvailableLLMs::new(LLMId::new("gone"), Vec::new(), None);
    assert_eq!(empty.err().unwrap(), "Tried to create AvailableLLMs with empty`choices`.");
    let stored = AvailableLLMs::from_stored(LLMId::new("gone"), vec![model("a", None)], None);
    assert_eq!(stored.default_id().as_str(), "gone");
    assert_eq!(stored.choices().len(), 1);
    let nothing = AvailableLLMs::from_stored(LLMId::new("gone"), Vec::new(), None);
    assert!(nothing.choices().is_empty());
}

#[test]
fn usable_default_passes_over_disabled_models() {
    let available = AvailableLLMs::new(
        LLMId::new("a"),
        vec![model("a", Some(DisableReason::AdminDisabled)), model("b", None)],
        None,
    )
    .ok()
    .unwrap();
    assert_eq!(available.usable_default_llm_info().unwrap().id.as_str(), "b");
    assert!(!is_usable_llm(&model("a", Some(DisableReason::Unavailable))));
    assert!(is_usable_llm(&model("a", Some(DisableReason::ProviderOutage))));
}

#[test]
fn display_names_are_sorted_without_repetition() {
    let names = dedupe_model_display_names(&vec![
        model("zeta", None),
        model("alpha", None),
        model("zeta", None),
    ]);
    assert_eq!(names, ["alpha", "zeta"]);
}

#[test]
fn catalogue_comes_from_the_configured_providers() {
    let features = models_by_feature_from_custom_providers(&local_providers(), MIN_CONTEXT_TOKENS);
    assert!(features.info_for_id(&LLMId::new("custom/local-keyed/p0-keyed")).is_some());
    assert!(features.info_for_id(&LLMId::new("gpt-4o")).is_none());
}

#[test]
fn own_keys_count_only_where_they_may_be_used() {
    let keys = |byo_api_key_enabled: bool| StoredApiKeys {
        byo_api_key_enabled,
        openai: true,
        anthropic: false,
        google: false,
        custom: vec!["local".to_owned()],
    };
    assert!(is_using_api_key_for_provider(&LLMProvider::OpenAI, &keys(true)));
    assert!(!is_using_api_key_for_provider(&LLMProvider::OpenAI, &keys(false)));
    assert!(!is_using_api_key_for_provider(&LLMProvider::Anthropic, &keys(true)));
    assert!(is_using_api_key_for_provider(&LLMProvider::Custom("local".to_owned()), &keys(true)));
    assert!(!is_using_api_key_for_provider(&LLMProvider::Xai, &keys(true)));
}

#[test]
fn tooltips_explain_the_reason() {
    assert_eq!(DisableReason::Unavailable.tooltip_text(), "This model is unavailable.");
    assert_eq!(
        DisableReason::ProviderOutage.tooltip_text(),
        "This model is temporarily unavailable due to a provider outage."
    );
}

#[test]
fn chosen_model_is_used_and_copied_choices_are_the_same() {
    let mut preferences = LLMPreferences::new(&local_providers(), MIN_CONTEXT_TOKENS);
    let profiles = default_profiles();
    let view = EntityId(7);
    let other = EntityId(8);
    let chosen = LLMId::new("custom/local-keyed/p0-keyed");
    preferences.update_preferred_agent_mode_llm(&chosen, view, &profiles);
    assert_eq!(
        preferences.get_active_base_model(&profiles, Some(view)).id.as_str(),
        "custom/local-keyed/p0-keyed"
    );
    preferences.copy_agent_mode_selection(view, other);
    assert_eq!(
        preferences.get_active_base_model(&profiles, Some(other)).id.as_str(),
        "custom/local-keyed/p0-keyed"
    );
    assert_eq!(
        preferences.get_base_llm_override(view),
        Some("\"custom/local-keyed/p0-keyed\"".to_owned())
    );
    assert!(preferences.remove_llm_override(view));
    assert!(preferences.get_base_llm_override(view).is_none());
}

#[test]
fn older_setting_names_a_model_as_json() {
    assert_eq!(legacy_base_model("\"gpt-4o\"").unwrap().as_str(), "gpt-4o");
    assert!(legacy_base_model("null").is_none());
    assert!(legacy_base_model("gpt-4o").is_none());
}

#[test]
fn providers_have_their_logos() {
    assert_eq!(LLMProvider::OpenAI.icon(), Some(Icon::OpenAILogo));
    assert_eq!(LLMProvider::Google.icon(), Some(Icon::GeminiLogo));
    assert_eq!(LLMProvider::Xai.icon(), None);
    assert_eq!(LLMProvider::Custom("local".to_owned()).icon(), None);
}

#[test]
fn menu_names_carry_the_description() {
    let mut plain = model("plain", None);
    plain.display_name = "Plain".to_owned();
    plain.description = None;
    assert_eq!(plain.menu_display_name(), "Plain");
    assert!(!plain.has_reasoning_level());
    plain.description = Some("fast".to_owned());
    assert_eq!(plain.menu_display_name(), "Plain (fast)");
}

#[test]
fn new_models_are_announced_in_one_view() {
    let mut preferences = LLMPreferences::new(&[], MIN_CONTEXT_TOKENS);
    let mut profiles = default_profiles();
    let offered = LLMId::new("custom/local-keyless/p0-keyless");
    assert!(!preferences.is_available_agent_mode_llm(&offered));
    let event = preferences.refresh_available_models(
        &local_providers(),
        &[],
        MIN_CONTEXT_TOKENS,
        true,
        &mut profiles,
    );
    let (event, updates) = event.unwrap();
    assert_eq!(event, LLMPreferencesEvent::UpdatedAvailableLLMs);
    assert!(updates.is_empty());
    assert!(preferences.is_available_agent_mode_llm(&offered));
    assert!(preferences.get_llm_info(&offered).is_some());
    assert_eq!(preferences.new_choices_since_last_update().unwrap().len(), 2);
    let (view, other) = (EntityId(1), EntityId(2));
    assert!(preferences.should_show_new_choices_popup(other));
    preferences.mark_new_choices_popup_as_shown(view);
    assert!(preferences.should_show_new_choices_popup(view));
    assert!(!preferences.should_show_new_choices_popup(other));
    preferences.hide_llm_popup(view);
    assert!(!preferences.should_show_new_choices_popup(view));
    let again = preferences.refresh_available_models(
        &local_providers(),
        &[],
        MIN_CONTEXT_TOKENS,
        true,
        &mut profiles,
    );
    assert!(again.is_none());
}

#[test]
fn a_refresh_knows_the_routers_that_come_with_it() {
    let mut preferences = LLMPreferences::new(&[], MIN_CONTEXT_TOKENS);
    let mut profiles = default_profiles();
    let id = profiles.default_profile_id();
    let router = CustomModelRouter::new_local(
        "daily".to_owned(),
        CustomModelRouting::Prompt(PromptRouting {
            default_model: "custom/local-keyless/p0-keyless".to_owned(),
            rules: Vec::new(),
        }),
        None,
    );
    let chosen = router.llm_id();
    profiles.set_base_model(id, Some(chosen.clone()));
    let event = preferences.refresh_available_models(
        &local_providers(),
        &[router],
        MIN_CONTEXT_TOKENS,
        true,
        &mut profiles,
    );
    let (_, updates) = event.unwrap();
    assert!(updates.is_empty());
    assert_eq!(profiles.default_profile().data().base_model, Some(chosen));
    let event = preferences.refresh_available_models(
        &[],
        &[],
        MIN_CONTEXT_TOKENS,
        true,
        &mut profiles,
    );
    let (_, updates) = event.unwrap();
    assert_eq!(updates, [AIExecutionProfilesModelEvent::ProfileUpdated(id)]);
    assert!(profiles.default_profile().data().base_model.is_none());
}

#[test]
fn features_fall_back_to_their_defaults() {
    let preferences = LLMPreferences::new(&local_providers(), MIN_CONTEXT_TOKENS);
    let mut profiles = default_profiles();
    let first = "custom/local-keyless/p0-keyless";
    assert_eq!(preferences.get_default_base_model().id.as_str(), first);
    assert_eq!(preferences.get_default_coding_model().id.as_str(), first);
    assert_eq!(
        preferences.get_active_cli_agent_model(&profiles, None).id.as_str(),
        preferences.get_default_cli_agent_model().id.as_str()
    );
    assert_eq!(
        preferences.get_active_computer_use_model(&profiles, None).id.as_str(),
        preferences.get_default_computer_use_model().id.as_str()
    );
    assert!(preferences.get_preferred_codex_model().is_none());
    let chosen = LLMId::new("custom/local-keyed/p0-keyed");
    let id = profiles.default_profile_id();
    assert_eq!(
        preferences.update_preferred_coding_llm(&chosen, None, &mut profiles),
        (true, Some(AIExecutionProfilesModelEvent::ProfileUpdated(id)))
    );
    assert_eq!(
        preferences.update_preferred_coding_llm(&chosen, None, &mut profiles),
        (false, None)
    );
    assert_eq!(
        preferences.get_active_coding_model(&profiles, None).id.as_str(),
        "custom/local-keyed/p0-keyed"
    );
    assert_eq!(preferences.get_coding_llm_choices().len(), 2);
    assert!(!preferences.get_cli_agent_llm_choices().is_empty());
    assert!(!preferences.get_computer_use_llm_choices().is_empty());
}
