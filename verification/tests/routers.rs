use local_ai::custom_model_routers::{
    build_router_catalog, complexity_bucket, concrete_custom_model_ids, first_concrete_custom_model,
    is_custom_router_id, is_local_custom_router_id, meaningful_tokens, parse_model_config_yaml,
    reconcile_active_selection, resolve_router, resolve_router_selection, router_catalog_entry,
    BucketSection, ComplexityBucket, CustomModelRouter, CustomModelRouting, OutputDocument,
    OutputSection, PromptRouting, PromptRule, RouterDocument, RouterReading, RouterRequestFacts,
    RouterResolutionError, RoutingSection, RuleSection, SourcePath, MAX_ROUTER_RULES,
};
use local_ai::llms::LLMId;
use local_ai::providers::{
    custom_provider_name_is_unique, split_custom_model_id, CustomApiType,
    CustomProviderCapabilities, CustomProviderConfig,
};
use serde::Deserialize;
use serde_yaml::{Mapping, Value};

fn provider(name: &str, models: &[&str]) -> CustomProviderConfig {
    CustomProviderConfig {
        name: name.to_owned(),
        base_url: format!("http://{name}.test/v1"),
        models: models.iter().map(|model| (*model).to_owned()).collect(),
        api_type: CustomApiType::OpenAiCompatible,
        capabilities: CustomProviderCapabilities::default(),
        ..Default::default()
    }
}

fn source(path: &str) -> SourcePath {
    SourcePath { path: path.to_owned(), shown: path.to_owned() }
}

fn text_field(map: &Mapping, key: &str) -> Option<String> {
    map.get(key).and_then(|value| value.as_str()).map(|text| text.to_owned())
}

fn only_keys(map: &Mapping, keys: &[&str]) -> Result<(), String> {
    for key in map.keys() {
        let name = key.as_str().unwrap_or("");
        if !keys.contains(&name) {
            return Err(format!("unknown field `{name}`"));
        }
    }
    Ok(())
}

fn buckets(value: &Value) -> Result<BucketSection, String> {
    let map = value.as_mapping().ok_or("expected a map".to_owned())?;
    only_keys(map, &["easy", "medium", "hard"])?;
    Ok(BucketSection {
        easy: text_field(map, "easy"),
        medium: text_field(map, "medium"),
        hard: text_field(map, "hard"),
    })
}

fn rules(value: &Value) -> Result<Vec<RuleSection>, String> {
    let list = value.as_sequence().ok_or("expected a list".to_owned())?;
    let mut rules = Vec::new();
    for item in list {
        let map = item.as_mapping().ok_or("expected a map".to_owned())?;
        only_keys(map, &["description", "model"])?;
        rules.push(RuleSection {
            description: text_field(map, "description").ok_or("no description".to_owned())?,
            model: text_field(map, "model").ok_or("no model".to_owned())?,
        });
    }
    Ok(rules)
}

fn document(value: Value) -> Result<RouterDocument, String> {
    let map = value.as_mapping().ok_or("expected a map".to_owned())?;
    only_keys(map, &["name", "type", "default", "routing"])?;
    Ok(RouterDocument {
        name: text_field(map, "name").ok_or("missing field `name`".to_owned())?,
        model_type: text_field(map, "type").ok_or("missing field `type`".to_owned())?,
        default: text_field(map, "default"),
        routing: match map.get("routing") {
            Some(section) => RoutingSection::Present {
                buckets: buckets(section),
                rules: rules(section),
            },
            None => RoutingSection::Absent,
        },
    })
}

fn reading(yaml: &str) -> RouterReading {
    let mut documents = serde_yaml::Deserializer::from_str(yaml);
    let Some(first) = documents.next() else {
        return RouterReading::Empty;
    };
    match Value::deserialize(first).map_err(|error| error.to_string()).and_then(document) {
        Ok(document) => RouterReading::Router { document, more: documents.next().is_some() },
        Err(error) => RouterReading::Invalid(error),
    }
}

fn parse(yaml: &str, path: Option<&SourcePath>) -> Result<CustomModelRouter, String> {
    parse_model_config_yaml(yaml, reading(yaml), path)
}

fn written(document: OutputDocument) -> String {
    let mut map = Mapping::new();
    map.insert("name".into(), document.name.into());
    map.insert("type".into(), document.model_type.into());
    map.insert("default".into(), document.default.into());
    match document.routing {
        OutputSection::Absent => {}
        OutputSection::Buckets(section) => {
            let mut buckets = Mapping::new();
            for (key, value) in
                [("easy", section.easy), ("medium", section.medium), ("hard", section.hard)]
            {
                if let Some(value) = value {
                    buckets.insert(key.into(), value.into());
                }
            }
            map.insert("routing".into(), Value::Mapping(buckets));
        }
        OutputSection::Rules(section) => {
            let mut rules = Vec::new();
            for rule in section {
                let mut entry = Mapping::new();
                entry.insert("description".into(), rule.description.into());
                entry.insert("model".into(), rule.model.into());
                rules.push(Value::Mapping(entry));
            }
            map.insert("routing".into(), Value::Sequence(rules));
        }
    }
    serde_yaml::to_string(&Value::Mapping(map)).unwrap()
}

#[test]
fn parser_is_strict_and_stable_across_display_name_changes() {
    let path = source("/tmp/routers/release.yaml");
    let yaml = "name: Release helper\ntype: complexity\ndefault: custom/local/code\nrouting:\n  easy: custom/local/fast\n";
    let router = parse(yaml, Some(&path)).expect("valid router");
    assert_eq!(router.llm_id().as_str(), "custom-router:local:release");
    assert_eq!(router.all_targets(), ["custom/local/code", "custom/local/fast"]);

    let renamed = router.with_display_name("Release assistant".to_owned());
    assert_eq!(renamed.llm_id().as_str(), router.llm_id().as_str());
    let serialized = written(renamed.to_document());
    assert!(serialized.contains("name: Release assistant"));
    assert!(parse(&serialized, Some(&path)).is_ok());
    assert!(parse(
        "name: bad\ntype: complexity\ndefault: custom/local/code\nextra: true\n",
        Some(&path)
    )
    .is_err());
    assert!(parse(
        "---\nname: one\ntype: prompt\ndefault: custom/local/code\n---\nname: two\ntype: prompt\ndefault: custom/local/code\n",
        Some(&path)
    )
    .is_err());
}

#[test]
fn complexity_routing_is_bounded_and_optional_buckets_fall_back() {
    let router = parse(
        "name: Work\ntype: complexity\ndefault: custom/local/medium\nrouting:\n  hard: custom/local/slow\n",
        None,
    )
    .unwrap();
    assert_eq!(
        router.resolve(&RouterRequestFacts::default()).ok().unwrap().model_id,
        "custom/local/medium"
    );
    let hard = RouterRequestFacts {
        context_chars: 200_000,
        requires_code_review: true,
        ..Default::default()
    };
    assert_eq!(router.resolve(&hard).ok().unwrap().model_id, "custom/local/slow");
}

#[test]
fn prompt_rules_are_ordered_normalized_and_default_to_the_default_model() {
    let router = parse(
        "name: Prompt\ntype: prompt\ndefault: custom/local/general\nrouting:\n  - description: \"Rust\"\n    model: custom/local/rust\n  - description: \"кэш\"\n    model: custom/local/cache\n",
        None,
    )
    .unwrap();
    assert_eq!(
        router.resolve(&RouterRequestFacts::from_prompt("please use RUST")).ok().unwrap().model_id,
        "custom/local/rust"
    );
    assert_eq!(
        router.resolve(&RouterRequestFacts::from_prompt("КЭШ обновить")).ok().unwrap().model_id,
        "custom/local/cache"
    );
    assert_eq!(
        router.resolve(&RouterRequestFacts::from_prompt("unrelated request")).ok().unwrap().model_id,
        "custom/local/general"
    );
}

#[test]
fn prompt_tokens_are_normalized_once_and_rule_budgets_are_bounded() {
    let router = CustomModelRouter::new_local(
        "Prompt".to_owned(),
        CustomModelRouting::Prompt(PromptRouting {
            default_model: "custom/local/general".to_owned(),
            rules: vec![PromptRule::new(
                "Rust rust RUST".to_owned(),
                "custom/local/rust".to_owned(),
            )],
        }),
        None,
    );
    assert_eq!(
        router.resolve(&RouterRequestFacts::from_prompt("please use rust")).ok().unwrap().model_id,
        "custom/local/rust"
    );

    let too_many_tokens = (0..MAX_ROUTER_RULES)
        .map(|index| {
            let tokens = (0..200)
                .map(|token| format!("token-{index}-{token}"))
                .collect::<Vec<_>>()
                .join(" ");
            PromptRule::new(tokens, "custom/local/general".to_owned())
        })
        .collect();
    let oversized = CustomModelRouter::new_local(
        "Prompt".to_owned(),
        CustomModelRouting::Prompt(PromptRouting {
            default_model: "custom/local/general".to_owned(),
            rules: too_many_tokens,
        }),
        None,
    );
    assert!(oversized
        .validate()
        .expect_err("aggregate token budget must be enforced")
        .contains("tokens"));
}

#[test]
fn resolver_rejects_auto_nested_missing_duplicate_invalid_and_capability_mismatch() {
    let providers = vec![provider("local", &["code"]), provider("local", &["other"])];
    let duplicate =
        parse("name: Duplicate\ntype: complexity\ndefault: custom/local/code\n", None).unwrap();
    assert!(matches!(
        resolve_router(&duplicate, &RouterRequestFacts::default(), &providers),
        Err(RouterResolutionError::AmbiguousProvider(_))
    ));

    let providers = vec![provider("local", &["code"])];
    for target in ["auto", "custom-router:local:nested", "custom/missing/code"] {
        let yaml = format!("name: Invalid\ntype: complexity\ndefault: {target}\n");
        if let Ok(router) = parse(&yaml, None) {
            assert!(resolve_router(&router, &RouterRequestFacts::default(), &providers).is_err());
        }
    }

    let mut invalid = provider("bad", &["code"]);
    invalid.base_url.clear();
    let router =
        parse("name: Invalid\ntype: complexity\ndefault: custom/bad/code\n", None).unwrap();
    assert!(matches!(
        resolve_router(&router, &RouterRequestFacts::default(), &[invalid]),
        Err(RouterResolutionError::InvalidProvider { .. })
    ));
}

#[test]
fn catalog_intersects_target_capabilities_and_context_window() {
    let mut first = provider("one", &["fast"]);
    first.capabilities.context_window_tokens = Some(32_000);
    first.capabilities.vision = true;
    let mut second = provider("two", &["safe"]);
    second.capabilities.context_window_tokens = Some(16_000);
    second.capabilities.vision = false;
    let router = parse(
        "name: Both\ntype: complexity\ndefault: custom/one/fast\nrouting:\n  hard: custom/two/safe\n",
        None,
    )
    .unwrap();
    let entry = router_catalog_entry(&router, &[first, second], 4_000).ok().unwrap();
    assert!(!entry.capabilities.vision);
    assert_eq!(entry.context_window_tokens, Some(16_000));
    assert!(entry.is_available());
    assert_eq!(entry.info.context_window.max, 16_000);
    assert_eq!(entry.info.context_window.min, 4_000);
}

#[test]
fn catalog_requires_baseline_tools_capability() {
    let mut provider = provider("local", &["model"]);
    provider.capabilities.tools = false;
    let router =
        parse("name: Local\ntype: complexity\ndefault: custom/local/model\n", None).unwrap();
    let Err(RouterResolutionError::CapabilityMismatch { capability, .. }) =
        router_catalog_entry(&router, &[provider], 4_000)
    else {
        panic!("a provider without tools cannot serve ordinary requests");
    };
    assert_eq!(capability, "tools");
}

#[test]
fn removed_target_reconciliation_uses_concrete_custom_model_without_hosted_fallback() {
    let path = source("/tmp/routers/local.yaml");
    let router =
        parse("name: Local\ntype: complexity\ndefault: custom/local/removed\n", Some(&path))
            .unwrap();
    let current = router.llm_id();
    let providers = vec![provider("local", &["replacement"])];

    let reconciled = reconcile_active_selection(&current, &[router], &providers).unwrap();
    assert_eq!(reconciled.as_str(), "custom/local/replacement");
    assert!(
        reconcile_active_selection(&current, &[], &[]).is_none(),
        "removed local routers must not fall back to a hosted model"
    );
}

#[test]
fn concrete_model_ids_exclude_ambiguous_and_invalid_provider_configs() {
    let mut invalid = provider("broken", &["model"]);
    invalid.base_url.clear();
    let providers = vec![
        provider("local", &["model"]),
        provider("duplicate", &["one"]),
        provider("duplicate", &["two"]),
        invalid,
    ];
    assert_eq!(concrete_custom_model_ids(&providers), vec!["custom/local/model"]);
}

#[test]
fn saved_router_reads_back() {
    let path = source("/tmp/routers/team.yaml");
    let router = parse(
        "name: Team\ntype: prompt\ndefault: custom/local/general\nrouting:\n  - description: Reviews\n    model: custom/local/review\n",
        Some(&path),
    )
    .unwrap();
    let again = parse(&written(router.to_document()), Some(&path)).unwrap();
    assert_eq!(again.llm_id().as_str(), router.llm_id().as_str());
    assert_eq!(again.info.display_name, "Team");
    assert_eq!(again.all_targets(), router.all_targets());
    assert_eq!(
        again.resolve(&RouterRequestFacts::from_prompt("code reviews")).ok().unwrap().model_id,
        "custom/local/review"
    );
}

#[test]
fn malformed_router_files_say_what_is_wrong() {
    let message = |yaml: &str| parse(yaml, None).err().unwrap();
    assert_eq!(
        parse_model_config_yaml("", RouterReading::Empty, None).err().unwrap(),
        "router YAML is empty"
    );
    assert_eq!(
        message("name: A\ntype: other\ndefault: custom/a/b\n"),
        "`A`: unknown type `other` (expected `complexity` or `prompt`)"
    );
    assert_eq!(
        message("name: '  '\ntype: prompt\ndefault: custom/a/b\n"),
        "custom model router `name` is empty"
    );
    assert_eq!(message("name: A\ntype: prompt\n"), "`A`: `prompt` type requires a `default` model");
    assert!(message("name: A\ntype: prompt\ndefault: custom/a/b\nrouting:\n  easy: custom/a/c\n")
        .starts_with("`A`: invalid prompt routing: "));
    assert!(message("name: A\ntype: complexity\ndefault: custom/a/b\nrouting:\n  - description: x\n    model: y\n")
        .starts_with("`A`: invalid complexity routing: "));
    assert_eq!(
        message("name: one\ntype: prompt\ndefault: custom/a/b\n---\nname: two\ntype: prompt\ndefault: custom/a/b\n"),
        "custom model router YAML must contain exactly one document"
    );
    let long = format!("name: {}\ntype: prompt\ndefault: custom/a/b\n", "x".repeat(262_144));
    assert_eq!(message(&long), "custom model router YAML exceeds 262144 bytes");
}

#[test]
fn first_matching_rule_wins() {
    let router = CustomModelRouter::new_local(
        "Prompt".to_owned(),
        CustomModelRouting::Prompt(PromptRouting {
            default_model: "custom/local/general".to_owned(),
            rules: vec![
                PromptRule::new("parser".to_owned(), "custom/local/first".to_owned()),
                PromptRule::new("parser lexer".to_owned(), "custom/local/second".to_owned()),
            ],
        }),
        None,
    );
    let chosen = |prompt: &str| {
        router.resolve(&RouterRequestFacts::from_prompt(prompt)).ok().unwrap().model_id
    };
    assert_eq!(chosen("the parser and the lexer"), "custom/local/first");
    assert_eq!(chosen("only the lexer"), "custom/local/second");
}

#[test]
fn compatibility_forms_share_their_tokens() {
    assert_eq!(meaningful_tokens("ｃａｃｈｅ ﬁle"), ["cache", "file"]);
}

#[test]
fn complexity_grows_with_the_request() {
    assert!(matches!(
        complexity_bucket(&RouterRequestFacts::default()),
        ComplexityBucket::Easy | ComplexityBucket::Medium
    ));
    let large = RouterRequestFacts {
        context_chars: 200_000,
        attachment_count: 4,
        requires_code_review: true,
        requires_edit: true,
        ..Default::default()
    };
    assert_eq!(complexity_bucket(&large), ComplexityBucket::Hard);
}

#[test]
fn resolution_errors_name_what_is_missing() {
    let router = parse("name: A\ntype: complexity\ndefault: custom/local/code\n", None).unwrap();
    let facts = RouterRequestFacts::default();
    let message = |providers: &[CustomProviderConfig], facts: &RouterRequestFacts| {
        resolve_router(&router, facts, providers).err().unwrap().message()
    };
    assert_eq!(message(&[], &facts), "custom provider `local` is not configured");
    assert_eq!(
        message(&[provider("local", &["other"])], &facts),
        "custom model `custom/local/code` is not configured"
    );
    assert_eq!(
        message(&[provider("local", &["code"]), provider("local", &["code"])], &facts),
        "custom provider name `local` is ambiguous"
    );
    let mut invalid = provider("local", &["code"]);
    invalid.base_url = "ftp://local.test".to_owned();
    assert_eq!(
        message(&[invalid], &facts),
        "custom provider `local` is invalid: base URL must use http(s) and include a host"
    );
    let mut invalid = provider("local", &["code"]);
    invalid.base_url = "no url".to_owned();
    assert_eq!(
        message(&[invalid], &facts),
        "custom provider `local` is invalid: base URL is invalid: relative URL without a base"
    );
    let vision = RouterRequestFacts { requires_vision: true, ..Default::default() };
    assert_eq!(
        message(&[provider("local", &["code"])], &vision),
        "custom model `custom/local/code` does not provide `vision`"
    );
    let mut small = provider("local", &["code"]);
    small.capabilities.context_window_tokens = Some(10);
    let long = RouterRequestFacts { context_chars: 100_000, ..Default::default() };
    assert_eq!(
        message(&[small], &long),
        "custom model `custom/local/code` has too little context for 100000 local characters (10 tokens)"
    );
}

#[test]
fn resolution_returns_the_configured_target() {
    let router = parse("name: A\ntype: complexity\ndefault: custom/local/code\n", None).unwrap();
    let providers = [provider("local", &["other", "code"])];
    let (selection, target) =
        resolve_router_selection(&router, &RouterRequestFacts::default(), &providers)
            .ok()
            .unwrap();
    assert_eq!(selection.model_id, "custom/local/code");
    assert_eq!(target.model_id, "code");
    assert_eq!(target.provider_name, "local");
    assert_eq!(first_concrete_custom_model(&providers), Some("custom/local/other".to_owned()));
    assert!(first_concrete_custom_model(&[]).is_none());
}

#[test]
fn unusable_routers_stay_listed_with_their_reason() {
    let router = parse("name: A\ntype: complexity\ndefault: custom/gone/code\n", None).unwrap();
    let catalog = build_router_catalog(&[router], &[], 4_000);
    assert_eq!(catalog.len(), 1);
    assert!(!catalog[0].is_available());
    assert_eq!(
        catalog[0].disable_reason,
        Some("custom provider `gone` is not configured".to_owned())
    );
}

#[test]
fn hosted_choices_are_left_alone_by_reconciliation() {
    let kept = reconcile_active_selection(&LLMId::new("gpt-4o"), &[], &[]).unwrap();
    assert_eq!(kept.as_str(), "gpt-4o");
}

#[test]
fn router_identifiers_and_model_identifiers_are_told_apart() {
    assert!(is_custom_router_id("custom-router:local:a"));
    assert!(is_local_custom_router_id("custom-router:local:a"));
    assert!(!is_local_custom_router_id("custom-router:shared:a"));
    assert!(!is_custom_router_id("custom/local/a"));
    assert_eq!(
        split_custom_model_id("custom/local/a/b"),
        Some(("local".to_owned(), "a/b".to_owned()))
    );
    assert!(split_custom_model_id("hosted").is_none());
    let providers = [provider("a", &["m"]), provider("b", &["m"]), provider("b", &["n"])];
    assert!(custom_provider_name_is_unique("a", &providers));
    assert!(!custom_provider_name_is_unique("b", &providers));
    assert!(!custom_provider_name_is_unique("c", &providers));
}

#[test]
fn moved_routers_take_the_name_of_their_file() {
    let router = parse("name: One\ntype: prompt\ndefault: custom/local/model\n", None).unwrap();
    let moved = router.with_source_path(&source("/routers/other.yaml"));
    assert_eq!(moved.source_path.as_deref(), Some("/routers/other.yaml"));
    assert_eq!(moved.config_key(), "custom-router:local:other");
    assert_eq!(moved.llm_id().as_str(), "custom-router:local:other");
}
