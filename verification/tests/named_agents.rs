use local_ai::harness_availability::Harness;
use local_ai::json_tree::JsonTree;
use local_ai::local_named_agents::{
    bundle_from_fields, format_named_agent_list, merge_named_agent_config, profile_sync_id,
    reject_secret_values, runtime_mcp_specs, validate_model_id, validate_name,
    validate_named_run_args, AgentBundleSecretRefs, AgentConfigSnapshot, AgentConfigSnapshotFile,
    LocalNamedAgentRunMetadata, NamedAgentBundle, NamedAgentError, NamedAgentFieldsArgs,
    NamedAgentRecord, NamedAgentRunOverrides, ProfileSyncId, RunAgentArgs, ServerMerges,
    SkillReference, SkillSpec,
};
use local_ai::named_agent_repository::{
    begin_delete, check_confirmed, check_opened, created_message, decide_file, id_from_path,
    parse_bundle, report_file, safe_file_label, select, shown_heading, temp_name_as,
    yaml_error_location, AgentSelection, FileDecision, FileReading, FoundFile,
    LocalNamedAgentRepository, MAX_BUNDLE_BYTES,
};
use local_ai::secrets::{
    is_env_var_name, is_secret_key, is_strict_secret_reference, literal_secret_like,
    parse_env_ref,
};

fn agents() -> LocalNamedAgentRepository {
    LocalNamedAgentRepository::new("/agents")
}

fn bundle(name: &str) -> NamedAgentBundle {
    NamedAgentBundle {
        name: name.to_owned(),
        description: None,
        base_prompt: Some("Be brief.".to_owned()),
        model_id: "custom/local/model".to_owned(),
        profile_id: None,
        skills: Vec::new(),
        mcp_servers: None,
        harness: Harness::Oz,
        computer_use_enabled: None,
        secret_refs: None,
    }
}

fn empty_snapshot() -> AgentConfigSnapshot {
    AgentConfigSnapshot {
        name: None,
        environment_id: None,
        model_id: None,
        base_prompt: None,
        mcp_servers: None,
        profile_id: None,
        worker_host: None,
        skill_spec: None,
        computer_use_enabled: None,
        harness: None,
        harness_auth_secrets: None,
    }
}

fn file_snapshot(model_id: &str) -> AgentConfigSnapshotFile {
    AgentConfigSnapshotFile {
        name: None,
        model_id: Some(model_id.to_owned()),
        base_prompt: None,
        mcp_servers: None,
        profile_id: None,
        host: None,
        skill_spec: None,
        computer_use_enabled: None,
        harness: None,
        harness_auth_secrets: None,
    }
}

fn overrides(
    one_shot: Option<AgentConfigSnapshotFile>,
    cli: AgentConfigSnapshot,
) -> NamedAgentRunOverrides {
    NamedAgentRunOverrides {
        one_shot,
        cli,
        bundle_skill_instructions: None,
        invoked_skill_instructions: None,
    }
}

fn no_merges() -> ServerMerges {
    ServerMerges { with_one_shot: None, with_cli: None }
}

fn skill(text: &str) -> SkillReference {
    SkillReference {
        text: text.to_owned(),
        parsed: Ok(SkillSpec { org: None, repo: None, skill_identifier: text.to_owned() }),
    }
}

fn record(id: u128, name: &str) -> NamedAgentRecord {
    NamedAgentRecord::new(id, bundle(name), format!("/agents/{id}.yaml"), "rev".to_owned())
}

fn fields() -> NamedAgentFieldsArgs {
    NamedAgentFieldsArgs {
        name: None,
        description: None,
        base_prompt: None,
        model_id: None,
        profile_id: None,
        skills: Vec::new(),
        mcp_servers: None,
        harness: None,
        computer_use: None,
        secret_env: Vec::new(),
        secret_keychain: Vec::new(),
    }
}

#[test]
fn command_line_wins_over_file_and_bundle() {
    let merged = merge_named_agent_config(
        &bundle("helper"),
        &overrides(Some(file_snapshot("custom/local/file")), empty_snapshot()),
        &no_merges(),
    )
    .ok()
    .unwrap();
    assert_eq!(merged.model_id.as_deref(), Some("custom/local/file"));
    assert_eq!(merged.base_prompt.as_deref(), Some("Be brief."));
    let cli = AgentConfigSnapshot {
        model_id: Some("custom/local/cli".to_owned()),
        ..empty_snapshot()
    };
    let merged = merge_named_agent_config(
        &bundle("helper"),
        &overrides(Some(file_snapshot("custom/local/file")), cli),
        &no_merges(),
    )
    .ok()
    .unwrap();
    assert_eq!(merged.model_id.as_deref(), Some("custom/local/cli"));
}

#[test]
fn hosted_models_are_refused() {
    assert!(validate_model_id("custom/local/model").is_ok());
    assert!(validate_model_id("custom-router:local:team").is_ok());
    for hosted in ["auto", "gpt-4o", "custom/local", "custom-router:shared:x", "custom//m"] {
        assert!(validate_model_id(hosted).is_err());
    }
    let cli =
        AgentConfigSnapshot { model_id: Some("gpt-4o".to_owned()), ..empty_snapshot() };
    assert!(merge_named_agent_config(&bundle("a"), &overrides(None, cli), &no_merges()).is_err());
}

#[test]
fn names_are_checked() {
    assert!(validate_name("Helper").is_ok());
    assert_eq!(
        validate_name("  ").err().unwrap().message(),
        "named agent bundle is invalid: name must not be empty"
    );
    assert!(validate_name(&"x".repeat(257)).is_err());
    assert!(validate_name("a\u{7}b").is_err());
}

#[test]
fn bundles_hold_references_and_no_secrets() {
    let mut agent = bundle("a");
    assert!(agent.validate().is_ok());
    agent.secret_refs = Some(AgentBundleSecretRefs {
        env_vars: vec![("TOKEN".to_owned(), "MY_ENV".to_owned())],
        keychain_entries: vec!["entry".to_owned()],
    });
    assert!(agent.validate().is_ok());
    agent.secret_refs = Some(AgentBundleSecretRefs {
        env_vars: vec![("TOKEN".to_owned(), "not a name".to_owned())],
        keychain_entries: Vec::new(),
    });
    assert!(agent.validate().is_err());
    let mut agent = bundle("a");
    agent.base_prompt = Some("password=hunter2".to_owned());
    assert!(matches!(
        agent.validate(),
        Err(NamedAgentError::SecretValueRejected { field }) if field == "base_prompt"
    ));
    let literal = JsonTree::Object(vec![(
        "api_key".to_owned(),
        JsonTree::Text("literal".to_owned()),
    )]);
    assert!(reject_secret_values(&literal, "mcp").is_err());
    let reference = JsonTree::Object(vec![(
        "api_key".to_owned(),
        JsonTree::Text("${MY_ENV}".to_owned()),
    )]);
    assert!(reject_secret_values(&reference, "mcp").is_ok());
}

#[test]
fn secrets_are_told_from_references() {
    assert!(literal_secret_like("password: x"));
    assert!(!literal_secret_like("nothing to see"));
    assert!(is_env_var_name("MY_ENV1"));
    assert!(!is_env_var_name("1ENV"));
    assert_eq!(parse_env_ref("${MY_ENV}"), Some("MY_ENV".to_owned()));
    assert!(parse_env_ref("MY_ENV").is_none());
    assert!(is_strict_secret_reference("keychain:entry"));
    assert!(!is_strict_secret_reference("entry"));
    assert!(is_secret_key("X-API-Key"));
    assert!(!is_secret_key("url"));
}

#[test]
fn sandboxed_runs_are_refused() {
    let args = |sandboxed: bool| RunAgentArgs {
        sandboxed,
        model: None,
        profile: None,
        prompt: None,
        skill: None,
    };
    assert!(validate_named_run_args(&args(false)).is_ok());
    assert_eq!(
        validate_named_run_args(&args(true)).err().unwrap().message(),
        "named agent bundle is invalid: sandboxed execution is not available for local named agents"
    );
}

#[test]
fn kept_runs_name_the_skills_and_hold_no_prompt() {
    let mut agent = bundle("a");
    agent.skills = vec![skill("review"), skill("deploy")];
    let record = NamedAgentRecord::new(3, agent, "/a".to_owned(), "rev".to_owned());
    let config =
        merge_named_agent_config(record.bundle(), &overrides(None, empty_snapshot()), &no_merges())
            .ok()
            .unwrap();
    assert!(config.base_prompt.is_some());
    let kept = LocalNamedAgentRunMetadata::from_record(9, &record, &config);
    assert_eq!(kept.ordered_skills, ["review", "deploy"]);
    assert_eq!(kept.bundle_revision, "rev");
    assert!(kept.effective_config.base_prompt.is_none());
}

#[test]
fn lists_show_identity_and_name_only() {
    assert_eq!(
        format_named_agent_list(&vec![record(1, "Helper")]),
        "local named agent\t00000000-0000-0000-0000-000000000001\tHelper\n"
    );
    assert!(created_message(&record(1, "Helper")).contains("Helper"));
    assert!(shown_heading(&record(1, "Helper")).contains("00000000-0000-0000-0000-000000000001"));
}

#[test]
fn command_line_fields_build_bundles() {
    let mut args = fields();
    args.name = Some("New".to_owned());
    args.model_id = Some("custom/local/model".to_owned());
    args.secret_env = vec!["B=ENV_B".to_owned(), "A=ENV_A".to_owned()];
    let built = bundle_from_fields(&args, None).ok().unwrap();
    assert_eq!(built.name, "New");
    assert_eq!(
        built.secret_refs.unwrap().env_vars,
        [
            ("A".to_owned(), "ENV_A".to_owned()),
            ("B".to_owned(), "ENV_B".to_owned())
        ]
    );
    assert!(bundle_from_fields(&fields(), None).is_err());
    let kept = bundle_from_fields(&fields(), Some(&bundle("Old"))).ok().unwrap();
    assert_eq!(kept.name, "Old");
    assert_eq!(kept.base_prompt.as_deref(), Some("Be brief."));
    let mut args = fields();
    args.secret_env = vec!["no sign".to_owned()];
    assert!(bundle_from_fields(&args, Some(&bundle("Old"))).is_err());
}

#[test]
fn profiles_are_named_by_either_identity() {
    assert!(matches!(
        profile_sync_id::<u8, u8>("x", Some(1), Some(2)),
        Ok(ProfileSyncId::ClientId(1))
    ));
    assert!(matches!(
        profile_sync_id::<u8, u8>("x", None, Some(2)),
        Ok(ProfileSyncId::ServerId(2))
    ));
    assert!(profile_sync_id::<u8, u8>("x", None, None).is_err());
    assert_eq!(runtime_mcp_specs::<u8>(&bundle("a"), Ok(vec![4])).ok().unwrap().len(), 0);
}

#[test]
fn managed_files_are_named_by_identity() {
    let repository = LocalNamedAgentRepository::new("/agents");
    let path = repository.path_for_id(0xff);
    assert_eq!(path, "/agents/00000000-0000-0000-0000-0000000000ff.yaml");
    assert_eq!(id_from_path(&path), Some(0xff));
    assert_eq!(id_from_path("/agents/helper.yaml"), None);
    assert_eq!(id_from_path("/agents/00000000-0000-0000-0000-0000000000FF.yaml"), None);
    assert!(repository.run_path(1).starts_with(&repository.runs_directory()));
    assert!(repository.lock_path(1).starts_with("/agents/"));
    assert!(matches!(
        decide_file("/agents", FoundFile::File { path: path.clone() }),
        FileDecision::Read { id: 0xff, .. }
    ));
    assert!(matches!(
        decide_file("/agents", FoundFile::File { path: "/agents/notes.txt".to_owned() }),
        FileDecision::Skip
    ));
    assert!(matches!(
        decide_file("/agents", FoundFile::File { path: "/agents/helper.yaml".to_owned() }),
        FileDecision::Report(_)
    ));
    assert_eq!(
        temp_name_as("a.yaml", 1).contains("00000000-0000-0000-0000-000000000001"),
        true
    );
}

#[test]
fn selectors_are_identities_or_unique_names() {
    assert!(matches!(
        select("00000000-0000-0000-0000-000000000007"),
        AgentSelection::ById(7)
    ));
    assert!(matches!(select("Helper"), AgentSelection::ByName));
    let records = || vec![record(1, "Helper"), record(2, "Other"), record(3, "Twin"), record(4, "Twin")];
    assert_eq!(agents().resolve("Helper", records()).ok().unwrap().id(), 1);
    assert!(matches!(
        agents().resolve("Twin", records()),
        Err(NamedAgentError::AmbiguousName { .. })
    ));
    assert!(agents().resolve("Nobody", records()).is_err());
    assert_eq!(begin_delete("00000000-0000-0000-0000-000000000007").ok().unwrap(), 7);
    assert!(begin_delete("Helper").is_err());
    let (id, path) = agents().create(&bundle("a")).ok().unwrap();
    assert_eq!(id_from_path(&path), Some(id));
    assert!(agents().create(&bundle(" ")).is_err());
    assert!(check_confirmed(true).is_ok());
    assert!(check_confirmed(false).is_err());
}

#[test]
fn stale_updates_are_refused() {
    let contents = b"name: Helper\n".to_vec();
    let read = |contents: &Vec<u8>| {
        agents()
            .read(1, contents, FileReading::Document { document: bundle("Helper"), more: false })
            .ok()
            .unwrap()
    };
    let opened = read(&contents);
    assert_eq!(opened.revision().len(), 64);
    assert_eq!(opened.path(), "/agents/00000000-0000-0000-0000-000000000001.yaml");
    let changed = b"name: Other\n".to_vec();
    let update = |current: &Vec<u8>, latest: &Vec<u8>| {
        agents().update(1, opened.revision(), &bundle("New"), &read(current), &read(latest))
    };
    assert!(update(&contents, &contents).is_ok());
    assert!(matches!(
        update(&changed, &changed),
        Err(NamedAgentError::Conflict { .. })
    ));
    assert!(matches!(
        update(&contents, &changed),
        Err(NamedAgentError::Conflict { .. })
    ));
    let revision = Some(opened.revision());
    assert!(agents().delete(1, revision, &opened, Some(&contents)).is_ok());
    assert!(agents().delete(1, revision, &opened, Some(&changed)).is_err());
    assert!(agents().delete(1, revision, &read(&changed), Some(&contents)).is_err());
    assert!(agents().delete(1, None, &opened, Some(&changed)).is_ok());
    assert!(matches!(
        agents().delete(1, None, &opened, None),
        Err(NamedAgentError::NotFound { id: 1 })
    ));
}

#[test]
fn malformed_files_are_reported_without_their_contents() {
    assert!(matches!(
        parse_bundle("/a", FileReading::Document { document: bundle("a"), more: true }),
        Err(NamedAgentError::MultipleDocuments { .. })
    ));
    assert!(matches!(
        parse_bundle("/a", FileReading::Invalid("line 1".to_owned())),
        Err(NamedAgentError::Parse { .. })
    ));
    assert!(parse_bundle("/a", FileReading::Empty).is_err());
    assert!(parse_bundle("/a", FileReading::NotText).is_err());
    assert!(check_opened("/a", true, 10).is_ok());
    assert!(check_opened("/a", false, 10).is_err());
    assert!(check_opened("/a", true, MAX_BUNDLE_BYTES as i64 + 1).is_err());
    assert!(yaml_error_location("bad", Some((3, 4))).contains('3'));
    let error = report_file(
        "/home/me/agents/a.yaml".to_owned(),
        &NamedAgentError::Parse { path: "/x".to_owned(), location: "line 2".to_owned() },
    );
    assert_eq!(error.safe_label(), "a.yaml");
    assert_eq!(safe_file_label("/home/me/agents/a.yaml"), "a.yaml");
    let listed = agents().list_with_errors(vec![record(2, "b"), record(1, "A")], Vec::new());
    assert_eq!(listed.agents[0].bundle().name, "A");
    assert_eq!(agents().list(listed.agents, Vec::new()).ok().unwrap().len(), 2);
    assert!(agents().list(Vec::new(), vec![error]).is_err());
}

#[test]
fn runs_are_kept_under_their_identity() {
    let record = record(3, "Helper");
    let config =
        merge_named_agent_config(record.bundle(), &overrides(None, empty_snapshot()), &no_merges())
            .ok()
            .unwrap();
    let kept = |run_id| LocalNamedAgentRunMetadata::from_record(run_id, &record, &config);
    let path = agents().write_run_metadata(9, &b"run_id: 9".to_vec()).ok().unwrap();
    assert_eq!(path, "/agents/runs/00000000-0000-0000-0000-000000000009.yaml");
    assert!(agents().write_run_metadata(9, &vec![0; MAX_BUNDLE_BYTES + 1]).is_err());
    let read = |named| {
        agents().read_run_metadata(9, FileReading::Document { document: kept(named), more: false })
    };
    assert_eq!(read(9).ok().unwrap().run_id, 9);
    assert_eq!(
        read(8).err().unwrap().message(),
        "could not parse named agent file at run_id does not match its managed filename"
    );
}

#[test]
fn shown_bundles_hide_the_prompt_and_the_credentials() {
    let record = NamedAgentRecord::from_parts(1, bundle("a"));
    assert_eq!(record.path(), "");
    let shown = record.bundle().redacted();
    assert!(shown.base_prompt.is_none());
    assert!(shown.secret_refs.is_none());
    assert_eq!(shown.name, "a");
    assert_eq!(shown.model_id, record.bundle().model_id);
}
