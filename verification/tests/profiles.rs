use local_ai::execution_profiles::{
    AIExecutionProfile, AIExecutionProfilesModel, AIExecutionProfilesModelEvent, ActionPermission,
    AskUserQuestionPermission, ClientProfileId, ComputerUsePermission, LaunchMode, ProfileEdit,
    ProfileIdSource, SyncId, WriteToPtyPermission, LOCAL_PROFILES_PREF_KEY,
};
use local_ai::ids::EntityId;
use local_ai::llms::LLMId;

fn ids() -> ProfileIdSource {
    ProfileIdSource { next: 0 }
}

fn fresh() -> AIExecutionProfilesModel {
    AIExecutionProfilesModel::with_default(AIExecutionProfile::default(), &mut ids())
}

#[test]
fn edits_persist_on_local_default_profile() {
    let mut model = fresh();
    let default_profile_id = model.default_profile_id();

    assert!(
        model.default_profile().sync_id().is_none(),
        "fresh default profile should not have a persisted local id"
    );
    assert!(matches!(
        model.default_profile().data().apply_code_diffs,
        ActionPermission::AgentDecides
    ));

    model.set_apply_code_diffs(default_profile_id, &ActionPermission::AlwaysAllow);

    assert!(
        model.default_profile().sync_id().is_some(),
        "editing the default profile should assign a stable local id"
    );
    assert_eq!(
        model.default_profile().data().apply_code_diffs,
        ActionPermission::AlwaysAllow
    );

    assert_eq!(LOCAL_PROFILES_PREF_KEY, "LocalAIExecutionProfiles");
    let persisted = model.persisted().expect("local profiles should be persisted");
    assert_eq!(
        persisted.default_profile.profile.apply_code_diffs,
        ActionPermission::AlwaysAllow
    );
}

#[test]
fn saved_profiles_load_again() {
    let mut model = fresh();
    let id = model.default_profile_id();
    model.set_base_model(id, Some(LLMId::new("custom/local/model")));
    let persisted = model.persisted().unwrap();
    let loaded = AIExecutionProfilesModel::load_local_profiles(persisted, &mut ids());
    assert_eq!(
        loaded.default_profile().data().base_model.as_ref().unwrap().as_str(),
        "custom/local/model"
    );
}

#[test]
fn repeated_edits_change_nothing() {
    let mut model = fresh();
    let id = model.default_profile_id();
    assert!(model.set_profile_name(id, "Mine").is_some());
    assert!(model.set_profile_name(id, "Mine").is_none());
    assert!(model.add_to_command_allowlist(id, "ls").is_some());
    assert!(model.add_to_command_allowlist(id, "ls").is_none());
    assert!(model.remove_from_command_allowlist(id, "ls").is_some());
    assert!(model.remove_from_command_allowlist(id, "ls").is_none());
}

#[test]
fn deleted_profile_gives_way_to_the_default() {
    let mut ids = ids();
    let mut model =
        AIExecutionProfilesModel::with_default(AIExecutionProfile::default(), &mut ids);
    assert!(!model.has_multiple_profiles());
    let (id, event) = model.create_profile(&mut ids);
    assert!(matches!(event, AIExecutionProfilesModelEvent::ProfileCreated));
    assert!(model.has_multiple_profiles());
    assert!(model.get_profile_by_id(id).is_some());
    let terminal = EntityId(4);
    model.set_active_profile(terminal, id);
    assert_eq!(*model.active_profile(Some(terminal)).id(), id);
    assert!(matches!(
        model.delete_profile(id),
        Some(AIExecutionProfilesModelEvent::ProfileDeleted)
    ));
    assert!(model.get_profile_by_id(id).is_none());
    assert_eq!(*model.active_profile(Some(terminal)).id(), model.default_profile_id());
    assert!(model.delete_profile(model.default_profile_id()).is_none());
}

#[test]
fn deleted_servers_leave_the_lists() {
    let mut model = fresh();
    let id = model.default_profile_id();
    model.add_to_mcp_allowlist(id, &1);
    model.add_to_mcp_denylist(id, &2);
    model.remove_deleted_mcp_servers(&vec![1]);
    let profile = model.default_profile();
    assert_eq!(profile.data().mcp_allowlist, [1]);
    assert!(profile.data().mcp_denylist.is_empty());
}

#[test]
fn start_depends_on_the_launch_and_on_what_was_saved() {
    let mut ids = ids();
    let mut edited =
        AIExecutionProfilesModel::with_default(AIExecutionProfile::default(), &mut ids);
    let id = edited.default_profile_id();
    edited.set_web_search_enabled(id, false);
    edited.create_profile(&mut ids);
    let app = AIExecutionProfilesModel::new(
        LaunchMode::App,
        edited.persisted(),
        AIExecutionProfile::default(),
        None,
        &mut ids,
    );
    assert!(app.has_multiple_profiles());
    assert!(!app.default_profile().data().web_search_enabled);
    let command_line = AIExecutionProfilesModel::new(
        LaunchMode::CommandLine,
        edited.persisted(),
        AIExecutionProfile::default(),
        None,
        &mut ids,
    );
    assert!(!command_line.has_multiple_profiles());
    assert!(command_line.persisted().is_none());
    let inherited = AIExecutionProfilesModel::new(
        LaunchMode::App,
        None,
        AIExecutionProfile::default(),
        Some(LLMId::new("custom/local/model")),
        &mut ids,
    );
    assert_eq!(
        inherited.default_profile().data().base_model.as_ref().unwrap().as_str(),
        "custom/local/model"
    );
}

#[test]
fn every_setting_of_a_profile_can_be_edited() {
    let mut model = fresh();
    let id = model.default_profile_id();
    let name = |text: &str| Some(LLMId::new(text));
    assert!(model.set_coding_model(id, name("coding")).is_some());
    assert!(model.set_cli_agent_model(id, name("cli")).is_some());
    assert!(model.set_computer_use_model(id, name("computer")).is_some());
    assert!(model.set_context_window_limit(id, Some(8_000)).is_some());
    assert!(model.set_read_files(id, &ActionPermission::AlwaysAsk).is_some());
    assert!(model.set_execute_commands(id, &ActionPermission::AlwaysAllow).is_some());
    assert!(model.set_write_to_pty(id, &WriteToPtyPermission::AlwaysAllow).is_some());
    assert!(model.set_mcp_permissions(id, &ActionPermission::AlwaysAllow).is_some());
    assert!(model.set_computer_use(id, &ComputerUsePermission::AlwaysAllow).is_some());
    assert!(model.set_ask_user_question(id, AskUserQuestionPermission::Never).is_some());
    assert!(model.add_to_directory_allowlist(id, "/repo").is_some());
    assert!(model.add_to_command_denylist(id, "rm .*").is_some());
    assert!(model.add_to_mcp_denylist(id, &5).is_some());
    assert!(model.remove_from_mcp_denylist(id, &5).is_some());
    assert!(model.add_to_mcp_allowlist(id, &6).is_some());
    assert!(model.remove_from_mcp_allowlist(id, &6).is_some());
    let info = model.default_profile();
    let data = info.data();
    assert_eq!(data.coding_model.as_ref().unwrap().as_str(), "coding");
    assert_eq!(data.cli_agent_model.as_ref().unwrap().as_str(), "cli");
    assert_eq!(data.computer_use_model.as_ref().unwrap().as_str(), "computer");
    assert_eq!(data.context_window_limit, Some(8_000));
    assert_eq!(data.read_files, ActionPermission::AlwaysAsk);
    assert_eq!(data.execute_commands, ActionPermission::AlwaysAllow);
    assert_eq!(data.write_to_pty, WriteToPtyPermission::AlwaysAllow);
    assert_eq!(data.mcp_permissions, ActionPermission::AlwaysAllow);
    assert_eq!(data.computer_use, ComputerUsePermission::AlwaysAllow);
    assert_eq!(data.ask_user_question, AskUserQuestionPermission::Never);
    assert!(data.directory_allowlist.contains(&"/repo".to_owned()));
    assert!(data.command_denylist.contains(&"rm .*".to_owned()));
    assert!(data.mcp_allowlist.is_empty() && data.mcp_denylist.is_empty());
    assert!(model.remove_from_directory_allowlist(id, "/repo").is_some());
    assert!(model.remove_from_command_denylist(id, "rm .*").is_some());
    let sync_id = model.default_profile().sync_id().unwrap();
    assert_eq!(model.get_profile_id_by_sync_id(&sync_id), Some(id));
    model.reset(&mut ProfileIdSource { next: 1 });
    assert!(model.default_profile().data().coding_model.is_none());
}

fn is_random(id: SyncId) -> bool {
    id.0 & 0xf000_c000_0000_0000_0000 == 0x4000_8000_0000_0000_0000
}

#[test]
fn created_profiles_are_saved_with_the_default() {
    let mut ids = ids();
    let mut model =
        AIExecutionProfilesModel::with_default(AIExecutionProfile::default(), &mut ids);
    assert!(model.persisted().is_none());
    let (id, _) = model.create_profile(&mut ids);
    let default_identity = model.default_profile().sync_id().expect("the default is saved too");
    let identity = model.get_profile_by_id(id).unwrap().sync_id().unwrap();
    assert!(is_random(default_identity) && is_random(identity));
    assert_ne!(default_identity, identity);
    let saved = model.persisted().expect("a created profile is saved");
    assert_eq!(saved.default_profile.id, default_identity);
    assert_eq!(saved.profiles.len(), 1);
    assert_eq!(saved.profiles[0].id, identity);
}

#[test]
fn edits_of_any_profile_are_saved() {
    let mut ids = ids();
    let mut model =
        AIExecutionProfilesModel::with_default(AIExecutionProfile::default(), &mut ids);
    let (id, _) = model.create_profile_as(&mut ids, SyncId(7), SyncId(8));
    assert_eq!(model.default_profile().sync_id(), Some(SyncId(8)));
    let event = model.edit_profile_as(id, &ProfileEdit::Name("Mine".to_owned()), SyncId(9));
    assert_eq!(event, Some(AIExecutionProfilesModelEvent::ProfileUpdated(id)));
    assert_eq!(model.default_profile().sync_id(), Some(SyncId(8)), "an identity is kept");
    let saved = model.persisted().expect("the edit is saved");
    assert_eq!(saved.profiles[0].id, SyncId(7));
    assert_eq!(saved.profiles[0].profile.name, "Mine");
}

#[test]
fn models_of_one_source_share_no_identity() {
    let mut ids = ids();
    let mut first =
        AIExecutionProfilesModel::with_default(AIExecutionProfile::default(), &mut ids);
    let mut second =
        AIExecutionProfilesModel::with_default(AIExecutionProfile::default(), &mut ids);
    let mut drawn = vec![
        first.default_profile_id(),
        second.default_profile_id(),
        first.create_profile(&mut ids).0,
        second.create_profile(&mut ids).0,
        ClientProfileId::new(&mut ids),
    ];
    first.reset(&mut ids);
    drawn.push(first.default_profile_id());
    for (i, id) in drawn.iter().enumerate() {
        assert!(!drawn[..i].contains(id));
    }
}

#[test]
fn profiles_of_a_command_line_run_are_not_saved() {
    let mut ids = ids();
    let mut model =
        AIExecutionProfilesModel::for_command_line(AIExecutionProfile::default(), &mut ids);
    let default_id = model.default_profile_id();
    assert!(model.set_profile_name(default_id, "Mine").is_none());
    let (id, _) = model.create_profile(&mut ids);
    assert!(model.set_profile_name(id, "Mine").is_some());
    assert!(model.default_profile().sync_id().is_none());
    assert!(model.persisted().is_none());
}
