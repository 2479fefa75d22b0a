use local_ai::fact_manager::{AIFactManager, AIFactManagerEvent, PaneViewLocator};
use local_ai::fact_pages::{
    AIFactPage, AIFactView, AIFactViewAction, AIFactViewEvent, FocusedPart, MemoryChange,
};
use local_ai::local_memory::{LocalMemoryRecord, LocalMemoryRepository, LocalMemoryScope};
use local_ai::memory_views::{
    row_content, DeleteControl, MemoryEditorTarget, MemoryEditorView, MemoryEditorViewAction,
    MemoryEditorViewEvent, MemoryView, MemoryViewAction, MemoryViewEvent, MemoryViewOutcome,
};
use local_ai::rule_views::{
    project_picked, row_is_editable, AddButton, LocalRule, ProjectRuleFile, ProjectTargets,
    ReadOutcome, RuleEditorTarget, RuleEditorView, RuleEditorViewAction, RuleEditorViewEvent,
    RuleFacts, RuleReading, RuleRequest, RuleScope, RuleTarget, RuleView, RuleViewAction,
    RuleViewEvent, RuleViewOutcome,
};

fn manager() -> AIFactManager<u8> {
    AIFactManager::new(LocalMemoryRepository::in_memory())
}

fn rule(path: &str, content: &str, writable: bool) -> LocalRule {
    LocalRule {
        path: path.to_owned(),
        content: content.to_owned(),
        revision: "r1".to_owned(),
        writable,
    }
}

fn reading(path: &str, is_global: bool, outcome: ReadOutcome) -> RuleReading {
    RuleReading { path: path.to_owned(), is_global, outcome }
}

fn facts(missing: bool, reading: Result<LocalRule, String>) -> RuleFacts {
    RuleFacts { global_target_missing: missing, project_target_missing: missing, reading }
}

fn memory(id: u128, scope: LocalMemoryScope, title: &str, updated_at: i64) -> LocalMemoryRecord {
    LocalMemoryRecord {
        id,
        scope,
        title: title.to_owned(),
        content: "Some CONTENT".to_owned(),
        revision: 1,
        created_at: 0,
        updated_at,
    }
}

#[test]
fn hidden_panes_keep_their_views() {
    let mut manager = manager();
    manager.register_pane(5, 6, 1);
    assert!(manager.find_pane(1).is_none());
    manager.register_view(1, 42);
    assert!(manager.has_view(1));
    manager.register_pane(5, 6, 1);
    assert_eq!(manager.find_pane(1), Some(PaneViewLocator { pane_group_id: 6, pane_id: 5 }));
    manager.register_view(1, 43);
    assert!(manager.find_pane(1).is_some());
    manager.deregister_pane(1);
    assert!(manager.find_pane(1).is_none());
    assert_eq!(*manager.ai_fact_view(1), 43);
    assert!(!manager.has_view(2));
}

#[test]
fn memories_change_with_an_event_each() {
    let mut manager = manager();
    let (created, event) = manager
        .create_memory(LocalMemoryScope::Global, None, "Editor", "Use Helix", 1)
        .ok()
        .unwrap();
    assert_eq!(event, AIFactManagerEvent::MemoriesChanged);
    assert!(manager
        .update_memory(
            created.id,
            created.revision,
            LocalMemoryScope::Global,
            None,
            "Editor",
            "Use Neovim",
            2
        )
        .is_ok());
    assert!(manager.delete_memory(created.id, created.revision, 3).is_err());
    assert_eq!(manager.list_memories().ok().unwrap().len(), 1);
    assert_eq!(manager.search_memories("neovim", &None).ok().unwrap().len(), 1);
    assert!(manager.delete_memory(created.id, 2, 4).is_ok());
    assert!(manager.list_memories().ok().unwrap().is_empty());
    assert!(manager.memory_startup_error().is_none());
}

#[test]
fn memory_editor_asks_before_it_gives_changes_up() {
    let mut editor = MemoryEditorView::new();
    assert_eq!(editor.header(), "Local memory");
    assert_eq!(editor.scope_label(), "No scope selected");
    assert!(editor.save_disabled());
    editor.set_target(MemoryEditorTarget::New(LocalMemoryScope::Global));
    assert_eq!(editor.header(), "Add local memory");
    assert_eq!(editor.scope_label(), "Global");
    assert_eq!(editor.delete_control(), DeleteControl::Hidden);
    assert!(matches!(
        editor.handle_action(MemoryEditorViewAction::Back),
        Some(MemoryEditorViewEvent::Back)
    ));
    editor.edit_title("Title".to_owned());
    assert!(editor.is_dirty());
    assert!(editor.save_disabled());
    assert!(editor.handle_action(MemoryEditorViewAction::Back).is_none());
    assert!(editor.confirm_discard);
    assert!(matches!(
        editor.handle_action(MemoryEditorViewAction::ConfirmDiscard),
        Some(MemoryEditorViewEvent::Back)
    ));
    assert!(editor.handle_action(MemoryEditorViewAction::Save).is_none());
    editor.edit_content("Content".to_owned());
    assert!(!editor.save_disabled());
    let Some(MemoryEditorViewEvent::Save { title, content, .. }) =
        editor.handle_action(MemoryEditorViewAction::Save)
    else {
        panic!("both fields are filled");
    };
    assert_eq!((title.as_str(), content.as_str()), ("Title", "Content"));
    assert!(editor.handle_action(MemoryEditorViewAction::ConfirmDelete).is_none());
}

#[test]
fn memory_editor_confirms_deletion() {
    let mut editor = MemoryEditorView::new();
    editor.set_target(MemoryEditorTarget::Existing(memory(7, LocalMemoryScope::Global, "T", 1)));
    assert_eq!(editor.delete_control(), DeleteControl::Offer);
    assert!(editor.handle_action(MemoryEditorViewAction::Delete).is_none());
    assert_eq!(editor.delete_control(), DeleteControl::Confirm);
    let Some(MemoryEditorViewEvent::Delete { memory }) =
        editor.handle_action(MemoryEditorViewAction::ConfirmDelete)
    else {
        panic!("the memory is there");
    };
    assert_eq!(memory.id, 7);
}

#[test]
fn memory_list_is_filtered_by_tab_and_search() {
    let scope = || LocalMemoryScope::Project { root: "/Work".to_owned() };
    let mut view = MemoryView::new(
        Ok(vec![
            memory(1, LocalMemoryScope::Global, "Beta", 5),
            memory(2, LocalMemoryScope::Global, "Alpha", 5),
            memory(3, LocalMemoryScope::Global, "Gamma", 9),
            memory(4, scope(), "Delta", 1),
        ]),
        None,
        vec!["/Work".to_owned()],
    );
    let ids = |view: &MemoryView, search: &str| {
        view.filtered_memories(search).iter().map(|memory| memory.id).collect::<Vec<_>>()
    };
    assert_eq!(ids(&view, ""), [3, 2, 1]);
    assert_eq!(ids(&view, "  ALPH "), [2]);
    assert_eq!(ids(&view, "content"), [3, 2, 1]);
    assert_eq!(view.add_labels(), ["Add"]);
    assert!(matches!(
        view.handle_action(MemoryViewAction::SelectProject),
        MemoryViewOutcome::Redraw
    ));
    assert_eq!(ids(&view, "project: /work"), [4]);
    assert_eq!(view.add_labels(), ["Add memory (/Work)"]);
    assert_eq!(
        view.zero_state_text(),
        "Open an indexed project, then add memory scoped to that project."
    );
    assert!(matches!(
        view.handle_action(MemoryViewAction::Edit(4)),
        MemoryViewOutcome::Emit(MemoryViewEvent::Edit(found)) if found.id == 4
    ));
    assert!(matches!(
        view.handle_action(MemoryViewAction::Edit(99)),
        MemoryViewOutcome::ShowError(message)
            if message == "Local memory changed; reopen it and try again"
    ));
    assert!(matches!(
        view.handle_action(MemoryViewAction::AddGlobal),
        MemoryViewOutcome::Emit(MemoryViewEvent::Add(LocalMemoryScope::Global))
    ));
    let mut long = memory(5, LocalMemoryScope::Global, "Long", 1);
    long.content = "x".repeat(300);
    assert_eq!(row_content(&long).chars().count(), 240);
    assert!(row_content(&long).ends_with('…'));
}

#[test]
fn pages_follow_what_is_asked_for() {
    let mut pane = AIFactView::new();
    assert_eq!(pane.current_page().name(), "Rules");
    assert_eq!(pane.focus(), FocusedPart::RuleList);
    pane.handle_action(AIFactViewAction::AddRule);
    assert_eq!(pane.current_page().name(), "Rule Editor");
    assert!(!pane.current_page().shows_tabs());
    assert_eq!(pane.focus(), FocusedPart::RuleEditor);
    pane.handle_action(AIFactViewAction::UpdatePage(AIFactPage::Memory));
    assert_eq!(pane.focus(), FocusedPart::MemoryList);
    pane.handle_memory_view_event(MemoryViewEvent::Add(LocalMemoryScope::Global));
    assert_eq!(pane.current_page().name(), "Memory Editor");
    assert!(matches!(
        pane.handle_rule_view_event(RuleViewEvent::OpenFile("/a/WARP.md".to_owned())),
        Some(AIFactViewEvent::OpenFile(path)) if path == "/a/WARP.md"
    ));
    assert!(matches!(pane.close(), AIFactViewEvent::Pane(_)));
}

#[test]
fn only_a_saved_memory_leads_back_to_the_list() {
    let mut manager = manager();
    let mut pane = AIFactView::new();
    pane.handle_memory_view_event(MemoryViewEvent::Add(LocalMemoryScope::Global));
    pane.memory_editor.edit_title("Editor".to_owned());
    pane.memory_editor.edit_content("Use Helix".to_owned());
    let event = pane.memory_editor.handle_action(MemoryEditorViewAction::Save).unwrap();
    assert!(matches!(
        pane.handle_memory_editor_view_event(event, &mut manager, None, 1),
        MemoryChange::Changed(AIFactManagerEvent::MemoriesChanged)
    ));
    assert_eq!(pane.current_page().name(), "Memory");
    let saved = manager.list_memories().ok().unwrap().remove(0);
    assert_eq!(saved.content, "Use Helix");

    pane.handle_memory_view_event(MemoryViewEvent::Edit(saved.clone()));
    assert!(manager
        .update_memory(saved.id, 1, LocalMemoryScope::Global, None, "Editor", "Elsewhere", 2)
        .is_ok());
    pane.memory_editor.edit_content("Stale".to_owned());
    let event = pane.memory_editor.handle_action(MemoryEditorViewAction::Save).unwrap();
    let MemoryChange::Refused(message) =
        pane.handle_memory_editor_view_event(event, &mut manager, None, 3)
    else {
        panic!("the memory changed since it was opened");
    };
    assert!(message.contains("changed since it was opened"));
    assert_eq!(pane.current_page().name(), "Memory Editor");
    assert_eq!(pane.memory_editor.content, "Stale");
    assert_eq!(manager.list_memories().ok().unwrap()[0].content, "Elsewhere");
    assert!(matches!(
        pane.handle_memory_editor_view_event(
            MemoryEditorViewEvent::Back,
            &mut manager,
            None,
            4
        ),
        MemoryChange::Left
    ));
    assert_eq!(pane.current_page().name(), "Memory");
}

#[test]
fn rule_targets_name_their_files() {
    assert_eq!(
        RuleTarget::Global.display_path(&Some("/home/me".to_owned())),
        "/home/me/.agents/AGENTS.md"
    );
    assert_eq!(RuleTarget::Global.display_path(&None), "~/.agents/AGENTS.md");
    let target =
        RuleTarget::Project { root: "/work".to_owned(), file: ProjectRuleFile::Warp };
    assert_eq!(target.display_path(&None), "/work/WARP.md");
    assert_eq!(ProjectRuleFile::Agents.file_name(), "AGENTS.md");
}

#[test]
fn rule_list_shows_every_file_that_is_there() {
    let mut view = RuleView::new(
        vec![
            reading("/home/a", true, ReadOutcome::Read(rule("/home/a", "Be BRIEF", true))),
            reading("/home/gone", true, ReadOutcome::Missing),
            reading("/p/b/WARP.md", false, ReadOutcome::Failed("not UTF-8".to_owned())),
            reading("/p/a-b/WARP.md", false, ReadOutcome::Read(rule("/p/a-b/WARP.md", "", false))),
            reading("/p/a/WARP.md", false, ReadOutcome::Read(rule("/p/a/WARP.md", "x", true))),
        ],
        vec!["/p/a".to_owned()],
    );
    let paths = |view: &RuleView, search: &str| {
        view.visible_rows(search).into_iter().map(|row| row.path).collect::<Vec<_>>()
    };
    assert_eq!(paths(&view, ""), ["/home/a"]);
    assert_eq!(paths(&view, "brief"), ["/home/a"]);
    assert!(paths(&view, "verbose").is_empty());
    assert!(row_is_editable(&view.filtered_rules()[0]));
    assert!(matches!(
        view.handle_action(
            RuleViewAction::SelectScope(RuleScope::ProjectBased),
            facts(false, Err(String::new()))
        ),
        RuleViewOutcome::Redraw
    ));
    assert_eq!(paths(&view, ""), ["/p/a/WARP.md", "/p/a-b/WARP.md", "/p/b/WARP.md"]);
    assert_eq!(paths(&view, "utf-8"), ["/p/b/WARP.md"]);
    let buttons = view.add_buttons(
        true,
        &vec![ProjectTargets {
            root: "/p/a".to_owned(),
            warp_missing: false,
            agents_missing: true,
        }],
    );
    assert_eq!(buttons.len(), 1);
    assert!(matches!(
        &buttons[0],
        AddButton::Project { file: ProjectRuleFile::Agents, label, .. }
            if label == "Add AGENTS.md (/p/a)"
    ));
    assert!(matches!(view.add_buttons(true, &Vec::new())[0], AddButton::OpenProject));
}

#[test]
fn rule_actions_depend_on_the_files() {
    let mut view = RuleView::new(Vec::new(), Vec::new());
    let mut act = |action: RuleViewAction, facts: RuleFacts| view.handle_action(action, facts);
    assert!(matches!(
        act(RuleViewAction::AddRule, facts(true, Err(String::new()))),
        RuleViewOutcome::Emit(RuleViewEvent::AddRule(RuleTarget::Global))
    ));
    assert!(matches!(
        act(RuleViewAction::AddRule, facts(false, Err(String::new()))),
        RuleViewOutcome::Nothing
    ));
    assert!(matches!(
        act(RuleViewAction::Edit("/a".to_owned()), facts(false, Err("unreadable".to_owned()))),
        RuleViewOutcome::ShowError(message) if message == "unreadable"
    ));
    assert!(matches!(
        act(RuleViewAction::Edit("/a".to_owned()), facts(false, Ok(rule("/a", "x", true)))),
        RuleViewOutcome::Emit(RuleViewEvent::Edit(found)) if found.path == "/a"
    ));
    assert!(matches!(
        act(RuleViewAction::InitializeProject, facts(false, Err(String::new()))),
        RuleViewOutcome::PickProject
    ));
    assert!(matches!(
        project_picked(Ok(vec!["/new".to_owned(), "/other".to_owned()])),
        RuleViewOutcome::Emit(RuleViewEvent::InitializeProject(path)) if path == "/new"
    ));
    assert!(matches!(project_picked(Ok(Vec::new())), RuleViewOutcome::Nothing));
}

#[test]
fn rule_edits_name_what_was_opened() {
    let mut editor = RuleEditorView::new();
    assert_eq!(editor.path_label(&None), "No rule selected");
    editor.set_target(RuleEditorTarget::Existing(rule("/p/WARP.md", "original", true)));
    assert!(editor.save_disabled());
    assert_eq!(editor.delete_control(), DeleteControl::Offer);
    editor.edit_content("draft".to_owned());
    assert!(editor.handle_action(RuleEditorViewAction::Back).is_none());
    let event = editor.handle_action(RuleEditorViewAction::Save).unwrap();

    let mut pane = AIFactView::new();
    pane.handle_rule_view_event(RuleViewEvent::Edit(rule("/p/WARP.md", "original", true)));
    let request = pane.handle_rule_editor_view_event(event).unwrap();
    assert!(matches!(
        &request,
        RuleRequest::Update { path, revision, content }
            if path == "/p/WARP.md" && revision == "r1" && content == "draft"
    ));
    assert_eq!(
        pane.finish_rule_request(Err("the file changed".to_owned())),
        Some("the file changed".to_owned())
    );
    assert_eq!(pane.current_page().name(), "Rule Editor");
    assert!(pane.finish_rule_request(Ok(())).is_none());
    assert_eq!(pane.current_page().name(), "Rules");
    assert!(matches!(
        pane.handle_rule_editor_view_event(RuleEditorViewEvent::Delete {
            rule: rule("/p/WARP.md", "x", true)
        }),
        Some(RuleRequest::Delete { .. })
    ));
}

#[test]
fn read_only_rules_cannot_be_deleted() {
    let mut editor = RuleEditorView::new();
    editor.set_target(RuleEditorTarget::Existing(rule("/p/WARP.md", "x", false)));
    assert_eq!(editor.delete_control(), DeleteControl::Hidden);
}
