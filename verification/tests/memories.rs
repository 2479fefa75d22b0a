use local_ai::local_memory::{
    memory_from_row, operation_to_str, scope_from_parts, scope_parts, truncate_context_content,
    version_from_row, LocalMemoryError, LocalMemoryOperation, LocalMemoryRecord,
    LocalMemoryRepository, LocalMemoryScope, MemoryStore, StoredMemoryRow, StoredVersionRow,
    MAX_CONTENT_CHARS, MAX_CONTEXT_MEMORIES, MAX_TITLE_CHARS,
};

fn create(
    repository: &mut LocalMemoryRepository,
    scope: LocalMemoryScope,
    title: &str,
    content: &str,
    now: i64,
) -> Result<LocalMemoryRecord, LocalMemoryError> {
    let resolved = match &scope {
        LocalMemoryScope::Global => None,
        LocalMemoryScope::Project { root } => Some(root.clone()),
    };
    repository.create(scope, resolved, title, content, now)
}

fn project(root: &str) -> LocalMemoryScope {
    LocalMemoryScope::Project { root: root.to_owned() }
}

#[test]
fn crud_is_compare_and_swap_versioned_and_survives_restart() {
    let mut store = MemoryStore::new();
    let created = store
        .create(LocalMemoryScope::Global, None, "Editor", "Use Helix", 10)
        .ok()
        .unwrap();
    let updated = store
        .update(
            created.id,
            created.revision,
            LocalMemoryScope::Global,
            None,
            "Editor",
            "Use Neovim",
            20,
        )
        .ok()
        .unwrap();
    assert!(matches!(
        store.update(
            created.id,
            created.revision,
            LocalMemoryScope::Global,
            None,
            "Editor",
            "stale",
            30,
        ),
        Err(LocalMemoryError::Conflict { .. })
    ));
    let memories = store.list();
    let versions = store.history(created.id);
    drop(store);

    let mut restarted = MemoryStore::restore(memories, versions).unwrap();
    assert_eq!(restarted.get(created.id).unwrap().content, "Use Neovim");
    assert!(restarted.delete(updated.id, updated.revision, 40).is_ok());
    assert!(restarted.get(created.id).is_none());
    let history = restarted.history(created.id);
    assert_eq!(history.len(), 3);
    assert_eq!(history[0].operation, LocalMemoryOperation::Created);
    assert_eq!(history[1].operation, LocalMemoryOperation::Updated);
    assert_eq!(history[2].operation, LocalMemoryOperation::Deleted);
    assert_eq!(history[2].revision, 3);
}

#[test]
fn keyword_retrieval_is_ranked_bounded_and_scope_aware() {
    let mut repository = LocalMemoryRepository::in_memory();
    create(
        &mut repository,
        LocalMemoryScope::Global,
        "Rust formatter",
        "Use cargo fmt for Rust files",
        1,
    )
    .ok()
    .unwrap();
    create(
        &mut repository,
        project("/work/project"),
        "Project formatter",
        "This repository uses dprint",
        2,
    )
    .ok()
    .unwrap();
    create(
        &mut repository,
        project("/work/other"),
        "Other formatter",
        "This repository uses prettier",
        3,
    )
    .ok()
    .unwrap();

    let results = repository
        .search("formatter for this Rust project", &Some("/work/project/src".to_owned()))
        .ok()
        .unwrap();
    assert_eq!(results.len(), 2);
    assert_eq!(results[0].title, "Rust formatter");
    assert!(results.iter().any(|memory| memory.title == "Project formatter"));
    assert!(!results.iter().any(|memory| memory.title == "Other formatter"));
    assert!(repository
        .search("unrelated", &Some("/work/project".to_owned()))
        .ok()
        .unwrap()
        .is_empty());
}

#[test]
fn validation_rejects_empty_or_oversized_memory() {
    let mut repository = LocalMemoryRepository::in_memory();
    assert!(matches!(
        create(&mut repository, LocalMemoryScope::Global, "", "content", 1),
        Err(LocalMemoryError::EmptyTitle)
    ));
    assert!(matches!(
        create(&mut repository, LocalMemoryScope::Global, "title", "", 1),
        Err(LocalMemoryError::EmptyContent)
    ));
    assert!(matches!(
        create(
            &mut repository,
            LocalMemoryScope::Global,
            "title",
            &"x".repeat(MAX_CONTENT_CHARS + 1),
            1
        ),
        Err(LocalMemoryError::ContentTooLong)
    ));
    assert!(matches!(
        create(
            &mut repository,
            LocalMemoryScope::Global,
            &"x".repeat(MAX_TITLE_CHARS + 1),
            "content",
            1
        ),
        Err(LocalMemoryError::TitleTooLong)
    ));
    assert!(repository.list().ok().unwrap().is_empty());
}

#[test]
fn search_returns_at_most_the_context_limit_newest_first() {
    let mut repository = LocalMemoryRepository::in_memory();
    for index in 0..12 {
        create(&mut repository, LocalMemoryScope::Global, "note", "same words", index)
            .ok()
            .unwrap();
    }
    let found = repository.search("note", &None).ok().unwrap();
    assert_eq!(found.len(), MAX_CONTEXT_MEMORIES);
    assert_eq!(found[0].updated_at, 11);
    assert_eq!(found[7].updated_at, 4);
}

#[test]
fn unresolved_projects_are_refused() {
    let mut repository = LocalMemoryRepository::in_memory();
    let refused = repository.create(project("/gone"), None, "title", "content", 1);
    assert_eq!(
        refused.err().unwrap().message(),
        "project memory root does not exist or cannot be resolved: /gone"
    );
}

#[test]
fn missing_storage_is_reported_after_the_checks() {
    let mut repository = LocalMemoryRepository::unavailable("disk is gone".to_owned());
    assert_eq!(repository.startup_error(), Some("disk is gone".to_owned()));
    assert!(matches!(
        create(&mut repository, LocalMemoryScope::Global, "", "content", 1),
        Err(LocalMemoryError::EmptyTitle)
    ));
    assert_eq!(
        create(&mut repository, LocalMemoryScope::Global, "title", "content", 1)
            .err()
            .unwrap()
            .message(),
        "local memory storage error: disk is gone"
    );
    assert!(repository.list().is_err());
    assert!(repository.search("  ", &None).ok().unwrap().is_empty());
    assert!(repository.search("word", &None).is_err());
}

#[test]
fn conflicts_name_both_revisions() {
    let mut store = MemoryStore::new();
    let created =
        store.create_as(LocalMemoryScope::Global, None, "t", "c", 5, 1).ok().unwrap();
    assert_eq!(
        store.delete(created.id, 4, 2).err().unwrap().message(),
        "local memory 00000000-0000-0000-0000-000000000005 changed since it was opened (expected revision 4, current revision 1)"
    );
    assert_eq!(
        store.delete(6, 1, 2).err().unwrap().message(),
        "local memory 00000000-0000-0000-0000-000000000006 was not found"
    );
}

#[test]
fn scopes_and_rows_read_back() {
    let (kind, key) = scope_parts(&project("/work"));
    assert_eq!((kind, key.as_str()), ("project", "/work"));
    assert!(matches!(
        scope_from_parts(kind, &key),
        Ok(LocalMemoryScope::Project { root }) if root == "/work"
    ));
    assert!(matches!(scope_from_parts("other", ""), Err(LocalMemoryError::Corrupt(_))));
    assert_eq!(project("/work").display_name(), "Project: /work");
    let row = |id: &str| StoredMemoryRow {
        id: id.to_owned(),
        scope_kind: "global".to_owned(),
        scope_key: String::new(),
        title: "t".to_owned(),
        content: "c".to_owned(),
        revision: 2,
        created_at: 1,
        updated_at: 3,
    };
    let record = memory_from_row(row("00000000-0000-0000-0000-0000000000ff")).ok().unwrap();
    assert_eq!(record.id, 255);
    assert!(memory_from_row(row("nonsense")).is_err());
    let version = version_from_row(StoredVersionRow {
        memory_id: "00000000-0000-0000-0000-0000000000ff".to_owned(),
        revision: 2,
        operation: operation_to_str(LocalMemoryOperation::Deleted).to_owned(),
        scope_kind: "global".to_owned(),
        scope_key: String::new(),
        title: "t".to_owned(),
        content: "c".to_owned(),
        recorded_at: 9,
    })
    .ok()
    .unwrap();
    assert_eq!(version.operation, LocalMemoryOperation::Deleted);
}

#[test]
fn long_content_is_cut_with_an_ellipsis() {
    assert_eq!(truncate_context_content("short", 10), "short");
    assert_eq!(truncate_context_content("abcdef", 4), "abc…");
}

#[test]
fn queries_without_words_find_nothing_and_nothing_is_found_twice() {
    let mut store = MemoryStore::new();
    for now in 1..4 {
        store.create(LocalMemoryScope::Global, None, "Editor", "Helix, Helix!", now).ok().unwrap();
    }
    assert!(store.search("?! -- …", &None).is_empty());
    assert!(store.search("", &None).is_empty());
    let found = store.search("helix HELIX editor", &None);
    assert_eq!(found.len(), 3);
    for (i, record) in found.iter().enumerate() {
        assert!(found[..i].iter().all(|other| other.id != record.id));
        assert_eq!(record.id & 0xf000_c000_0000_0000_0000, 0x4000_8000_0000_0000_0000);
    }
}
