use local_ai::local_compaction::{
    contains_disallowed_control, ArchiveTask, CompactionIds, ConversationTask, LocalCompactionError,
    LocalCompactionLimits, LocalCompactionMetadata, LocalCompactionRoute, LocalCompactionSnapshot,
    LocalCompactionSummary, MessageBody, MoveMessagesToNewTask, RecordedMessage, SummaryType,
    TaskMessage, Tool, ToolResult,
};
use serde_json::Value;

const CONVERSATION_ID: &str = "11111111-1111-4111-8111-111111111111";
const ROOT_TASK_ID: &str = "root";

fn message(id: &str, request_id: &str, text: &str, body: MessageBody) -> RecordedMessage {
    RecordedMessage {
        message: TaskMessage {
            id: id.to_string(),
            task_id: ROOT_TASK_ID.to_string(),
            request_id: request_id.to_string(),
            message: Some(body),
        },
        encoded: format!("{id}|{request_id}|{text}").into_bytes(),
    }
}

fn user(id: &str, request_id: &str, text: &str) -> RecordedMessage {
    message(id, request_id, text, MessageBody::UserQuery)
}

fn assistant(id: &str, request_id: &str, text: &str) -> RecordedMessage {
    message(id, request_id, text, MessageBody::AgentOutput)
}

fn tool_call(id: &str, request_id: &str, tool_call_id: &str) -> RecordedMessage {
    message(
        id,
        request_id,
        tool_call_id,
        MessageBody::ToolCall { tool_call_id: tool_call_id.to_string(), tool: Some(Tool::Other) },
    )
}

fn tool_result(id: &str, request_id: &str, tool_call_id: &str) -> RecordedMessage {
    message(
        id,
        request_id,
        tool_call_id,
        MessageBody::ToolCallResult {
            tool_call_id: tool_call_id.to_string(),
            result: Some(ToolResult::Other),
        },
    )
}

fn active_lrc_result(id: &str, request_id: &str, tool_call_id: &str) -> RecordedMessage {
    message(
        id,
        request_id,
        "sleep 100",
        MessageBody::ToolCallResult {
            tool_call_id: tool_call_id.to_string(),
            result: Some(ToolResult::RunShellCommand { long_running_snapshot: true }),
        },
    )
}

fn task(messages: Vec<RecordedMessage>) -> ConversationTask {
    let mut encoded = b"Root task".to_vec();
    for message in &messages {
        encoded.extend_from_slice(&message.encoded);
    }
    ConversationTask { id: ROOT_TASK_ID.to_string(), messages, encoded }
}

fn plain_history() -> ConversationTask {
    task(vec![
        user("m1", "r1", &"a".repeat(300)),
        assistant("m2", "r1", &"b".repeat(300)),
        user("m3", "r2", "old three"),
        assistant("m4", "r2", "old four"),
        user("m5", "r3", "recent one"),
        assistant("m6", "r3", "recent two"),
        user("m7", "r4", "recent three"),
        assistant("m8", "r4", "recent four"),
    ])
}

fn route() -> LocalCompactionRoute {
    LocalCompactionRoute {
        model_id: "custom/local/qwen".to_string(),
        provider_name: "local".to_string(),
        model: "qwen".to_string(),
        configuration_fingerprint: "route-rev-1".to_string(),
    }
}

fn test_limits() -> LocalCompactionLimits {
    LocalCompactionLimits {
        max_input_chars: 100_000,
        min_reclaimable_chars: 1,
        recent_message_reserve: 4,
    }
}

fn capture(tasks: &[ConversationTask]) -> Result<LocalCompactionSnapshot, LocalCompactionError> {
    LocalCompactionSnapshot::capture(CONVERSATION_ID, tasks, ROOT_TASK_ID, route(), test_limits())
}

fn list(items: &[&str]) -> Value {
    Value::Array(items.iter().map(|item| Value::from(*item)).collect())
}

fn valid_summary(snapshot: &LocalCompactionSnapshot) -> Value {
    let mut map = serde_json::Map::new();
    map.insert("schema_version".to_string(), 1.into());
    map.insert("first_message_id".to_string(), snapshot.first_message_id().into());
    map.insert("last_message_id".to_string(), snapshot.last_message_id().into());
    map.insert("message_count".to_string(), snapshot.message_count().into());
    map.insert("range_checksum".to_string(), snapshot.range_checksum().into());
    map.insert("goals".to_string(), list(&["Keep the local-first fork working"]));
    map.insert("user_constraints".to_string(), list(&["Never call Warp Cloud"]));
    map.insert("decisions".to_string(), list(&["Use direct OpenAI-compatible endpoints"]));
    map.insert("files_symbols".to_string(), list(&["app/src/ai/local_compaction.rs"]));
    map.insert("commands_outcomes".to_string(), list(&["focused tests: pass"]));
    map.insert("unresolved_work".to_string(), list(&["finish P2"]));
    map.insert("child_agent_results".to_string(), list(&[]));
    map.insert(
        "narrative".to_string(),
        "The conversation established a local-only implementation path.".into(),
    );
    Value::Object(map)
}

fn read_summary(raw: &str) -> Result<LocalCompactionSummary, String> {
    let value: Value = serde_json::from_str(raw).map_err(|error| error.to_string())?;
    let text = |key: &str| {
        value
            .get(key)
            .and_then(|field| field.as_str())
            .map(|field| field.to_string())
            .ok_or(format!("missing field `{key}`"))
    };
    let number = |key: &str| {
        value
            .get(key)
            .and_then(|field| field.as_u64())
            .map(|field| field as u32)
            .ok_or(format!("missing field `{key}`"))
    };
    let texts = |key: &str| {
        let items = value
            .get(key)
            .and_then(|field| field.as_array())
            .ok_or(format!("missing field `{key}`"))?;
        Ok::<Vec<String>, String>(
            items.iter().filter_map(|item| item.as_str()).map(|item| item.to_string()).collect(),
        )
    };
    Ok(LocalCompactionSummary {
        schema_version: number("schema_version")?,
        first_message_id: text("first_message_id")?,
        last_message_id: text("last_message_id")?,
        message_count: number("message_count")?,
        range_checksum: text("range_checksum")?,
        goals: texts("goals")?,
        user_constraints: texts("user_constraints")?,
        decisions: texts("decisions")?,
        files_symbols: texts("files_symbols")?,
        commands_outcomes: texts("commands_outcomes")?,
        unresolved_work: texts("unresolved_work")?,
        child_agent_results: texts("child_agent_results")?,
        narrative: text("narrative")?,
    })
}

fn parse_summary(
    snapshot: &LocalCompactionSnapshot,
    raw: &str,
) -> Result<LocalCompactionSummary, LocalCompactionError> {
    snapshot.parse_summary(raw, read_summary(raw))
}

fn copy_of(metadata: &LocalCompactionMetadata) -> LocalCompactionMetadata {
    LocalCompactionMetadata {
        schema: metadata.schema.clone(),
        schema_version: metadata.schema_version,
        conversation_id: metadata.conversation_id.clone(),
        source_task_id: metadata.source_task_id.clone(),
        archive_task_id: metadata.archive_task_id.clone(),
        first_message_id: metadata.first_message_id.clone(),
        last_message_id: metadata.last_message_id.clone(),
        message_count: metadata.message_count,
        range_checksum: metadata.range_checksum.clone(),
        source_task_checksum: metadata.source_task_checksum.clone(),
        conversation_checksum: metadata.conversation_checksum.clone(),
        route: metadata.route.clone(),
        completed_at_unix_ms: metadata.completed_at_unix_ms,
        call_message_id: metadata.call_message_id.clone(),
        summary_message_id: metadata.summary_message_id.clone(),
        result_message_id: metadata.result_message_id.clone(),
        tool_call_id: metadata.tool_call_id.clone(),
    }
}

struct Planned {
    snapshot: LocalCompactionSnapshot,
    metadata: LocalCompactionMetadata,
    summary_json: String,
    action: MoveMessagesToNewTask,
}

fn planned(root: &ConversationTask) -> Planned {
    let snapshot = capture(std::slice::from_ref(root)).ok().unwrap();
    let summary_json = valid_summary(&snapshot).to_string();
    let summary = parse_summary(&snapshot, &summary_json).ok().unwrap();
    let metadata = snapshot.plan_action(&summary, 1_725_000_000_000).ok().unwrap();
    let server_data = format!("{} {}", metadata.schema, metadata.archive_task_id);
    let action = snapshot
        .build_action(&summary, &metadata, Ok(server_data), Ok(summary_json.clone()))
        .expect("validated summary should create a local action");
    Planned { snapshot, metadata, summary_json, action }
}

fn validate(
    planned: &Planned,
    tasks: &[ConversationTask],
    fingerprint: &str,
) -> Result<LocalCompactionMetadata, LocalCompactionError> {
    LocalCompactionMetadata::validate_action(
        CONVERSATION_ID,
        tasks,
        &planned.action,
        fingerprint,
        Ok(copy_of(&planned.metadata)),
        &read_summary(&planned.summary_json),
    )
}

#[test]
fn local_compaction_snapshot_stops_after_complete_tool_chronology_and_keeps_recent_messages() {
    let root = task(vec![
        user("m1", "r1", &"a".repeat(300)),
        tool_call("m2", "r1", "tool-1"),
        tool_result("m3", "r2", "tool-1"),
        assistant("m4", "r2", &"b".repeat(300)),
        user("m5", "r3", "recent one"),
        assistant("m6", "r3", "recent two"),
        user("m7", "r4", "recent three"),
        assistant("m8", "r4", "recent four"),
    ]);

    let snapshot = capture(&[root]).ok().expect("complete prefix should be compactable");

    assert_eq!(snapshot.message_ids(), ["m1", "m2", "m3", "m4"]);
    assert_eq!(snapshot.message_count(), 4);
    assert_eq!(snapshot.retained_message_count(), 4);
}

#[test]
fn local_compaction_snapshot_rejects_unmatched_tool_result() {
    let root = task(vec![
        user("m1", "r1", &"a".repeat(300)),
        tool_result("m2", "r1", "missing-call"),
        assistant("m3", "r1", &"b".repeat(300)),
        user("m4", "r2", "recent one"),
        assistant("m5", "r2", "recent two"),
        user("m6", "r3", "recent three"),
        assistant("m7", "r3", "recent four"),
    ]);

    let error = capture(&[root]).err().expect("unmatched result must fail closed");

    assert!(matches!(error, LocalCompactionError::UnmatchedToolResult { .. }));
}

#[test]
fn local_compaction_snapshot_does_not_cross_active_long_running_command() {
    let root = task(vec![
        user("m1", "r1", &"a".repeat(300)),
        tool_call("m2", "r1", "tool-1"),
        active_lrc_result("m3", "r2", "tool-1"),
        assistant("m4", "r2", &"b".repeat(300)),
        user("m5", "r3", "recent one"),
        assistant("m6", "r3", "recent two"),
        user("m7", "r4", "recent three"),
        assistant("m8", "r4", "recent four"),
    ]);

    let error =
        capture(&[root]).err().expect("active long-running result must remain outside compaction");

    assert!(matches!(error, LocalCompactionError::ActiveLongRunningCommand));
}

#[test]
fn local_compaction_summary_is_strict_and_bound_to_the_snapshot() {
    let snapshot = capture(&[plain_history()]).ok().unwrap();

    let summary = parse_summary(&snapshot, &valid_summary(&snapshot).to_string())
        .ok()
        .expect("strict matching payload should parse");
    assert_eq!(summary.schema_version, 1);
    assert!(!summary.narrative.is_empty());

    let wrapped = format!("```json\n{}\n```", valid_summary(&snapshot));
    assert!(matches!(
        parse_summary(&snapshot, &wrapped),
        Err(LocalCompactionError::MalformedSummary(_))
    ));

    let mut wrong = valid_summary(&snapshot);
    wrong["last_message_id"] = "some-other-message".into();
    assert!(matches!(
        parse_summary(&snapshot, &wrong.to_string()),
        Err(LocalCompactionError::SummaryRangeMismatch)
    ));
}

#[test]
fn local_compaction_action_archives_raw_messages_and_carries_cas_metadata() {
    let root = plain_history();
    let planned = planned(&root);
    let move_action = &planned.action;
    assert_eq!(move_action.source_task_id, ROOT_TASK_ID);
    assert_eq!(move_action.expected_message_count, 4);
    assert_eq!(move_action.replacement_messages.len(), 3);
    assert!(matches!(
        move_action.replacement_messages[0].message,
        Some(MessageBody::ToolCall { .. })
    ));
    assert!(matches!(
        move_action.replacement_messages[1].message,
        Some(MessageBody::Summarization {
            summary_type: Some(SummaryType::ConversationSummary { .. })
        })
    ));
    assert!(matches!(
        move_action.replacement_messages[2].message,
        Some(MessageBody::ToolCallResult { .. })
    ));

    let archive: &ArchiveTask = move_action.new_task.as_ref().expect("archive task");
    let metadata =
        LocalCompactionMetadata::parse(&archive.server_data, Ok(copy_of(&planned.metadata)))
            .ok()
            .unwrap();
    assert_eq!(metadata.conversation_id, CONVERSATION_ID);
    assert_eq!(metadata.source_task_checksum, planned.snapshot.source_task_checksum());
    assert_eq!(metadata.conversation_checksum, planned.snapshot.conversation_checksum());
    assert_eq!(metadata.route.configuration_fingerprint, "route-rev-1");

    assert!(
        validate(&planned, std::slice::from_ref(&root), "route-rev-1").is_ok(),
        "unchanged task set should pass CAS"
    );
    assert!(matches!(
        validate(&planned, std::slice::from_ref(&root), "route-rev-2"),
        Err(LocalCompactionError::ProviderChanged)
    ));

    let mut changed = root;
    changed.messages[0].encoded.extend_from_slice(b"concurrent mutation");
    changed.encoded.extend_from_slice(b"concurrent mutation");
    assert!(matches!(
        validate(&planned, &[changed], "route-rev-1"),
        Err(LocalCompactionError::StaleSnapshot)
    ));
}

#[test]
fn short_or_missing_histories_are_refused() {
    assert!(matches!(capture(&[]), Err(LocalCompactionError::MissingRootTask)));
    assert!(matches!(
        capture(&[task(vec![user("m1", "r1", "one")])]),
        Err(LocalCompactionError::NothingToCompact)
    ));
    let twice = task(vec![
        user("m1", "r1", "a"),
        assistant("m1", "r1", "b"),
        user("m3", "r2", "c"),
        assistant("m4", "r2", "d"),
        user("m5", "r3", "e"),
        assistant("m6", "r3", "f"),
    ]);
    let error = capture(&[twice]).err().unwrap();
    assert_eq!(
        error.message(),
        "Local compaction found duplicate or empty message ID `m1`"
    );
}

#[test]
fn broken_moves_are_refused() {
    let root = plain_history();
    let mut moved = planned(&root);
    moved.action.replacement_messages.pop();
    assert!(matches!(
        validate(&moved, std::slice::from_ref(&root), "route-rev-1"),
        Err(LocalCompactionError::MalformedAction(_))
    ));
    let mut moved = planned(&root);
    moved.action.new_task = None;
    assert_eq!(
        validate(&moved, std::slice::from_ref(&root), "route-rev-1").err().unwrap().message(),
        "The local compaction action was malformed: archive task is missing"
    );
    let unreadable = LocalCompactionMetadata::parse("{", Err("EOF".to_string()));
    assert_eq!(
        unreadable.err().unwrap().message(),
        "The local compaction action was malformed: invalid local metadata JSON: EOF"
    );
}

#[test]
fn recorded_compactions_are_recognised() {
    let moved = planned(&plain_history());
    let server_data = moved.action.new_task.as_ref().unwrap().server_data.clone();
    assert!(LocalCompactionMetadata::is_local_compaction_task(
        &server_data,
        Ok(copy_of(&moved.metadata))
    ));
    assert!(!LocalCompactionMetadata::is_local_compaction_task(
        "other",
        Ok(copy_of(&moved.metadata))
    ));
}

#[test]
fn limits_follow_the_context() {
    let limits = LocalCompactionLimits::for_context_budget(300);
    assert_eq!(limits.max_input_chars, 200);
    assert_eq!(limits.retry_after_context_overflow().max_input_chars, 100);
    assert_eq!(LocalCompactionLimits::for_context_budget(usize::MAX).max_input_chars, usize::MAX / 3);
}

#[test]
fn control_characters_are_told_from_white_space() {
    assert!(!contains_disallowed_control("a\n\tb\r"));
    assert!(contains_disallowed_control("a\u{7}"));
}

#[test]
fn requests_name_the_range_and_the_focus() {
    let snapshot = capture(&[plain_history()]).ok().unwrap();
    assert!(snapshot.summary_system_prompt().contains("exactly one JSON object"));
    let plain = snapshot.summary_user_prompt(None);
    assert!(plain.contains(snapshot.first_message_id()));
    assert!(plain.contains(snapshot.range_checksum()));
    let focused = snapshot.summary_user_prompt(Some("  the tests "));
    assert!(focused.contains("\nOptional user focus: the tests"));
    assert_eq!(snapshot.summary_user_prompt(Some("  ")), plain);
}

#[test]
fn fresh_identifiers_are_different_random_uuids() {
    let ids = CompactionIds::random();
    let all = [
        ids.archive_task_id,
        ids.call_message_id,
        ids.summary_message_id,
        ids.result_message_id,
    ];
    for (i, id) in all.iter().enumerate() {
        assert_eq!(id.len(), 36);
        assert_eq!(&id[14..15], "4");
        assert!(["8", "9", "a", "b"].contains(&&id[19..20]));
        assert!(!all[..i].contains(id));
    }
}

#[test]
fn actions_are_built_for_checked_summaries_of_the_captured_range() {
    let root = task(vec![
        user("m1", "r1", &"a".repeat(300)),
        assistant("m2", "r1", &"b".repeat(300)),
        user("m3", "r2", "recent one"),
        assistant("m4", "r2", "recent two"),
        user("m5", "r3", "recent three"),
        assistant("m6", "r3", "recent four"),
    ]);
    let planned = planned(&root);
    let mut summary = parse_summary(&planned.snapshot, &planned.summary_json).ok().unwrap();

    // What else the metadata say does not count.
    let mut other = copy_of(&planned.metadata);
    other.source_task_id = "elsewhere".to_owned();
    other.first_message_id = "elsewhere".to_owned();
    let action = planned
        .snapshot
        .build_action(&summary, &other, Ok("{}".to_owned()), Ok("{}".to_owned()))
        .ok()
        .unwrap();
    assert_eq!(action.source_task_id, ROOT_TASK_ID);
    assert_eq!(action.first_message_id, planned.snapshot.first_message_id());
    assert_eq!(action.expected_message_count, planned.snapshot.message_count());
    assert_eq!(action.new_task.unwrap().id, planned.metadata.archive_task_id);

    assert!(matches!(
        planned.snapshot.build_action(
            &summary,
            &planned.metadata,
            Err("no".to_owned()),
            Err("no".to_owned())
        ),
        Err(LocalCompactionError::MalformedAction(message))
            if message == "failed to serialize local metadata: no"
    ));
    summary.narrative = "  ".to_owned();
    let refused = planned.snapshot.build_action(
        &summary,
        &planned.metadata,
        Err("no".to_owned()),
        Ok("{}".to_owned()),
    );
    assert!(matches!(refused, Err(LocalCompactionError::MalformedSummary(_))));
}
