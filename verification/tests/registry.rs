use local_ai::harness_availability::{Harness, HarnessAvailabilityModel};
use local_ai::ids::{AIConversationId, EntityId};
use local_ai::local_agent_registry::{
    local_controller_owner_id, ConversationStatus, LocalAgentLimits, LocalAgentPreflight,
    LocalAgentRegistration, LocalAgentRegistry, LocalAgentRegistryError, LocalAgentRegistryEvent,
    LocalAgentStatus, LocalHistoryEvent, RestoredConversation, RestoredLocalAgent,
};

fn registration(
    parent_run_id: Option<String>,
    name: &str,
    action_id: &str,
) -> LocalAgentRegistration {
    let mut request = LocalAgentRegistration::new(
        AIConversationId::new(),
        parent_run_id,
        name,
        "do the local work",
        Harness::Oz,
    );
    request.action_id = Some(action_id.to_string());
    request.controller_owner = Some("controller".to_string());
    request
}

fn restored(run_id: &str, parent_run_id: Option<&str>, name: &str) -> RestoredLocalAgent {
    RestoredLocalAgent {
        run_id: run_id.to_string(),
        conversation_id: AIConversationId::new(),
        terminal_surface_id: None,
        pane_id: None,
        parent_run_id: parent_run_id.map(|id| id.to_string()),
        name: name.to_string(),
        harness: Harness::Oz,
    }
}

#[test]
fn registering_a_child_assigns_a_stable_run_id_and_topology() {
    let mut registry = LocalAgentRegistry::new();
    let parent =
        registry.register_child(registration(None, "parent", "parent-action")).unwrap().run;
    let child = registry
        .register_child(registration(Some(parent.run_id.clone()), "child", "child-action"))
        .unwrap()
        .run;

    assert!(!parent.run_id.is_empty());
    assert_eq!(child.parent_run_id.as_deref(), Some(parent.run_id.as_str()));
    assert_eq!(registry.child_run_ids(&parent.run_id), std::slice::from_ref(&child.run_id));
    assert!(registry.is_ready(&child.run_id));
}

#[test]
fn duplicate_action_id_returns_original_run_without_duplicate_registration() {
    let mut registry = LocalAgentRegistry::new();
    let first = |conversation_id: AIConversationId, run_id: Option<String>| {
        let mut first =
            LocalAgentRegistration::new(conversation_id, None, "child", "prompt", Harness::Oz);
        first.action_id = Some("same-action".to_string());
        first.controller_owner = Some("controller".to_string());
        first.run_id = run_id;
        first
    };
    let original = registry.register_child(first(AIConversationId::new(), None)).unwrap().run;

    let duplicate = registry
        .register_child(first(original.conversation_id, Some("different-run-id".to_string())))
        .unwrap();

    assert!(!duplicate.created);
    assert_eq!(duplicate.run.run_id, original.run_id);
    assert_eq!(registry.len(), 1);
}

#[test]
fn fanout_depth_and_live_limits_fail_before_child_creation() {
    let mut registry = LocalAgentRegistry::with_limits(LocalAgentLimits {
        max_fanout: 2,
        max_depth: 1,
        max_live_children: 1,
        max_pending_messages: 1,
    });
    let parent =
        registry.register_child(registration(None, "parent", "parent-action")).unwrap().run;

    let mut too_many = registration(Some(parent.run_id.clone()), "first", "first-action");
    too_many.requested_fanout = 3;
    assert!(matches!(
        registry.register_child(too_many),
        Err(LocalAgentRegistryError::FanoutLimit { .. })
    ));
    assert_eq!(registry.len(), 1);

    let child = registry
        .register_child(registration(Some(parent.run_id.clone()), "first", "first-action"))
        .unwrap()
        .run;
    assert!(matches!(
        registry.register_child(registration(
            Some(child.run_id.clone()),
            "nested",
            "nested-action",
        )),
        Err(LocalAgentRegistryError::DepthLimit { .. })
    ));
    assert_eq!(registry.len(), 2);

    assert!(matches!(
        registry.register_child(registration(Some(parent.run_id), "sibling", "sibling-action")),
        Err(LocalAgentRegistryError::ConcurrentLimit { .. })
    ));
    assert_eq!(registry.len(), 2);
}

#[test]
fn restored_runs_are_stopped_until_controller_reclaims_them() {
    let mut registry = LocalAgentRegistry::new();
    let run = registry.restore_stopped(restored("persisted-run", None, "historical child")).unwrap();
    assert_eq!(run.status, LocalAgentStatus::Stopped);
    assert!(!registry.is_ready("persisted-run"));
    assert!(matches!(
        registry.send_message("persisted-run", "persisted-run", "subject", "body"),
        Err(LocalAgentRegistryError::HistoricalRun(_))
            | Err(LocalAgentRegistryError::ControllerRequired(_))
    ));

    registry.claim_controller("persisted-run", "new-controller").ok().unwrap();
    assert!(registry.is_ready("persisted-run"));
    assert_eq!(
        registry.get("persisted-run").map(|run| run.status),
        Some(LocalAgentStatus::Idle)
    );
}

#[test]
fn message_ack_is_local_intake_with_bounded_queue_and_no_retry() {
    let mut registry = LocalAgentRegistry::with_limits(LocalAgentLimits {
        max_pending_messages: 1,
        ..LocalAgentLimits::default()
    });
    let sender =
        registry.register_child(registration(None, "sender", "sender-action")).unwrap().run;
    let receiver =
        registry.register_child(registration(None, "receiver", "receiver-action")).unwrap().run;
    registry.set_status(&receiver.run_id, "controller", LocalAgentStatus::Idle).unwrap();

    let ack = registry
        .send_message(&sender.run_id, &receiver.run_id, "subject", "one message")
        .unwrap();
    assert_eq!(ack.recipient_run_id, receiver.run_id);
    assert!(ack.wake_requested);
    assert_eq!(registry.pending_message_count(&receiver.run_id), 1);

    assert!(matches!(
        registry.send_message(&sender.run_id, &receiver.run_id, "subject", "second message"),
        Err(LocalAgentRegistryError::QueueFull { .. })
    ));
    let messages = registry.take_pending_messages(&receiver.run_id, "controller").unwrap();
    assert_eq!(messages.len(), 1);
    assert_eq!(messages[0].message_id, ack.message_id);
    assert_eq!(registry.pending_message_count(&receiver.run_id), 0);
}

#[test]
fn restored_topology_is_rebuilt_in_persisted_order_when_child_arrives_first() {
    let mut registry = LocalAgentRegistry::new();
    registry.restore_stopped(restored("child-run", Some("parent-run"), "child")).unwrap();
    registry.restore_stopped(restored("parent-run", None, "parent")).unwrap();

    assert_eq!(registry.child_run_ids("parent-run"), &["child-run"]);
    assert_eq!(registry.get("child-run").map(|run| run.depth), Some(1));
    assert_eq!(
        registry.get("child-run").map(|run| run.status),
        Some(LocalAgentStatus::Stopped)
    );
}

#[test]
fn rebinding_external_harness_run_preserves_topology_and_pending_state() {
    let mut registry = LocalAgentRegistry::new();
    let parent =
        registry.register_child(registration(None, "parent", "parent-action")).unwrap().run;
    let child = registry
        .register_child(registration(Some(parent.run_id.clone()), "child", "child-action"))
        .unwrap()
        .run;
    registry.send_message(&parent.run_id, &child.run_id, "subject", "body").unwrap();

    let rebound =
        registry.rebind_run_id(child.conversation_id, "harness-run".to_string()).unwrap();

    assert_eq!(rebound.run_id, "harness-run");
    assert_eq!(registry.child_run_ids(&parent.run_id), &["harness-run"]);
    assert_eq!(registry.pending_message_count("harness-run"), 1);
    let rebound_envelope =
        registry.take_next_pending_message("harness-run", "controller").unwrap().unwrap();
    assert_eq!(rebound_envelope.recipient_run_id, "harness-run");
    assert!(registry.get(&child.run_id).is_none());
}

#[test]
fn cancellation_requires_exact_controller_owner() {
    let mut registry = LocalAgentRegistry::new();
    let run = registry.register_child(registration(None, "owned", "owned-action")).unwrap().run;

    assert!(matches!(
        registry.cancel(&run.run_id, "unrelated-controller"),
        Err(LocalAgentRegistryError::ControllerOwnedByAnotherRun(_))
    ));
    assert_eq!(
        registry.get(&run.run_id).map(|run| run.status),
        Some(LocalAgentStatus::Starting)
    );
    assert!(!run.cancellation.is_cancelled());

    let handle = registry.cancel(&run.run_id, "controller").ok().unwrap();
    assert_eq!(
        registry.get(&run.run_id).map(|run| run.status),
        Some(LocalAgentStatus::Cancelled)
    );
    assert!(handle.is_cancelled());
    assert!(run.cancellation.is_cancelled());
}

#[test]
fn failed_controller_intake_can_retain_exact_envelope_without_reordering() {
    let mut registry = LocalAgentRegistry::new();
    let sender =
        registry.register_child(registration(None, "sender", "sender-action")).unwrap().run;
    let receiver =
        registry.register_child(registration(None, "receiver", "receiver-action")).unwrap().run;
    let ack =
        registry.send_message(&sender.run_id, &receiver.run_id, "subject", "body").unwrap();
    let envelope =
        registry.take_next_pending_message(&receiver.run_id, "controller").unwrap().unwrap();
    registry.requeue_message_front(&receiver.run_id, "controller", envelope).unwrap();

    let retained =
        registry.take_next_pending_message(&receiver.run_id, "controller").unwrap().unwrap();
    assert_eq!(retained.message_id, ack.message_id);
    assert_eq!(retained.sequence, ack.sequence);
}

#[test]
fn external_harness_owner_can_cancel_but_cannot_accept_messages() {
    let mut registry = LocalAgentRegistry::new();
    let mut external = registration(None, "external", "external-action");
    external.harness = Harness::Claude;
    let external = registry.register_child(external).unwrap().run;
    let sender =
        registry.register_child(registration(None, "sender", "sender-action")).unwrap().run;

    assert!(!registry.is_ready(&external.run_id));
    assert!(matches!(
        registry.send_message(&sender.run_id, &external.run_id, "subject", "body"),
        Err(LocalAgentRegistryError::ControllerRequired(_))
    ));
    registry.cancel(&external.run_id, "controller").ok().unwrap();
}

#[test]
fn preflight_names_what_is_wrong() {
    let registry = LocalAgentRegistry::new();
    let request = || LocalAgentPreflight {
        name: "child".to_string(),
        prompt: "work".to_string(),
        ..LocalAgentPreflight::default()
    };
    let message = |request: &LocalAgentPreflight| {
        registry.preflight(request).err().unwrap().message("Unknown")
    };
    assert!(registry.preflight(&request()).is_ok());
    assert_eq!(
        message(&LocalAgentPreflight { name: " ".to_string(), ..request() }),
        "local child agent name is required"
    );
    assert_eq!(
        message(&LocalAgentPreflight { prompt: "\n".to_string(), ..request() }),
        "local child agent prompt is required"
    );
    assert!(matches!(
        registry.preflight(&LocalAgentPreflight { model_available: false, ..request() }),
        Err(LocalAgentRegistryError::ModelUnavailable)
    ));
    assert!(matches!(
        registry.preflight(&LocalAgentPreflight { tools_available: false, ..request() }),
        Err(LocalAgentRegistryError::ToolsUnavailable)
    ));
    assert!(matches!(
        registry.preflight(&LocalAgentPreflight {
            working_directory: Some("/gone".to_string()),
            working_directory_exists: false,
            ..request()
        }),
        Err(LocalAgentRegistryError::WorkingDirectoryUnavailable(_))
    ));
    assert!(matches!(
        registry.preflight(&LocalAgentPreflight { harness: Harness::Unknown, ..request() }),
        Err(LocalAgentRegistryError::UnsupportedHarness(Harness::Unknown))
    ));
    assert!(matches!(
        registry.preflight(&LocalAgentPreflight {
            parent_run_id: Some("gone".to_string()),
            ..request()
        }),
        Err(LocalAgentRegistryError::UnknownRun(_))
    ));
}

#[test]
fn siblings_need_names_of_their_own() {
    let mut registry = LocalAgentRegistry::new();
    let parent = registry.register_child(registration(None, "parent", "p")).unwrap().run;
    registry.register_child(registration(Some(parent.run_id.clone()), "same", "a")).unwrap();
    assert!(matches!(
        registry.register_child(registration(Some(parent.run_id), "same", "b")),
        Err(LocalAgentRegistryError::DuplicateSiblingName(_))
    ));
}

#[test]
fn restored_cycles_are_refused() {
    let mut registry = LocalAgentRegistry::new();
    registry.restore_stopped(restored("a", Some("b"), "a")).unwrap();
    assert!(matches!(
        registry.restore_stopped(restored("b", Some("a"), "b")),
        Err(LocalAgentRegistryError::InvalidTopology(_))
    ));
    assert_eq!(registry.len(), 1);
}

#[test]
fn empty_messages_are_refused() {
    let mut registry = LocalAgentRegistry::new();
    let run = registry.register_child(registration(None, "one", "a")).unwrap().run;
    assert!(matches!(
        registry.send_message(&run.run_id, &run.run_id, " ", "body"),
        Err(LocalAgentRegistryError::EmptySubject)
    ));
    assert!(matches!(
        registry.send_message(&run.run_id, &run.run_id, "subject", ""),
        Err(LocalAgentRegistryError::EmptyMessage)
    ));
}

#[test]
fn removed_conversations_are_forgotten() {
    let mut registry = LocalAgentRegistry::new();
    let run = registry.register_child(registration(None, "one", "a")).unwrap().run;
    registry.update_terminal_surface(run.conversation_id, EntityId(3));
    assert_eq!(registry.get(&run.run_id).unwrap().terminal_surface_id, Some(EntityId(3)));
    assert_eq!(
        registry.run_id_for_conversation(run.conversation_id),
        Some(run.run_id.as_str())
    );
    registry.remove_conversation(run.conversation_id);
    assert!(registry.is_empty());
    assert!(registry.run_for_conversation(run.conversation_id).is_none());
}

#[test]
fn one_harness_is_offered_from_the_start() {
    let model = HarnessAvailabilityModel::new();
    assert_eq!(model.available_harnesses().len(), 1);
    assert_eq!(model.display_name_for(Harness::Oz, "Oz"), "Warp");
    assert_eq!(model.display_name_for(Harness::Gemini, "Gemini"), "Gemini");
    assert!(model.has_any_enabled_harness());
    assert!(model.is_harness_enabled(Harness::Oz));
    assert!(!model.is_harness_enabled(Harness::Gemini));
    assert!(!model.should_show_harness_selector(true));
    assert!(model.models_for(Harness::Oz).is_none());
}

#[test]
fn history_events_change_the_registry() {
    let mut registry = LocalAgentRegistry::new();
    let run = registry.register_child(registration(None, "worker", "action")).unwrap().run;
    let event = registry.handle_history_event(&LocalHistoryEvent::UpdatedConversationStatus {
        conversation_id: run.conversation_id,
        new_status: ConversationStatus::Blocked,
    });
    assert!(matches!(
        event,
        Some(LocalAgentRegistryEvent::StatusChanged { run_id, status: LocalAgentStatus::Blocked })
            if run_id == run.run_id
    ));
    let moved = LocalHistoryEvent::ConversationTransferredBetweenTerminalSurfaces {
        conversation_id: run.conversation_id,
        new_terminal_surface_id: EntityId(9),
    };
    assert!(registry.handle_history_event(&moved).is_none());
    assert_eq!(registry.get(&run.run_id).unwrap().terminal_surface_id, Some(EntityId(9)));

    let restored = |run_id: Option<&str>| RestoredConversation {
        conversation_id: AIConversationId::new(),
        run_id: run_id.map(|id| id.to_string()),
        parent_conversation_run_id: None,
        parent_agent_id: Some(run.run_id.clone()),
        agent_name: None,
        title: Some("Title".to_string()),
        harness: None,
    };
    let conversations = LocalHistoryEvent::RestoredConversations {
        terminal_surface_id: EntityId(4),
        conversations: vec![restored(Some("kept-run")), restored(None)],
    };
    assert!(registry.handle_history_event(&conversations).is_none());
    assert_eq!(registry.len(), 2);
    let kept = registry.get("kept-run").unwrap();
    assert_eq!(kept.status, LocalAgentStatus::Stopped);
    assert_eq!(kept.name, "Title");
    assert_eq!(kept.parent_run_id.as_deref(), Some(run.run_id.as_str()));

    let deleted = LocalHistoryEvent::DeletedConversation { conversation_id: run.conversation_id };
    assert!(registry.handle_history_event(&deleted).is_none());
    assert!(registry.get(&run.run_id).is_none());
    assert!(registry.handle_history_event(&LocalHistoryEvent::Other).is_none());
}

#[test]
fn known_conversations_attach_again_without_a_second_record() {
    let mut registry = LocalAgentRegistry::new();
    let conversation = AIConversationId::new();
    let attach = |registry: &mut LocalAgentRegistry, run_id: &str, name: &str| {
        registry.register_existing(
            run_id.to_string(),
            conversation,
            Some(EntityId(1)),
            None,
            None,
            name.to_string(),
            Harness::Oz,
            None,
            LocalAgentStatus::Running,
        )
    };
    assert!(attach(&mut registry, "run", "one").is_ok());
    assert_eq!(attach(&mut registry, "run", "two").unwrap().name, "two");
    assert_eq!(registry.len(), 1);
    assert!(attach(&mut registry, "other-run", "three").is_err());
}

#[test]
fn controllers_hold_and_release_their_runs() {
    let mut registry = LocalAgentRegistry::new();
    registry.restore_stopped(restored("run", None, "worker")).unwrap();
    assert!(!registry.is_ready("run"));
    let owner = local_controller_owner_id(EntityId(3));
    assert_eq!(owner, "terminal:EntityId(3)");
    assert!(registry.register_controller("run", &owner).is_ok());
    assert!(registry.is_ready("run"));
    assert!(registry.release_controller("run", "another").is_err());
    assert!(registry.release_controller("run", &owner).is_ok());
    assert!(!registry.is_ready("run"));
    assert!(matches!(
        registry.register_controller("unknown", &owner),
        Err(LocalAgentRegistryError::UnknownRun(_))
    ));
}

#[test]
fn allocated_run_identifiers_are_random_uuids() {
    let id = LocalAgentRegistry::allocate_run_id();
    let characters = id.chars().collect::<Vec<_>>();
    assert_eq!(characters.len(), 36);
    assert_eq!(characters[14], '4');
    assert!(['8', '9', 'a', 'b'].contains(&characters[19]));
    assert_ne!(id, LocalAgentRegistry::allocate_run_id());
}

#[test]
fn children_are_listed_once_in_the_order_of_registration() {
    let mut registry = LocalAgentRegistry::with_limits(LocalAgentLimits::default());
    registry.restore_stopped(restored("parent", None, "Parent")).unwrap();
    for name in ["first", "second", "third"] {
        registry.restore_stopped(restored(name, Some("parent"), name)).unwrap();
    }
    assert_eq!(registry.child_run_ids("parent"), ["first", "second", "third"]);
    let conversation = registry.get("second").unwrap().conversation_id;
    registry.rebind_run_id(conversation, "renamed".to_owned()).unwrap();
    assert_eq!(registry.child_run_ids("parent"), ["first", "renamed", "third"]);
    let conversation = registry.get("first").unwrap().conversation_id;
    registry.remove_conversation(conversation);
    assert_eq!(registry.child_run_ids("parent"), ["renamed", "third"]);
    assert!(registry.child_run_ids("first").is_empty());
}

#[test]
fn runs_below_a_cycle_are_restored() {
    let mut registry = LocalAgentRegistry::new();
    for (run_id, parent) in [("a", "b"), ("b", "a")] {
        registry
            .register_existing(
                run_id.to_owned(),
                AIConversationId::new(),
                None,
                None,
                Some(parent.to_owned()),
                run_id.to_owned(),
                Harness::Oz,
                None,
                LocalAgentStatus::Stopped,
            )
            .unwrap();
    }
    registry.restore_stopped(restored("c", Some("a"), "c")).unwrap();
    assert_eq!(registry.len(), 3);
    assert_eq!(registry.get("c").unwrap().depth, 0);
    assert!(registry.child_run_ids("a").is_empty());
}
