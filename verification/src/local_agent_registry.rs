//! Process-local ownership and delivery state for local child agents.
//!
//! A run is identified by the local identifier assigned when its conversation
//! is created, and all controller and message operations resolve through that
//! identifier. Conversation persistence remains the source of truth for
//! historical topology; the registry only owns state that is live in the
//! current process.

use crate::harness_availability::Harness;
use crate::ids;
use crate::ids::{AIConversationId, EntityId};
use crate::text;
use std::collections::VecDeque;
use std::sync::atomic::AtomicBool;
use std::sync::atomic::Ordering;
use std::sync::Arc;
use vstd::prelude::*;

verus! {

/// Maximum number of children accepted by one fan-out request.
pub const MAX_LOCAL_CHILD_FANOUT: usize = 8;

/// Maximum local parent to child nesting depth.
pub const MAX_LOCAL_AGENT_DEPTH: usize = 4;

/// Maximum number of live local children in one process.
pub const MAX_LIVE_LOCAL_CHILDREN: usize = 16;

/// Maximum number of messages retained for one busy controller.
pub const MAX_PENDING_LOCAL_MESSAGES: usize = 16;

/// Explicit local limits.
#[derive(Debug, Clone, Copy, PartialEq, Eq, Structural)]
pub struct LocalAgentLimits {
    pub max_fanout: usize,
    pub max_depth: usize,
    pub max_live_children: usize,
    pub max_pending_messages: usize,
}

pub open spec fn default_limits() -> LocalAgentLimits {
    LocalAgentLimits {
        max_fanout: MAX_LOCAL_CHILD_FANOUT,
        max_depth: MAX_LOCAL_AGENT_DEPTH,
        max_live_children: MAX_LIVE_LOCAL_CHILDREN,
        max_pending_messages: MAX_PENDING_LOCAL_MESSAGES,
    }
}

impl Default for LocalAgentLimits {
    fn default() -> (r: Self)
        ensures
            r == default_limits(),
    {
        LocalAgentLimits {
            max_fanout: MAX_LOCAL_CHILD_FANOUT,
            max_depth: MAX_LOCAL_AGENT_DEPTH,
            max_live_children: MAX_LIVE_LOCAL_CHILDREN,
            max_pending_messages: MAX_PENDING_LOCAL_MESSAGES,
        }
    }
}

/// Lifecycle visible to local topology and status consumers.
#[derive(Debug, Clone, Copy, PartialEq, Eq, Structural)]
pub enum LocalAgentStatus {
    Starting,
    Idle,
    Running,
    Blocked,
    Succeeded,
    Failed,
    Cancelled,
    /// A persisted run which is known locally but has no live controller after
    /// restart. It must not be treated as an executable process.
    Stopped,
}

impl LocalAgentStatus {
    pub open spec fn terminal(self) -> bool {
        self is Succeeded || self is Failed || self is Cancelled || self is Stopped
    }

    pub fn is_terminal(self) -> (r: bool)
        ensures
            r == self.terminal(),
    {
        matches!(
            self,
            LocalAgentStatus::Succeeded
                | LocalAgentStatus::Failed
                | LocalAgentStatus::Cancelled
                | LocalAgentStatus::Stopped
        )
    }

    pub fn is_live(self) -> (r: bool)
        ensures
            r == !self.terminal(),
    {
        !self.is_terminal()
    }
}

/// A process-local cancellation signal owned by the run's controller. The
/// clones of a handle share one flag, which starts out clear and which any of
/// them may raise from any thread; the flag's value is no part of the handle's
/// identity.
#[derive(Debug)]
pub struct LocalAgentCancellationHandle(Arc<AtomicBool>);

impl Default for LocalAgentCancellationHandle {
    /// A handle with a flag of its own, not raised.
    fn default() -> Self {
        LocalAgentCancellationHandle(Arc::new(AtomicBool::new(false)))
    }
}

impl LocalAgentCancellationHandle {
    /// Raises the shared flag.
    pub fn cancel(&self) {
        self.0.store(true, Ordering::Release);
    }

    /// Reads the shared flag.
    pub fn is_cancelled(&self) -> bool {
        self.0.load(Ordering::Acquire)
    }
}

impl Clone for LocalAgentCancellationHandle {
    fn clone(&self) -> (r: Self)
        ensures
            r == *self,
    {
        LocalAgentCancellationHandle(self.0.clone())
    }
}

/// The request envelope used while registering a local child.
#[derive(Clone, Debug)]
pub struct LocalAgentRegistration {
    pub run_id: Option<String>,
    pub conversation_id: AIConversationId,
    pub terminal_surface_id: Option<EntityId>,
    pub pane_id: Option<EntityId>,
    pub parent_run_id: Option<String>,
    pub name: String,
    pub prompt: String,
    pub harness: Harness,
    pub model_id: Option<String>,
    pub model_available: bool,
    pub tools_available: bool,
    pub working_directory: Option<String>,
    /// Whether the working directory, where one is given, is a directory.
    pub working_directory_exists: bool,
    pub action_id: Option<String>,
    pub request_id: Option<String>,
    /// Number of siblings requested by a fan-out operation. A single child
    /// registration uses the default value of one.
    pub requested_fanout: usize,
    pub controller_owner: Option<String>,
}

impl LocalAgentRegistration {
    pub fn new(
        conversation_id: AIConversationId,
        parent_run_id: Option<String>,
        name: &str,
        prompt: &str,
        harness: Harness,
    ) -> (r: Self)
        ensures
            r.conversation_id == conversation_id,
            r.parent_run_id == parent_run_id,
            r.name@ == name@,
            r.prompt@ == prompt@,
            r.harness == harness,
            r.run_id is None,
            r.terminal_surface_id is None,
            r.pane_id is None,
            r.model_id is None,
            r.model_available,
            r.tools_available,
            r.working_directory is None,
            r.working_directory_exists,
            r.action_id is None,
            r.request_id is None,
            r.requested_fanout == 1,
            r.controller_owner is None,
    {
        LocalAgentRegistration {
            run_id: None,
            conversation_id,
            terminal_surface_id: None,
            pane_id: None,
            parent_run_id,
            name: name.to_owned(),
            prompt: prompt.to_owned(),
            harness,
            model_id: None,
            model_available: true,
            tools_available: true,
            working_directory: None,
            working_directory_exists: true,
            action_id: None,
            request_id: None,
            requested_fanout: 1,
            controller_owner: None,
        }
    }
}

/// A historical run used to rebuild topology after restart. Restored runs are
/// always inserted as stopped.
#[derive(Clone, Debug)]
pub struct RestoredLocalAgent {
    pub run_id: String,
    pub conversation_id: AIConversationId,
    pub terminal_surface_id: Option<EntityId>,
    pub pane_id: Option<EntityId>,
    pub parent_run_id: Option<String>,
    pub name: String,
    pub harness: Harness,
}

/// A snapshot returned to callers after registration or lookup.
#[derive(Debug)]
pub struct LocalAgentRun {
    pub run_id: String,
    pub conversation_id: AIConversationId,
    pub terminal_surface_id: Option<EntityId>,
    pub pane_id: Option<EntityId>,
    pub parent_run_id: Option<String>,
    pub child_run_ids: Vec<String>,
    pub name: String,
    pub harness: Harness,
    pub status: LocalAgentStatus,
    pub depth: usize,
    pub controller_owner: Option<String>,
    pub cancellation: LocalAgentCancellationHandle,
}

/// What a run is, with its texts as character sequences.
#[verifier::ext_equal]
pub struct RunModel {
    pub run_id: Seq<char>,
    pub conversation_id: AIConversationId,
    pub terminal_surface_id: Option<EntityId>,
    pub pane_id: Option<EntityId>,
    pub parent_run_id: Option<Seq<char>>,
    pub child_run_ids: Seq<Seq<char>>,
    pub name: Seq<char>,
    pub harness: Harness,
    pub status: LocalAgentStatus,
    pub depth: usize,
    pub controller_owner: Option<Seq<char>>,
    pub cancellation: LocalAgentCancellationHandle,
}

impl RunModel {
    /// Whether the run can take part in messaging.
    pub open spec fn ready(self) -> bool {
        self.harness is Oz && self.controller_owner is Some && !self.status.terminal()
    }
}

impl View for LocalAgentRun {
    type V = RunModel;

    open spec fn view(&self) -> RunModel {
        RunModel {
            run_id: self.run_id@,
            conversation_id: self.conversation_id,
            terminal_surface_id: self.terminal_surface_id,
            pane_id: self.pane_id,
            parent_run_id: text::text_opt(self.parent_run_id),
            child_run_ids: text::texts(self.child_run_ids@),
            name: self.name@,
            harness: self.harness,
            status: self.status,
            depth: self.depth,
            controller_owner: text::text_opt(self.controller_owner),
            cancellation: self.cancellation,
        }
    }
}

impl LocalAgentRun {
    pub fn is_controller_ready(&self) -> (r: bool)
        ensures
            r == self@.ready(),
    {
        self.harness == Harness::Oz && self.controller_owner.is_some() && self.status.is_live()
    }
}

impl Clone for LocalAgentRun {
    fn clone(&self) -> (r: Self)
        ensures
            r@ == self@,
    {
        LocalAgentRun {
            run_id: self.run_id.clone(),
            conversation_id: self.conversation_id,
            terminal_surface_id: self.terminal_surface_id,
            pane_id: self.pane_id,
            parent_run_id: text::clone_opt(&self.parent_run_id),
            child_run_ids: text::clone_strings(&self.child_run_ids),
            name: self.name.clone(),
            harness: self.harness,
            status: self.status,
            depth: self.depth,
            controller_owner: text::clone_opt(&self.controller_owner),
            cancellation: self.cancellation.clone(),
        }
    }
}

/// Result of an idempotent registration. A duplicate action or request key
/// returns the original run and `created == false`.
#[derive(Clone, Debug)]
pub struct LocalAgentRegistrationOutcome {
    pub run: LocalAgentRun,
    pub created: bool,
}

/// Preflight input shared by single and fan-out starts.
#[derive(Clone, Debug)]
pub struct LocalAgentPreflight {
    pub parent_run_id: Option<String>,
    pub name: String,
    pub prompt: String,
    pub harness: Harness,
    pub model_available: bool,
    pub tools_available: bool,
    pub working_directory: Option<String>,
    /// Whether the working directory, where one is given, is a directory.
    pub working_directory_exists: bool,
    pub requested_fanout: usize,
}

impl Default for LocalAgentPreflight {
    fn default() -> (r: Self)
        ensures
            r.parent_run_id is None,
            r.name@.len() == 0,
            r.prompt@.len() == 0,
            r.harness is Oz,
            r.model_available,
            r.tools_available,
            r.working_directory is None,
            r.working_directory_exists,
            r.requested_fanout == 1,
    {
        LocalAgentPreflight {
            parent_run_id: None,
            name: String::new(),
            prompt: String::new(),
            harness: Harness::Oz,
            model_available: true,
            tools_available: true,
            working_directory: None,
            working_directory_exists: true,
            requested_fanout: 1,
        }
    }
}

/// What a preflight request asks for.
pub struct PreflightModel {
    pub parent_run_id: Option<Seq<char>>,
    pub name: Seq<char>,
    pub prompt: Seq<char>,
    pub harness: Harness,
    pub model_available: bool,
    pub tools_available: bool,
    pub working_directory: Option<Seq<char>>,
    pub working_directory_exists: bool,
    pub requested_fanout: usize,
}

impl View for LocalAgentPreflight {
    type V = PreflightModel;

    open spec fn view(&self) -> PreflightModel {
        PreflightModel {
            parent_run_id: text::text_opt(self.parent_run_id),
            name: self.name@,
            prompt: self.prompt@,
            harness: self.harness,
            model_available: self.model_available,
            tools_available: self.tools_available,
            working_directory: text::text_opt(self.working_directory),
            working_directory_exists: self.working_directory_exists,
            requested_fanout: self.requested_fanout,
        }
    }
}

impl LocalAgentRegistration {
    /// The preflight that a registration must pass.
    pub open spec fn preflight(&self) -> PreflightModel {
        PreflightModel {
            parent_run_id: text::text_opt(self.parent_run_id),
            name: self.name@,
            prompt: self.prompt@,
            harness: self.harness,
            model_available: self.model_available,
            tools_available: self.tools_available,
            working_directory: text::text_opt(self.working_directory),
            working_directory_exists: self.working_directory_exists,
            requested_fanout: self.requested_fanout,
        }
    }
}

/// A process-local message envelope. Acceptance is acknowledged only when it
/// enters the recipient controller's bounded queue.
#[derive(Clone, Debug, PartialEq, Eq)]
pub struct LocalAgentMessageEnvelope {
    pub message_id: String,
    pub sender_run_id: String,
    pub recipient_run_id: String,
    pub subject: String,
    pub body: String,
    pub sequence: u64,
}

/// What an envelope holds.
#[verifier::ext_equal]
pub struct MessageModel {
    pub message_id: Seq<char>,
    pub sender_run_id: Seq<char>,
    pub recipient_run_id: Seq<char>,
    pub subject: Seq<char>,
    pub body: Seq<char>,
    pub sequence: u64,
}

impl View for LocalAgentMessageEnvelope {
    type V = MessageModel;

    open spec fn view(&self) -> MessageModel {
        MessageModel {
            message_id: self.message_id@,
            sender_run_id: self.sender_run_id@,
            recipient_run_id: self.recipient_run_id@,
            subject: self.subject@,
            body: self.body@,
            sequence: self.sequence,
        }
    }
}

/// Acknowledges that a message entered the recipient's queue.
#[derive(Clone, Debug, PartialEq, Eq)]
pub struct LocalAgentMessageAck {
    pub message_id: String,
    pub sequence: u64,
    pub recipient_run_id: String,
    pub wake_requested: bool,
}

/// Why the registry refused an operation. `S` is the type of the texts: a
/// string in running code, a character sequence in contracts.
#[derive(Debug, Clone, PartialEq, Eq)]
pub enum LocalAgentRegistryError<S = String> {
    EmptyName,
    EmptyPrompt,
    EmptyMessage,
    EmptySubject,
    UnknownRun(S),
    HistoricalRun(S),
    ControllerRequired(S),
    ControllerOwnedByAnotherRun(S),
    DuplicateSiblingName(S),
    FanoutLimit { requested: usize, limit: usize },
    DepthLimit { requested: usize, limit: usize },
    ConcurrentLimit { limit: usize },
    QueueFull { run_id: S, limit: usize },
    ModelUnavailable,
    ToolsUnavailable,
    WorkingDirectoryUnavailable(S),
    UnsupportedHarness(Harness),
    IdempotencyConflict(S),
    DuplicateConversation(S),
    InvalidRunId,
    InvalidTopology(S),
}

/// The error over character sequences.
pub type ErrorModel = LocalAgentRegistryError<Seq<char>>;

impl View for LocalAgentRegistryError<String> {
    type V = ErrorModel;

    open spec fn view(&self) -> ErrorModel {
        match *self {
            LocalAgentRegistryError::EmptyName => LocalAgentRegistryError::EmptyName,
            LocalAgentRegistryError::EmptyPrompt => LocalAgentRegistryError::EmptyPrompt,
            LocalAgentRegistryError::EmptyMessage => LocalAgentRegistryError::EmptyMessage,
            LocalAgentRegistryError::EmptySubject => LocalAgentRegistryError::EmptySubject,
            LocalAgentRegistryError::UnknownRun(s) => LocalAgentRegistryError::UnknownRun(s@),
            LocalAgentRegistryError::HistoricalRun(s) => LocalAgentRegistryError::HistoricalRun(s@),
            LocalAgentRegistryError::ControllerRequired(s) =>
                LocalAgentRegistryError::ControllerRequired(s@),
            LocalAgentRegistryError::ControllerOwnedByAnotherRun(s) =>
                LocalAgentRegistryError::ControllerOwnedByAnotherRun(s@),
            LocalAgentRegistryError::DuplicateSiblingName(s) =>
                LocalAgentRegistryError::DuplicateSiblingName(s@),
            LocalAgentRegistryError::FanoutLimit { requested, limit } =>
                LocalAgentRegistryError::FanoutLimit { requested, limit },
            LocalAgentRegistryError::DepthLimit { requested, limit } =>
                LocalAgentRegistryError::DepthLimit { requested, limit },
            LocalAgentRegistryError::ConcurrentLimit { limit } =>
                LocalAgentRegistryError::ConcurrentLimit { limit },
            LocalAgentRegistryError::QueueFull { run_id, limit } =>
                LocalAgentRegistryError::QueueFull { run_id: run_id@, limit },
            LocalAgentRegistryError::ModelUnavailable => LocalAgentRegistryError::ModelUnavailable,
            LocalAgentRegistryError::ToolsUnavailable => LocalAgentRegistryError::ToolsUnavailable,
            LocalAgentRegistryError::WorkingDirectoryUnavailable(s) =>
                LocalAgentRegistryError::WorkingDirectoryUnavailable(s@),
            LocalAgentRegistryError::UnsupportedHarness(h) =>
                LocalAgentRegistryError::UnsupportedHarness(h),
            LocalAgentRegistryError::IdempotencyConflict(s) =>
                LocalAgentRegistryError::IdempotencyConflict(s@),
            LocalAgentRegistryError::DuplicateConversation(s) =>
                LocalAgentRegistryError::DuplicateConversation(s@),
            LocalAgentRegistryError::InvalidRunId => LocalAgentRegistryError::InvalidRunId,
            LocalAgentRegistryError::InvalidTopology(s) =>
                LocalAgentRegistryError::InvalidTopology(s@),
        }
    }
}

// ---------------------------------------------------------------------------
// The registry and its model.

/// A run with the messages waiting for its controller.
#[derive(Debug)]
struct RunEntry {
    run: LocalAgentRun,
    queue: VecDeque<LocalAgentMessageEnvelope>,
}

/// A registered run with its waiting messages, oldest first.
#[verifier::ext_equal]
pub struct EntryModel {
    pub run: RunModel,
    pub queue: Seq<MessageModel>,
}

/// What a list of envelopes holds.
pub open spec fn envelopes(s: Seq<LocalAgentMessageEnvelope>) -> Seq<MessageModel> {
    Seq::new(s.len(), |i: int| s[i]@)
}

impl RunEntry {
    spec fn model(&self) -> EntryModel {
        EntryModel { run: self.run@, queue: envelopes(self.queue@) }
    }
}

spec fn entry_models(s: Seq<RunEntry>) -> Seq<EntryModel> {
    Seq::new(s.len(), |i: int| s[i].model())
}

/// Which run an action or request key has produced.
#[derive(Debug)]
struct IdempotencyEntry {
    key: String,
    run_id: String,
}

spec fn key_models(s: Seq<IdempotencyEntry>) -> Seq<(Seq<char>, Seq<char>)> {
    Seq::new(s.len(), |i: int| (s[i].key@, s[i].run_id@))
}

/// A process-local registry for live child controllers and their bounded
/// message queues.
#[derive(Debug)]
pub struct LocalAgentRegistry {
    entries: Vec<RunEntry>,
    idempotency: Vec<IdempotencyEntry>,
    next_message_sequence: u64,
    limits: LocalAgentLimits,
}

/// The state of a registry: the runs in the order of their registration, the
/// run that each action or request key has produced, the number of the next
/// message and the limits.
#[verifier::ext_equal]
pub struct RegistryModel {
    pub entries: Seq<EntryModel>,
    pub idempotency: Seq<(Seq<char>, Seq<char>)>,
    pub next_message_sequence: u64,
    pub limits: LocalAgentLimits,
}

impl View for LocalAgentRegistry {
    type V = RegistryModel;

    closed spec fn view(&self) -> RegistryModel {
        RegistryModel {
            entries: entry_models(self.entries@),
            idempotency: key_models(self.idempotency@),
            next_message_sequence: self.next_message_sequence,
            limits: self.limits,
        }
    }
}

/// Whether a run of that identifier is registered.
pub open spec fn has_run(entries: Seq<EntryModel>, run_id: Seq<char>) -> bool {
    exists|i: int| 0 <= i < entries.len() && (#[trigger] entries[i]).run.run_id == run_id
}

/// The position of the run of that identifier.
pub open spec fn run_position(entries: Seq<EntryModel>, run_id: Seq<char>) -> int {
    choose|i: int| 0 <= i < entries.len() && (#[trigger] entries[i]).run.run_id == run_id
}

/// The run of that identifier.
pub open spec fn run_of(entries: Seq<EntryModel>, run_id: Seq<char>) -> RunModel {
    entries[run_position(entries, run_id)].run
}

/// Whether the conversation has a run.
pub open spec fn has_conversation(entries: Seq<EntryModel>, id: AIConversationId) -> bool {
    exists|i: int| 0 <= i < entries.len() && (#[trigger] entries[i]).run.conversation_id == id
}

/// The position of the conversation's run.
pub open spec fn conversation_position(entries: Seq<EntryModel>, id: AIConversationId) -> int {
    choose|i: int| 0 <= i < entries.len() && (#[trigger] entries[i]).run.conversation_id == id
}

/// Whether the key has produced a run.
pub open spec fn has_key(keys: Seq<(Seq<char>, Seq<char>)>, key: Seq<char>) -> bool {
    exists|i: int| 0 <= i < keys.len() && (#[trigger] keys[i]).0 == key
}

/// The position of the key.
pub open spec fn key_position(keys: Seq<(Seq<char>, Seq<char>)>, key: Seq<char>) -> int {
    choose|i: int| 0 <= i < keys.len() && (#[trigger] keys[i]).0 == key
}

pub open spec fn unique_runs(entries: Seq<EntryModel>) -> bool {
    forall|i: int, j: int|
        #![trigger entries[i], entries[j]]
        0 <= i < j < entries.len() ==> entries[i].run.run_id != entries[j].run.run_id
}

pub open spec fn unique_conversations(entries: Seq<EntryModel>) -> bool {
    forall|i: int, j: int|
        #![trigger entries[i], entries[j]]
        0 <= i < j < entries.len() ==> entries[i].run.conversation_id
            != entries[j].run.conversation_id
}

pub open spec fn unique_keys(keys: Seq<(Seq<char>, Seq<char>)>) -> bool {
    forall|i: int, j: int|
        #![trigger keys[i], keys[j]]
        0 <= i < j < keys.len() ==> keys[i].0 != keys[j].0
}

impl RegistryModel {
    /// What every operation keeps: run and conversation identifiers are
    /// unique, a key leads to a registered run, no queue exceeds its limit, no
    /// run is nested deeper than there are runs, and the listed children of a
    /// run are registered, name it as their parent and stand in the order of
    /// their registration, each once.
    pub open spec fn valid(self) -> bool {
        &&& unique_runs(self.entries)
        &&& unique_conversations(self.entries)
        &&& unique_keys(self.idempotency)
        &&& forall|i: int|
            0 <= i < self.idempotency.len() ==> has_run(
                self.entries,
                (#[trigger] self.idempotency[i]).1,
            )
        &&& forall|i: int|
            0 <= i < self.entries.len() ==> (#[trigger] self.entries[i]).queue.len()
                <= self.limits.max_pending_messages
        &&& forall|i: int|
            0 <= i < self.entries.len() ==> (#[trigger] self.entries[i]).run.depth
                < self.entries.len()
        &&& children_linked(self.entries)
        &&& children_ordered(self.entries)
    }
}

/// Whether the listed children of every run are registered and name it as
/// their parent.
pub open spec fn children_linked(entries: Seq<EntryModel>) -> bool {
    forall|i: int, k: int|
        0 <= i < entries.len() && 0 <= k < entries[i].run.child_run_ids.len() ==> {
            let child = #[trigger] entries[i].run.child_run_ids[k];
            has_run(entries, child) && run_of(entries, child).parent_run_id == Some(
                entries[i].run.run_id,
            )
        }
}

/// Whether the children of every run are listed in the order of their
/// registration, hence each once.
pub open spec fn children_ordered(entries: Seq<EntryModel>) -> bool {
    forall|i: int, k: int, l: int|
        #![trigger entries[i].run.child_run_ids[k], entries[i].run.child_run_ids[l]]
        0 <= i < entries.len() && 0 <= k < l < entries[i].run.child_run_ids.len()
            ==> run_position(entries, entries[i].run.child_run_ids[k]) < run_position(
            entries,
            entries[i].run.child_run_ids[l],
        )
}

impl LocalAgentRegistry {
    pub open spec fn wf(&self) -> bool {
        self@.valid()
    }
}

proof fn lemma_run_position(entries: Seq<EntryModel>, i: int)
    requires
        unique_runs(entries),
        0 <= i < entries.len(),
    ensures
        has_run(entries, entries[i].run.run_id),
        run_position(entries, entries[i].run.run_id) == i,
{
    let id = entries[i].run.run_id;
    let p = run_position(entries, id);
    assert(entries[i].run.run_id == id);
    assert(0 <= p < entries.len() && entries[p].run.run_id == id);
    if p < i {
        assert(entries[p].run.run_id != entries[i].run.run_id);
    } else if i < p {
        assert(entries[i].run.run_id != entries[p].run.run_id);
    }
}

proof fn lemma_conversation_position(entries: Seq<EntryModel>, i: int)
    requires
        unique_conversations(entries),
        0 <= i < entries.len(),
    ensures
        has_conversation(entries, entries[i].run.conversation_id),
        conversation_position(entries, entries[i].run.conversation_id) == i,
{
    let id = entries[i].run.conversation_id;
    let p = conversation_position(entries, id);
    assert(entries[i].run.conversation_id == id);
    assert(0 <= p < entries.len() && entries[p].run.conversation_id == id);
    if p < i {
        assert(entries[p].run.conversation_id != entries[i].run.conversation_id);
    } else if i < p {
        assert(entries[i].run.conversation_id != entries[p].run.conversation_id);
    }
}

proof fn lemma_key_position(keys: Seq<(Seq<char>, Seq<char>)>, i: int)
    requires
        unique_keys(keys),
        0 <= i < keys.len(),
    ensures
        has_key(keys, keys[i].0),
        key_position(keys, keys[i].0) == i,
{
    let key = keys[i].0;
    let p = key_position(keys, key);
    assert(keys[i].0 == key);
    assert(0 <= p < keys.len() && keys[p].0 == key);
    if p < i {
        assert(keys[p].0 != keys[i].0);
    } else if i < p {
        assert(keys[i].0 != keys[p].0);
    }
}

impl LocalAgentRegistry {
    /// The position of a run, if it is registered.
    fn find_run(&self, run_id: &str) -> (r: Option<usize>)
        requires
            unique_runs(self@.entries),
        ensures
            r is Some <==> has_run(self@.entries, run_id@),
            r matches Some(i) ==> i < self.entries.len() && i == run_position(
                self@.entries,
                run_id@,
            ) && self@.entries[i as int].run.run_id == run_id@,
    {
        let mut i: usize = 0;
        while i < self.entries.len()
            invariant
                i <= self.entries.len(),
                forall|j: int|
                    0 <= j < i ==> (#[trigger] self@.entries[j]).run.run_id != run_id@,
                unique_runs(self@.entries),
            decreases self.entries.len() - i,
        {
            assert(self@.entries[i as int].run.run_id == self.entries@[i as int].run.run_id@);
            if text::same_text(self.entries[i].run.run_id.as_str(), run_id) {
                proof {
                    lemma_run_position(self@.entries, i as int);
                }
                return Some(i);
            }
            i += 1;
        }
        None
    }

    /// The position of a conversation's run, if it has one.
    fn find_conversation(&self, id: AIConversationId) -> (r: Option<usize>)
        requires
            unique_conversations(self@.entries),
        ensures
            r is Some <==> has_conversation(self@.entries, id),
            r matches Some(i) ==> i < self.entries.len() && i == conversation_position(
                self@.entries,
                id,
            ) && self@.entries[i as int].run.conversation_id == id,
    {
        let mut i: usize = 0;
        while i < self.entries.len()
            invariant
                i <= self.entries.len(),
                forall|j: int|
                    0 <= j < i ==> (#[trigger] self@.entries[j]).run.conversation_id != id,
                unique_conversations(self@.entries),
            decreases self.entries.len() - i,
        {
            assert(self@.entries[i as int].run.conversation_id
                == self.entries@[i as int].run.conversation_id);
            if self.entries[i].run.conversation_id == id {
                proof {
                    lemma_conversation_position(self@.entries, i as int);
                }
                return Some(i);
            }
            i += 1;
        }
        None
    }

    /// The position of a key, if it has produced a run.
    fn find_key(&self, key: &str) -> (r: Option<usize>)
        requires
            unique_keys(self@.idempotency),
        ensures
            r is Some <==> has_key(self@.idempotency, key@),
            r matches Some(i) ==> i < self.idempotency.len() && i == key_position(
                self@.idempotency,
                key@,
            ) && self@.idempotency[i as int].0 == key@,
    {
        let mut i: usize = 0;
        while i < self.idempotency.len()
            invariant
                i <= self.idempotency.len(),
                forall|j: int| 0 <= j < i ==> (#[trigger] self@.idempotency[j]).0 != key@,
                unique_keys(self@.idempotency),
            decreases self.idempotency.len() - i,
        {
            assert(self@.idempotency[i as int].0 == self.idempotency@[i as int].key@);
            if text::same_text(self.idempotency[i].key.as_str(), key) {
                proof {
                    lemma_key_position(self@.idempotency, i as int);
                }
                return Some(i);
            }
            i += 1;
        }
        None
    }
}

// ---------------------------------------------------------------------------
// Topology.

/// How the chain of a run's parents ends.
pub enum ChainEnd {
    /// At a run without a parent, that many steps away.
    Root(nat),
    /// At a run whose parent, of that identifier, is not registered.
    Dangling(Seq<char>),
    /// Not within the steps allowed.
    Endless,
}

/// Follows the parents of the run at position `at`, over at most `steps`
/// registered parents.
pub open spec fn chain_end(entries: Seq<EntryModel>, at: int, steps: nat) -> ChainEnd
    decreases steps,
{
    match entries[at].run.parent_run_id {
        None => ChainEnd::Root(0),
        Some(parent) => if !has_run(entries, parent) {
            ChainEnd::Dangling(parent)
        } else if steps == 0 {
            ChainEnd::Endless
        } else {
            match chain_end(entries, run_position(entries, parent), (steps - 1) as nat) {
                ChainEnd::Root(n) => ChainEnd::Root(n + 1),
                end => end,
            }
        },
    }
}

/// How the chain of parents of a registered run ends. A chain over all the
/// other runs that has not ended has come back to a run it has passed.
pub open spec fn full_chain(entries: Seq<EntryModel>, at: int) -> ChainEnd {
    chain_end(entries, at, (entries.len() - 1) as nat)
}

/// The nesting depth of a run: its distance from the root, zero where a parent
/// is missing, none where the chain of parents is a cycle.
pub open spec fn topology_depth(entries: Seq<EntryModel>, at: int) -> Option<nat> {
    match full_chain(entries, at) {
        ChainEnd::Root(n) => Some(n),
        ChainEnd::Dangling(_) => Some(0),
        ChainEnd::Endless => None,
    }
}

/// The depth that a rebuilt topology records.
pub open spec fn rebuilt_depth(entries: Seq<EntryModel>, at: int) -> nat {
    match topology_depth(entries, at) {
        Some(n) => n,
        None => 0,
    }
}

/// The children of `parent` among the first `n` runs, in the order of
/// registration, without the runs on a cycle or below one.
pub open spec fn rebuilt_children(entries: Seq<EntryModel>, parent: Seq<char>, n: int) -> Seq<
    Seq<char>,
>
    decreases n,
{
    if n <= 0 {
        Seq::empty()
    } else {
        let init = rebuilt_children(entries, parent, n - 1);
        let run = entries[n - 1].run;
        if topology_depth(entries, n - 1) is Some && run.parent_run_id == Some(parent) {
            init.push(run.run_id)
        } else {
            init
        }
    }
}

/// The runs with depths and children computed anew from the parents.
pub open spec fn rebuilt(entries: Seq<EntryModel>) -> Seq<EntryModel> {
    Seq::new(
        entries.len(),
        |i: int|
            EntryModel {
                run: RunModel {
                    depth: rebuilt_depth(entries, i) as usize,
                    child_run_ids: rebuilt_children(
                        entries,
                        entries[i].run.run_id,
                        entries.len() as int,
                    ),
                    ..entries[i].run
                },
                queue: entries[i].queue,
            },
    )
}

proof fn lemma_chain_bound(entries: Seq<EntryModel>, at: int, steps: nat)
    ensures
        chain_end(entries, at, steps) matches ChainEnd::Root(n) ==> n <= steps,
    decreases steps,
{
    match entries[at].run.parent_run_id {
        None => {},
        Some(parent) => {
            if has_run(entries, parent) && steps > 0 {
                lemma_chain_bound(entries, run_position(entries, parent), (steps - 1) as nat);
            }
        },
    }
}

proof fn lemma_depth_bound(entries: Seq<EntryModel>, at: int)
    requires
        0 <= at < entries.len(),
    ensures
        rebuilt_depth(entries, at) < entries.len(),
{
    lemma_chain_bound(entries, at, (entries.len() - 1) as nat);
}

/// The end of a run's parent chain in running code.
enum FoundEnd {
    Root(usize),
    Dangling(String),
    Endless,
}

impl FoundEnd {
    spec fn model(self) -> ChainEnd {
        match self {
            FoundEnd::Root(n) => ChainEnd::Root(n as nat),
            FoundEnd::Dangling(s) => ChainEnd::Dangling(s@),
            FoundEnd::Endless => ChainEnd::Endless,
        }
    }
}

impl LocalAgentRegistry {
    fn follow_chain(&self, at: usize) -> (r: FoundEnd)
        requires
            unique_runs(self@.entries),
            at < self.entries.len(),
        ensures
            r.model() == full_chain(self@.entries, at as int),
            r matches FoundEnd::Root(n) ==> n < self.entries.len(),
    {
        let mut current: usize = at;
        let mut depth: usize = 0;
        let ghost total = full_chain(self@.entries, at as int);
        while depth < self.entries.len()
            invariant
                unique_runs(self@.entries),
                depth < self.entries.len(),
                current < self.entries.len(),
                total == full_chain(self@.entries, at as int),
                ({
                    let rest = chain_end(
                        self@.entries,
                        current as int,
                        (self.entries.len() - 1 - depth) as nat,
                    );
                    match rest {
                        ChainEnd::Root(n) => total == ChainEnd::Root(n + depth as nat),
                        end => total == end,
                    }
                }),
            decreases self.entries.len() - depth,
        {
            assert(self@.entries[current as int].run == self.entries@[current as int].run@);
            match &self.entries[current].run.parent_run_id {
                None => {
                    return FoundEnd::Root(depth);
                },
                Some(parent) => {
                    match self.find_run(parent.as_str()) {
                        None => {
                            return FoundEnd::Dangling(parent.clone());
                        },
                        Some(next) => {
                            if depth == self.entries.len() - 1 {
                                return FoundEnd::Endless;
                            }
                            current = next;
                            depth += 1;
                        },
                    }
                },
            }
        }
        FoundEnd::Endless
    }

    /// The depth of the run at a position, as the topology gives it.
    fn validated_topology_depth(&self, at: usize) -> (r: Option<usize>)
        requires
            unique_runs(self@.entries),
            at < self.entries.len(),
        ensures
            match r {
                Some(n) => topology_depth(self@.entries, at as int) == Some(n as nat) && n
                    < self.entries.len(),
                None => topology_depth(self@.entries, at as int) is None,
            },
    {
        match self.follow_chain(at) {
            FoundEnd::Root(n) => Some(n),
            FoundEnd::Dangling(_) => Some(0),
            FoundEnd::Endless => None,
        }
    }

    /// The children of the run of that identifier, from the parents.
    fn collect_children(&self, parent: &str) -> (r: Vec<String>)
        requires
            unique_runs(self@.entries),
        ensures
            text::texts(r@) == rebuilt_children(
                self@.entries,
                parent@,
                self@.entries.len() as int,
            ),
    {
        let mut out: Vec<String> = Vec::new();
        let mut i: usize = 0;
        assert(text::texts(out@) =~= Seq::<Seq<char>>::empty());
        while i < self.entries.len()
            invariant
                unique_runs(self@.entries),
                i <= self.entries.len(),
                text::texts(out@) == rebuilt_children(self@.entries, parent@, i as int),
            decreases self.entries.len() - i,
        {
            let ghost before = out@;
            let run = &self.entries[i].run;
            assert(self@.entries[i as int].run == run@);
            if self.validated_topology_depth(i).is_some() {
                if let Some(named) = &run.parent_run_id {
                    if text::same_text(named.as_str(), parent) {
                        out.push(run.run_id.clone());
                        assert(text::texts(out@) =~= text::texts(before).push(run.run_id@));
                    }
                }
            }
            i += 1;
        }
        out
    }
}

proof fn lemma_entries_update(before: Seq<RunEntry>, i: int, entry: RunEntry)
    requires
        0 <= i < before.len(),
    ensures
        entry_models(before.update(i, entry)) == entry_models(before).update(i, entry.model()),
{
    assert(entry_models(before.update(i, entry)) =~= entry_models(before).update(
        i,
        entry.model(),
    ));
}

proof fn lemma_entries_push(before: Seq<RunEntry>, entry: RunEntry)
    ensures
        entry_models(before.push(entry)) == entry_models(before).push(entry.model()),
{
    assert(entry_models(before.push(entry)) =~= entry_models(before).push(entry.model()));
}

impl LocalAgentRegistry {
    /// Computes depths and children anew from the parents.
    fn rebuild_topology(&mut self)
        requires
            unique_runs(old(self)@.entries),
            unique_conversations(old(self)@.entries),
        ensures
            final(self)@ == (RegistryModel {
                entries: rebuilt(old(self)@.entries),
                ..old(self)@
            }),
    {
        let ghost before = self.entries@;
        let ghost models = self@.entries;
        let count: usize = self.entries.len();
        let mut depths: Vec<usize> = Vec::new();
        let mut children: Vec<Vec<String>> = Vec::new();
        let mut i: usize = 0;
        while i < count
            invariant
                i <= count == self.entries.len(),
                depths.len() == i,
                children.len() == i,
                unique_runs(self@.entries),
                models == self@.entries,
                before == self.entries@,
                forall|j: int|
                    0 <= j < i ==> #[trigger] depths@[j] == rebuilt_depth(models, j),
                forall|j: int|
                    0 <= j < i ==> text::texts((#[trigger] children@[j])@) == rebuilt_children(
                        models,
                        models[j].run.run_id,
                        count as int,
                    ),
            decreases count - i,
        {
            let depth: usize = match self.validated_topology_depth(i) {
                Some(n) => n,
                None => 0,
            };
            depths.push(depth);
            assert(models[i as int].run.run_id == self.entries@[i as int].run.run_id@);
            children.push(self.collect_children(self.entries[i].run.run_id.as_str()));
            i += 1;
        }
        let mut k: usize = 0;
        while k < count
            invariant
                k <= count == self.entries.len() == depths.len() == children.len(),
                before.len() == count,
                models == entry_models(before),
                self.idempotency == old(self).idempotency,
                self.next_message_sequence == old(self).next_message_sequence,
                self.limits == old(self).limits,
                forall|j: int|
                    0 <= j < count ==> #[trigger] depths@[j] == rebuilt_depth(models, j),
                forall|j: int|
                    0 <= j < count ==> text::texts((#[trigger] children@[j])@)
                        == rebuilt_children(models, models[j].run.run_id, count as int),
                forall|j: int|
                    0 <= j < k ==> (#[trigger] self.entries@[j]).model() == rebuilt(models)[j],
                forall|j: int| k <= j < count ==> #[trigger] self.entries@[j] == before[j],
            decreases count - k,
        {
            self.entries[k].run.depth = depths[k];
            self.entries[k].run.child_run_ids = text::clone_strings(&children[k]);
            proof {
                lemma_depth_bound(models, k as int);
                assert(depths@[k as int] == rebuilt_depth(models, k as int));
                assert(text::texts(children@[k as int]@) == rebuilt_children(
                    models,
                    models[k as int].run.run_id,
                    count as int,
                ));
                assert(before[k as int].model() == models[k as int]);
                assert(self.entries@[k as int].model() =~= rebuilt(models)[k as int]);
            }
            k += 1;
        }
        assert(self@.entries =~= rebuilt(models));
    }
}

proof fn lemma_rebuilt(entries: Seq<EntryModel>)
    requires
        unique_runs(entries),
    ensures
        unique_runs(rebuilt(entries)),
        children_linked(rebuilt(entries)),
        children_ordered(rebuilt(entries)),
        forall|i: int|
            0 <= i < entries.len() ==> (#[trigger] rebuilt(entries)[i]).run.depth < entries.len(),
        forall|id: Seq<char>| has_run(rebuilt(entries), id) == #[trigger] has_run(entries, id),
{
    let after = rebuilt(entries);
    assert forall|i: int, j: int|
        #![trigger after[i], after[j]]
        0 <= i < j < after.len() implies after[i].run.run_id != after[j].run.run_id by {
        assert(entries[i].run.run_id != entries[j].run.run_id);
    }
    assert forall|i: int| 0 <= i < entries.len() implies (#[trigger] after[i]).run.depth
        < entries.len() by {
        lemma_depth_bound(entries, i);
    }
    assert forall|id: Seq<char>| has_run(after, id) == #[trigger] has_run(entries, id) by {
        if has_run(after, id) {
            let i = run_position(after, id);
            assert(entries[i].run.run_id == id);
        }
        if has_run(entries, id) {
            let i = run_position(entries, id);
            assert(after[i].run.run_id == id);
        }
    }
    assert forall|i: int, k: int|
        0 <= i < after.len() && 0 <= k < after[i].run.child_run_ids.len() implies ({
        let child = #[trigger] after[i].run.child_run_ids[k];
        has_run(after, child) && run_of(after, child).parent_run_id == Some(after[i].run.run_id)
    }) by {
        let n = lemma_rebuilt_child(entries, entries[i].run.run_id, entries.len() as int, k);
        assert(after[n].run.run_id == entries[n].run.run_id);
        lemma_run_position(after, n);
    }
    assert forall|i: int, k: int, l: int|
        #![trigger after[i].run.child_run_ids[k], after[i].run.child_run_ids[l]]
        0 <= i < after.len() && 0 <= k < l < after[i].run.child_run_ids.len() implies run_position(
        after,
        after[i].run.child_run_ids[k],
    ) < run_position(after, after[i].run.child_run_ids[l]) by {
        let (a, b) = lemma_rebuilt_order(
            entries,
            entries[i].run.run_id,
            entries.len() as int,
            k,
            l,
        );
        assert(after[a].run.run_id == entries[a].run.run_id);
        assert(after[b].run.run_id == entries[b].run.run_id);
        lemma_run_position(after, a);
        lemma_run_position(after, b);
    }
}

/// Of two collected children, the one listed first was registered first.
proof fn lemma_rebuilt_order(
    entries: Seq<EntryModel>,
    parent: Seq<char>,
    n: int,
    k: int,
    l: int,
) -> (r: (int, int))
    requires
        0 <= n <= entries.len(),
        0 <= k < l < rebuilt_children(entries, parent, n).len(),
    ensures
        0 <= r.0 < r.1 < n,
        entries[r.0].run.run_id == rebuilt_children(entries, parent, n)[k],
        entries[r.1].run.run_id == rebuilt_children(entries, parent, n)[l],
    decreases n,
{
    let init = rebuilt_children(entries, parent, n - 1);
    if l < init.len() {
        lemma_rebuilt_order(entries, parent, n - 1, k, l)
    } else {
        let at = lemma_rebuilt_child(entries, parent, n - 1, k);
        (at, n - 1)
    }
}

/// Every collected child is a run that names the parent.
proof fn lemma_rebuilt_child(
    entries: Seq<EntryModel>,
    parent: Seq<char>,
    n: int,
    k: int,
) -> (at: int)
    requires
        0 <= n <= entries.len(),
        0 <= k < rebuilt_children(entries, parent, n).len(),
    ensures
        0 <= at < n,
        entries[at].run.run_id == rebuilt_children(entries, parent, n)[k],
        entries[at].run.parent_run_id == Some(parent),
    decreases n,
{
    let init = rebuilt_children(entries, parent, n - 1);
    if k < init.len() {
        lemma_rebuilt_child(entries, parent, n - 1, k)
    } else {
        n - 1
    }
}

// ---------------------------------------------------------------------------
// Preflight.

/// Whether a live run among `ids` has that name.
pub open spec fn live_name_in_use(
    entries: Seq<EntryModel>,
    ids: Seq<Seq<char>>,
    name: Seq<char>,
) -> bool {
    exists|k: int|
        0 <= k < ids.len() && has_run(entries, #[trigger] ids[k]) && !run_of(
            entries,
            ids[k],
        ).status.terminal() && run_of(entries, ids[k]).name == name
}

/// The number of live runs among `ids`.
pub open spec fn live_count(entries: Seq<EntryModel>, ids: Seq<Seq<char>>) -> nat
    decreases ids.len(),
{
    if ids.len() == 0 {
        0
    } else {
        let rest = live_count(entries, ids.drop_last());
        if has_run(entries, ids.last()) && !run_of(entries, ids.last()).status.terminal() {
            rest + 1
        } else {
            rest
        }
    }
}

/// The number of live runs that have a parent, among the first `n`.
pub open spec fn live_children(entries: Seq<EntryModel>, n: int) -> nat
    decreases n,
{
    if n <= 0 {
        0
    } else {
        let rest = live_children(entries, n - 1);
        let run = entries[n - 1].run;
        if run.parent_run_id is Some && !run.status.terminal() {
            rest + 1
        } else {
            rest
        }
    }
}

/// A sum that stops at the largest machine number.
pub open spec fn saturating_sum(a: int, b: int) -> usize {
    if a + b > usize::MAX {
        usize::MAX
    } else {
        (a + b) as usize
    }
}

/// What the limits say of a request below the given parent depth.
pub open spec fn within_live_limit(m: RegistryModel, q: PreflightModel, depth: usize) -> Result<
    usize,
    ErrorModel,
> {
    if saturating_sum(
        live_children(m.entries, m.entries.len() as int) as int,
        q.requested_fanout as int,
    ) > m.limits.max_live_children {
        Err(LocalAgentRegistryError::ConcurrentLimit { limit: m.limits.max_live_children })
    } else {
        Ok(depth)
    }
}

/// The outcome of a preflight: the depth of the child to be, or the first
/// requirement that is not met.
pub open spec fn preflight_outcome(m: RegistryModel, q: PreflightModel) -> Result<
    usize,
    ErrorModel,
> {
    if text::is_blank(q.name) {
        Err(LocalAgentRegistryError::EmptyName)
    } else if text::is_blank(q.prompt) {
        Err(LocalAgentRegistryError::EmptyPrompt)
    } else if q.requested_fanout == 0 || q.requested_fanout > m.limits.max_fanout {
        Err(
            LocalAgentRegistryError::FanoutLimit {
                requested: q.requested_fanout,
                limit: m.limits.max_fanout,
            },
        )
    } else if !q.model_available {
        Err(LocalAgentRegistryError::ModelUnavailable)
    } else if !q.tools_available {
        Err(LocalAgentRegistryError::ToolsUnavailable)
    } else if q.harness is Unknown || q.harness is Gemini {
        Err(LocalAgentRegistryError::UnsupportedHarness(q.harness))
    } else if q.working_directory is Some && !q.working_directory_exists {
        Err(LocalAgentRegistryError::WorkingDirectoryUnavailable(q.working_directory->0))
    } else {
        match q.parent_run_id {
            None => within_live_limit(m, q, 0),
            Some(parent_id) => {
                if !has_run(m.entries, parent_id) {
                    Err(LocalAgentRegistryError::UnknownRun(parent_id))
                } else {
                    let parent = run_of(m.entries, parent_id);
                    let siblings = live_count(m.entries, parent.child_run_ids);
                    if parent.status.terminal() || parent.controller_owner is None {
                        Err(LocalAgentRegistryError::HistoricalRun(parent_id))
                    } else if live_name_in_use(m.entries, parent.child_run_ids, q.name) {
                        Err(LocalAgentRegistryError::DuplicateSiblingName(q.name))
                    } else if parent.depth + 1 > m.limits.max_depth {
                        Err(
                            LocalAgentRegistryError::DepthLimit {
                                requested: saturating_sum(parent.depth as int, 1),
                                limit: m.limits.max_depth,
                            },
                        )
                    } else if saturating_sum(siblings as int, q.requested_fanout as int)
                        > m.limits.max_fanout {
                        Err(
                            LocalAgentRegistryError::FanoutLimit {
                                requested: saturating_sum(
                                    siblings as int,
                                    q.requested_fanout as int,
                                ),
                                limit: m.limits.max_fanout,
                            },
                        )
                    } else {
                        within_live_limit(m, q, (parent.depth + 1) as usize)
                    }
                }
            },
        }
    }
}

/// A result with its error over character sequences.
pub open spec fn failure_model<T>(r: Result<T, LocalAgentRegistryError>) -> Result<T, ErrorModel> {
    match r {
        Ok(value) => Ok(value),
        Err(error) => Err(error@),
    }
}

impl LocalAgentRegistry {
    /// Whether a live child of the run at a position has that name.
    fn sibling_name_in_use(&self, parent: usize, name: &str) -> (r: bool)
        requires
            self.wf(),
            parent < self.entries.len(),
        ensures
            r == live_name_in_use(
                self@.entries,
                self@.entries[parent as int].run.child_run_ids,
                name@,
            ),
    {
        let ids = &self.entries[parent].run.child_run_ids;
        let ghost models = self@.entries[parent as int].run.child_run_ids;
        assert(models == text::texts(ids@));
        let mut k: usize = 0;
        while k < ids.len()
            invariant
                self.wf(),
                parent < self.entries.len(),
                models == self@.entries[parent as int].run.child_run_ids,
                k <= ids.len(),
                models == text::texts(ids@),
                forall|j: int|
                    0 <= j < k ==> !(has_run(self@.entries, #[trigger] models[j]) && !run_of(
                        self@.entries,
                        models[j],
                    ).status.terminal() && run_of(self@.entries, models[j]).name == name@),
            decreases ids.len() - k,
        {
            assert(models[k as int] == ids@[k as int]@);
            if let Some(i) = self.find_run(ids[k].as_str()) {
                assert(self@.entries[i as int].run == self.entries@[i as int].run@);
                if self.entries[i].run.status.is_live() && text::same_text(
                    self.entries[i].run.name.as_str(),
                    name,
                ) {
                    return true;
                }
            }
            k += 1;
        }
        false
    }

    /// The number of live children of the run at a position.
    fn count_live_siblings(&self, parent: usize) -> (r: usize)
        requires
            self.wf(),
            parent < self.entries.len(),
        ensures
            r == live_count(self@.entries, self@.entries[parent as int].run.child_run_ids),
    {
        let ids = &self.entries[parent].run.child_run_ids;
        let ghost models = self@.entries[parent as int].run.child_run_ids;
        assert(models == text::texts(ids@));
        let mut count: usize = 0;
        let mut k: usize = 0;
        while k < ids.len()
            invariant
                self.wf(),
                count <= k <= ids.len(),
                models == text::texts(ids@),
                count == live_count(self@.entries, models.subrange(0, k as int)),
            decreases ids.len() - k,
        {
            assert(models[k as int] == ids@[k as int]@);
            assert(models.subrange(0, k + 1).drop_last() == models.subrange(0, k as int));
            if let Some(i) = self.find_run(ids[k].as_str()) {
                assert(self@.entries[i as int].run == self.entries@[i as int].run@);
                if self.entries[i].run.status.is_live() {
                    count += 1;
                }
            }
            k += 1;
        }
        assert(models.subrange(0, models.len() as int) == models);
        count
    }

    /// The number of live runs that have a parent.
    fn count_live_children(&self) -> (r: usize)
        ensures
            r == live_children(self@.entries, self@.entries.len() as int),
    {
        let mut count: usize = 0;
        let mut k: usize = 0;
        while k < self.entries.len()
            invariant
                count <= k <= self.entries.len(),
                count == live_children(self@.entries, k as int),
            decreases self.entries.len() - k,
        {
            assert(self@.entries[k as int].run == self.entries@[k as int].run@);
            if self.entries[k].run.parent_run_id.is_some() && self.entries[k].run.status.is_live() {
                count += 1;
            }
            k += 1;
        }
        count
    }

    /// Checks a request against the topology and the limits without changing
    /// anything. The depth of the child to be is returned.
    pub fn preflight(&self, request: &LocalAgentPreflight) -> (r: Result<
        usize,
        LocalAgentRegistryError,
    >)
        requires
            self.wf(),
        ensures
            failure_model(r) == preflight_outcome(self@, request@),
    {
        if text::blank(request.name.as_str()) {
            return Err(LocalAgentRegistryError::EmptyName);
        }
        if text::blank(request.prompt.as_str()) {
            return Err(LocalAgentRegistryError::EmptyPrompt);
        }
        if request.requested_fanout == 0 || request.requested_fanout > self.limits.max_fanout {
            return Err(
                LocalAgentRegistryError::FanoutLimit {
                    requested: request.requested_fanout,
                    limit: self.limits.max_fanout,
                },
            );
        }
        if !request.model_available {
            return Err(LocalAgentRegistryError::ModelUnavailable);
        }
        if !request.tools_available {
            return Err(LocalAgentRegistryError::ToolsUnavailable);
        }
        if matches!(request.harness, Harness::Unknown | Harness::Gemini) {
            return Err(LocalAgentRegistryError::UnsupportedHarness(request.harness));
        }
        if let Some(path) = &request.working_directory {
            if !request.working_directory_exists {
                return Err(LocalAgentRegistryError::WorkingDirectoryUnavailable(path.clone()));
            }
        }
        let mut depth: usize = 0;
        if let Some(parent_run_id) = &request.parent_run_id {
            match self.find_run(parent_run_id.as_str()) {
                None => {
                    return Err(LocalAgentRegistryError::UnknownRun(parent_run_id.clone()));
                },
                Some(at) => {
                    assert(self@.entries[at as int].run == self.entries@[at as int].run@);
                    let parent = &self.entries[at].run;
                    if !parent.status.is_live() || parent.controller_owner.is_none() {
                        return Err(LocalAgentRegistryError::HistoricalRun(parent_run_id.clone()));
                    }
                    if self.sibling_name_in_use(at, request.name.as_str()) {
                        return Err(
                            LocalAgentRegistryError::DuplicateSiblingName(request.name.clone()),
                        );
                    }
                    depth = parent.depth.saturating_add(1);
                    if depth > self.limits.max_depth {
                        return Err(
                            LocalAgentRegistryError::DepthLimit {
                                requested: depth,
                                limit: self.limits.max_depth,
                            },
                        );
                    }
                    let requested: usize = self.count_live_siblings(at).saturating_add(
                        request.requested_fanout,
                    );
                    if requested > self.limits.max_fanout {
                        return Err(
                            LocalAgentRegistryError::FanoutLimit {
                                requested,
                                limit: self.limits.max_fanout,
                            },
                        );
                    }
                },
            }
        }
        let live: usize = self.count_live_children();
        if live.saturating_add(request.requested_fanout) > self.limits.max_live_children {
            return Err(
                LocalAgentRegistryError::ConcurrentLimit { limit: self.limits.max_live_children },
            );
        }
        Ok(depth)
    }
}

// ---------------------------------------------------------------------------
// Registration.

/// Whether the first runs of `after` are those of `before`, with the same
/// identifiers and parents.
spec fn extends(before: Seq<EntryModel>, after: Seq<EntryModel>) -> bool {
    &&& before.len() <= after.len()
    &&& forall|i: int|
        #![trigger before[i]]
        #![trigger after[i]]
        0 <= i < before.len() ==> after[i].run.run_id == before[i].run.run_id
            && after[i].run.parent_run_id == before[i].run.parent_run_id
}

/// A run keeps its position and its parent.
proof fn lemma_extends(before: Seq<EntryModel>, after: Seq<EntryModel>, id: Seq<char>)
    requires
        extends(before, after),
        unique_runs(after),
        has_run(before, id),
    ensures
        has_run(after, id),
        run_position(after, id) == run_position(before, id),
        run_of(after, id).parent_run_id == run_of(before, id).parent_run_id,
{
    let i = run_position(before, id);
    assert(before[i].run.run_id == id);
    assert(after[i].run.run_id == id);
    lemma_run_position(after, i);
}

/// The key that an optional identifier stands for: its trimmed text, unless
/// that is empty.
pub open spec fn key_from(id: Option<String>) -> Seq<Seq<char>> {
    match id {
        Some(s) => if text::is_blank(s@) {
            Seq::empty()
        } else {
            seq![text::trimmed(s@)]
        },
        None => Seq::empty(),
    }
}

impl LocalAgentRegistration {
    /// The keys under which a registration is remembered.
    pub open spec fn keys(&self) -> Seq<Seq<char>> {
        key_from(self.action_id) + key_from(self.request_id)
    }
}

/// The keys with `key` leading to `run_id`.
pub open spec fn with_key(
    known: Seq<(Seq<char>, Seq<char>)>,
    key: Seq<char>,
    run_id: Seq<char>,
) -> Seq<(Seq<char>, Seq<char>)> {
    if has_key(known, key) {
        known.update(key_position(known, key), (key, run_id))
    } else {
        known.push((key, run_id))
    }
}

/// The keys with each of `keys` leading to `run_id`.
pub open spec fn with_keys(
    known: Seq<(Seq<char>, Seq<char>)>,
    keys: Seq<Seq<char>>,
    run_id: Seq<char>,
) -> Seq<(Seq<char>, Seq<char>)>
    decreases keys.len(),
{
    if keys.len() == 0 {
        known
    } else {
        with_key(with_keys(known, keys.drop_last(), run_id), keys.last(), run_id)
    }
}

/// The position of the first of `keys` that has produced a run, or their
/// number.
pub open spec fn first_known(
    known: Seq<(Seq<char>, Seq<char>)>,
    keys: Seq<Seq<char>>,
    from: int,
) -> int
    decreases keys.len() - from,
{
    if from >= keys.len() {
        keys.len() as int
    } else if has_key(known, keys[from]) {
        from
    } else {
        first_known(known, keys, from + 1)
    }
}

/// The runs after `run` has been added below its parent.
pub open spec fn with_child(entries: Seq<EntryModel>, run: RunModel) -> Seq<EntryModel> {
    let linked = match run.parent_run_id {
        Some(parent) if has_run(entries, parent) => {
            let at = run_position(entries, parent);
            let entry = entries[at];
            entries.update(
                at,
                EntryModel {
                    run: RunModel {
                        child_run_ids: entry.run.child_run_ids.push(run.run_id),
                        ..entry.run
                    },
                    queue: entry.queue,
                },
            )
        },
        _ => entries,
    };
    linked.push(EntryModel { run, queue: Seq::empty() })
}

/// The run that a registration creates.
pub open spec fn registered_run(
    request: LocalAgentRegistration,
    run_id: Seq<char>,
    depth: usize,
    cancellation: LocalAgentCancellationHandle,
) -> RunModel {
    RunModel {
        run_id,
        conversation_id: request.conversation_id,
        terminal_surface_id: request.terminal_surface_id,
        pane_id: request.pane_id,
        parent_run_id: text::text_opt(request.parent_run_id),
        child_run_ids: Seq::empty(),
        name: request.name@,
        harness: request.harness,
        status: LocalAgentStatus::Starting,
        depth,
        controller_owner: text::text_opt(request.controller_owner),
        cancellation,
    }
}

/// The identifier of the run to be: the requested one unless it is blank, else
/// the allocated one.
pub open spec fn chosen_run_id(request: LocalAgentRegistration, allocated: Seq<char>) -> Seq<char> {
    match request.run_id {
        Some(id) if !text::is_blank(id@) => id@,
        _ => allocated,
    }
}

/// What a registration answers: an earlier run, a new one of that identifier
/// and depth, or an error.
pub enum RegistrationAnswer {
    Earlier(RunModel),
    Created(Seq<char>, usize),
    Refused(ErrorModel),
}

/// The answer to a registration in the given state, where `allocated` is the
/// identifier at hand for a request that brings none.
pub open spec fn registration_answer(
    m: RegistryModel,
    request: LocalAgentRegistration,
    allocated: Seq<char>,
) -> RegistrationAnswer {
    let keys = request.keys();
    let k = first_known(m.idempotency, keys, 0);
    if k < keys.len() {
        let run = run_of(m.entries, m.idempotency[key_position(m.idempotency, keys[k])].1);
        if run.conversation_id == request.conversation_id && run.name == request.name@
            && run.parent_run_id == text::text_opt(request.parent_run_id) {
            RegistrationAnswer::Earlier(run)
        } else {
            RegistrationAnswer::Refused(LocalAgentRegistryError::IdempotencyConflict(keys[k]))
        }
    } else if has_conversation(m.entries, request.conversation_id) {
        RegistrationAnswer::Refused(
            LocalAgentRegistryError::DuplicateConversation(
                ids::hyphenated(request.conversation_id.0),
            ),
        )
    } else {
        match preflight_outcome(m, request.preflight()) {
            Err(error) => RegistrationAnswer::Refused(error),
            Ok(depth) => {
                let run_id = chosen_run_id(request, allocated);
                if has_run(m.entries, run_id) {
                    RegistrationAnswer::Refused(
                        LocalAgentRegistryError::DuplicateConversation(run_id),
                    )
                } else {
                    RegistrationAnswer::Created(run_id, depth)
                }
            },
        }
    }
}

/// The state after a run has been created for a registration.
pub open spec fn after_registration(
    m: RegistryModel,
    request: LocalAgentRegistration,
    run: RunModel,
) -> RegistryModel {
    RegistryModel {
        entries: with_child(m.entries, run),
        idempotency: with_keys(m.idempotency, request.keys(), run.run_id),
        ..m
    }
}

/// Whether `r` and the state `after` are what a registration in the state
/// `before` comes to.
pub open spec fn registration_done(
    before: RegistryModel,
    request: LocalAgentRegistration,
    allocated: Seq<char>,
    r: Result<LocalAgentRegistrationOutcome, LocalAgentRegistryError>,
    after: RegistryModel,
) -> bool {
    match registration_answer(before, request, allocated) {
        RegistrationAnswer::Earlier(run) => {
            &&& r matches Ok(outcome)
            &&& !outcome.created
            &&& outcome.run@ == run
            &&& after == before
        },
        RegistrationAnswer::Created(run_id, depth) => {
            &&& r matches Ok(outcome)
            &&& outcome.created
            &&& outcome.run@ == registered_run(request, run_id, depth, outcome.run.cancellation)
            &&& after == after_registration(before, request, outcome.run@)
        },
        RegistrationAnswer::Refused(error) => {
            &&& r matches Err(e)
            &&& e@ == error
            &&& after == before
        },
    }
}

proof fn lemma_with_child(entries: Seq<EntryModel>, run: RunModel)
    requires
        unique_runs(entries),
        unique_conversations(entries),
        children_linked(entries),
        children_ordered(entries),
        !has_run(entries, run.run_id),
        !has_conversation(entries, run.conversation_id),
        run.child_run_ids.len() == 0,
        run.parent_run_id != Some(run.run_id),
    ensures
        ({
            let after = with_child(entries, run);
            &&& unique_runs(after)
            &&& unique_conversations(after)
            &&& children_linked(after)
            &&& children_ordered(after)
            &&& extends(entries, after)
            &&& after.len() == entries.len() + 1
            &&& after.last() == (EntryModel { run, queue: Seq::empty() })
            &&& forall|i: int|
                0 <= i < entries.len() ==> (#[trigger] after[i]).run.depth == entries[i].run.depth
                    && after[i].queue == entries[i].queue
        }),
{
    let after = with_child(entries, run);
    let n = entries.len() as int;
    assert(after[n].run == run);
    assert(extends(entries, after));
    assert forall|i: int, j: int|
        #![trigger after[i], after[j]]
        0 <= i < j < after.len() implies after[i].run.run_id != after[j].run.run_id by {
        if j < n {
            assert(entries[i].run.run_id != entries[j].run.run_id);
        } else {
            assert(entries[i].run.run_id == after[i].run.run_id);
        }
    }
    assert forall|i: int, j: int|
        #![trigger after[i], after[j]]
        0 <= i < j < after.len() implies after[i].run.conversation_id
        != after[j].run.conversation_id by {
        if j < n {
            assert(entries[i].run.conversation_id != entries[j].run.conversation_id);
        } else {
            assert(entries[i].run.conversation_id == after[i].run.conversation_id);
        }
    }
    lemma_run_position(after, n);
    assert forall|i: int, k: int|
        0 <= i < after.len() && 0 <= k < after[i].run.child_run_ids.len() implies ({
        let child = #[trigger] after[i].run.child_run_ids[k];
        has_run(after, child) && run_of(after, child).parent_run_id == Some(after[i].run.run_id)
    }) by {
        assert(i < n);
        if k < entries[i].run.child_run_ids.len() {
            let child = entries[i].run.child_run_ids[k];
            assert(after[i].run.child_run_ids[k] == child);
            assert(has_run(entries, child));
            lemma_extends(entries, after, child);
        } else {
            assert(after[i].run.child_run_ids[k] == run.run_id);
        }
    }
    assert forall|i: int, k: int, l: int|
        #![trigger after[i].run.child_run_ids[k], after[i].run.child_run_ids[l]]
        0 <= i < after.len() && 0 <= k < l < after[i].run.child_run_ids.len() implies run_position(
        after,
        after[i].run.child_run_ids[k],
    ) < run_position(after, after[i].run.child_run_ids[l]) by {
        assert(i < n);
        let first = entries[i].run.child_run_ids[k];
        assert(after[i].run.child_run_ids[k] == first);
        assert(has_run(entries, first));
        lemma_extends(entries, after, first);
        let p = run_position(entries, first);
        assert(0 <= p < n);
        if l < entries[i].run.child_run_ids.len() {
            let second = entries[i].run.child_run_ids[l];
            assert(after[i].run.child_run_ids[l] == second);
            assert(has_run(entries, second));
            lemma_extends(entries, after, second);
        } else {
            assert(after[i].run.child_run_ids[l] == run.run_id);
        }
    }
}

proof fn lemma_with_key(
    known: Seq<(Seq<char>, Seq<char>)>,
    key: Seq<char>,
    run_id: Seq<char>,
    entries: Seq<EntryModel>,
)
    requires
        unique_keys(known),
        has_run(entries, run_id),
        forall|i: int| 0 <= i < known.len() ==> has_run(entries, (#[trigger] known[i]).1),
    ensures
        unique_keys(with_key(known, key, run_id)),
        forall|i: int|
            0 <= i < with_key(known, key, run_id).len() ==> has_run(
                entries,
                (#[trigger] with_key(known, key, run_id)[i]).1,
            ),
{
    let after = with_key(known, key, run_id);
    let at = key_position(known, key);
    assert forall|i: int, j: int|
        #![trigger after[i], after[j]]
        0 <= i < j < after.len() implies after[i].0 != after[j].0 by {
        if has_key(known, key) {
            assert(known[at].0 == key);
            assert(after[i].0 == known[i].0);
            assert(after[j].0 == known[j].0);
        } else if j < known.len() {
            assert(known[i].0 != known[j].0);
        } else {
            assert(known[i].0 == after[i].0);
        }
    }
    assert forall|i: int| 0 <= i < after.len() implies has_run(
        entries,
        (#[trigger] after[i]).1,
    ) by {
        if i < known.len() {
            assert(has_run(entries, known[i].1));
        }
    }
}

/// The trimmed keys of a registration.
fn key_of(id: &Option<String>) -> (r: Vec<String>)
    ensures
        text::texts(r@) == key_from(*id),
{
    let mut out: Vec<String> = Vec::new();
    if let Some(s) = id {
        if !text::blank(s.as_str()) {
            out.push(text::trim(s.as_str()));
        }
    }
    assert(text::texts(out@) =~= key_from(*id));
    out
}

fn idempotency_keys(request: &LocalAgentRegistration) -> (r: Vec<String>)
    ensures
        text::texts(r@) == request.keys(),
{
    let mut out = key_of(&request.action_id);
    let mut more = key_of(&request.request_id);
    let ghost a = out@;
    let ghost b = more@;
    out.append(&mut more);
    assert(text::texts(out@) =~= text::texts(a) + text::texts(b));
    out
}

impl LocalAgentRegistry {
    /// Remembers that a key has produced a run.
    fn remember_key(&mut self, key: &str, run_id: &str)
        requires
            unique_keys(old(self)@.idempotency),
        ensures
            final(self)@ == (RegistryModel {
                idempotency: with_key(old(self)@.idempotency, key@, run_id@),
                ..old(self)@
            }),
            final(self).entries == old(self).entries,
    {
        let ghost before = self.idempotency@;
        match self.find_key(key) {
            Some(i) => {
                self.idempotency[i].run_id = run_id.to_owned();
                assert(key_models(self.idempotency@) =~= key_models(before).update(
                    i as int,
                    (key@, run_id@),
                ));
            },
            None => {
                self.idempotency.push(
                    IdempotencyEntry { key: key.to_owned(), run_id: run_id.to_owned() },
                );
                assert(key_models(self.idempotency@) =~= key_models(before).push((key@, run_id@)));
            },
        }
    }

    /// Adds a run below its parent, with an empty queue.
    fn add_run(&mut self, run: LocalAgentRun)
        requires
            unique_runs(old(self)@.entries),
        ensures
            final(self)@ == (RegistryModel {
                entries: with_child(old(self)@.entries, run@),
                ..old(self)@
            }),
            final(self).idempotency == old(self).idempotency,
    {
        if let Some(parent) = &run.parent_run_id {
            if let Some(at) = self.find_run(parent.as_str()) {
                let ghost before = self.entries@;
                let ghost ids = self.entries@[at as int].run.child_run_ids@;
                self.entries[at].run.child_run_ids.push(run.run_id.clone());
                proof {
                    assert(text::texts(self.entries@[at as int].run.child_run_ids@) =~= text::texts(
                        ids,
                    ).push(run.run_id@));
                    assert(self.entries@ =~= before.update(at as int, self.entries@[at as int]));
                    lemma_entries_update(before, at as int, self.entries@[at as int]);
                }
            }
        }
        let ghost linked = self.entries@;
        let entry = RunEntry { run, queue: VecDeque::new() };
        proof {
            lemma_entries_push(linked, entry);
            assert(envelopes(entry.queue@) =~= Seq::<MessageModel>::empty());
        }
        self.entries.push(entry);
    }

    /// Registers a local child under an identifier allocated beforehand, which
    /// is used unless the request brings one.
    pub fn register_child_as(
        &mut self,
        request: LocalAgentRegistration,
        allocated: String,
    ) -> (r: Result<LocalAgentRegistrationOutcome, LocalAgentRegistryError>)
        requires
            old(self).wf(),
        ensures
            final(self).wf(),
            registration_done(old(self)@, request, allocated@, r, final(self)@),
    {
        let keys = idempotency_keys(&request);
        let ghost models = request.keys();
        let mut k: usize = 0;
        while k < keys.len()
            invariant
                self.wf(),
                *self == *old(self),
                k <= keys.len(),
                text::texts(keys@) == models,
                models == request.keys(),
                first_known(self@.idempotency, models, 0) == first_known(
                    self@.idempotency,
                    models,
                    k as int,
                ),
            decreases keys.len() - k,
        {
            assert(models[k as int] == keys@[k as int]@);
            if let Some(i) = self.find_key(keys[k].as_str()) {
                assert(self@.idempotency[i as int].1 == self.idempotency@[i as int].run_id@);
                assert(has_run(self@.entries, self@.idempotency[i as int].1));
                if let Some(at) = self.find_run(self.idempotency[i].run_id.as_str()) {
                    let existing = &self.entries[at].run;
                    assert(self@.entries[at as int].run == existing@);
                    if existing.conversation_id == request.conversation_id && existing.name
                        == request.name && text::same_text_opt(
                        &existing.parent_run_id,
                        &request.parent_run_id,
                    ) {
                        return Ok(
                            LocalAgentRegistrationOutcome { run: existing.clone(), created: false },
                        );
                    }
                }
                return Err(LocalAgentRegistryError::IdempotencyConflict(keys[k].clone()));
            }
            k += 1;
        }
        if self.find_conversation(request.conversation_id).is_some() {
            return Err(
                LocalAgentRegistryError::DuplicateConversation(request.conversation_id.text()),
            );
        }
        let preflight = LocalAgentPreflight {
            parent_run_id: text::clone_opt(&request.parent_run_id),
            name: request.name.clone(),
            prompt: request.prompt.clone(),
            harness: request.harness,
            model_available: request.model_available,
            tools_available: request.tools_available,
            working_directory: text::clone_opt(&request.working_directory),
            working_directory_exists: request.working_directory_exists,
            requested_fanout: request.requested_fanout,
        };
        assert(preflight@ == request.preflight());
        let depth: usize = match self.preflight(&preflight) {
            Ok(depth) => depth,
            Err(error) => {
                return Err(error);
            },
        };
        let run_id = match &request.run_id {
            Some(id) => if text::blank(id.as_str()) {
                allocated
            } else {
                id.clone()
            },
            None => allocated,
        };
        if self.find_run(run_id.as_str()).is_some() {
            return Err(LocalAgentRegistryError::DuplicateConversation(run_id));
        }
        let run = LocalAgentRun {
            run_id,
            conversation_id: request.conversation_id,
            terminal_surface_id: request.terminal_surface_id,
            pane_id: request.pane_id,
            parent_run_id: text::clone_opt(&request.parent_run_id),
            child_run_ids: Vec::new(),
            name: request.name.clone(),
            harness: request.harness,
            status: LocalAgentStatus::Starting,
            depth,
            controller_owner: text::clone_opt(&request.controller_owner),
            cancellation: LocalAgentCancellationHandle::default(),
        };
        let returned = run.clone();
        proof {
            assert(run@.child_run_ids =~= Seq::<Seq<char>>::empty());
            lemma_with_child(self@.entries, run@);
            if let Some(parent) = run@.parent_run_id {
                let at = run_position(self@.entries, parent);
                assert(self@.entries[at].run.depth < self@.entries.len());
            }
        }
        self.add_run(run);
        let ghost after = self@.entries;
        proof {
            lemma_run_position(after, after.len() - 1);
            assert(with_keys(old(self)@.idempotency, models.subrange(0, 0), returned.run_id@)
                =~= old(self)@.idempotency);
            assert forall|i: int| 0 <= i < self@.idempotency.len() implies has_run(
                after,
                (#[trigger] self@.idempotency[i]).1,
            ) by {
                lemma_extends(old(self)@.entries, after, old(self)@.idempotency[i].1);
            }
        }
        let mut j: usize = 0;
        while j < keys.len()
            invariant
                j <= keys.len(),
                text::texts(keys@) == models,
                self@.entries == after,
                self@.limits == old(self)@.limits,
                self@.next_message_sequence == old(self)@.next_message_sequence,
                has_run(after, returned.run_id@),
                self@.idempotency == with_keys(
                    old(self)@.idempotency,
                    models.subrange(0, j as int),
                    returned.run_id@,
                ),
                unique_keys(self@.idempotency),
                forall|i: int|
                    0 <= i < self@.idempotency.len() ==> has_run(
                        after,
                        (#[trigger] self@.idempotency[i]).1,
                    ),
            decreases keys.len() - j,
        {
            proof {
                assert(models[j as int] == keys@[j as int]@);
                assert(models.subrange(0, j + 1).drop_last() == models.subrange(0, j as int));
                lemma_with_key(self@.idempotency, models[j as int], returned.run_id@, after);
            }
            self.remember_key(keys[j].as_str(), returned.run_id.as_str());
            j += 1;
        }
        proof {
            assert(models.subrange(0, models.len() as int) == models);
            assert forall|i: int| 0 <= i < self@.entries.len() implies (
            #[trigger] self@.entries[i]).queue.len() <= self@.limits.max_pending_messages
                && self@.entries[i].run.depth < self@.entries.len() by {
                if i < old(self)@.entries.len() {
                    assert(after[i].run.depth == old(self)@.entries[i].run.depth);
                }
            }
        }
        Ok(LocalAgentRegistrationOutcome { run: returned, created: true })
    }

    /// Allocates the stable local run identifier before a child process is
    /// launched: the hyphenated form of a random UUID.
    pub fn allocate_run_id() -> (r: String)
        ensures
            ids::is_v4_text(r@),
    {
        ids::random_uuid_text()
    }

    /// Registers a local child synchronously. Callers persist the returned
    /// identifier together with the conversation topology before they launch
    /// the executor.
    pub fn register_child(&mut self, request: LocalAgentRegistration) -> (r: Result<
        LocalAgentRegistrationOutcome,
        LocalAgentRegistryError,
    >)
        requires
            old(self).wf(),
        ensures
            final(self).wf(),
            exists|allocated: u128|
                ids::is_v4(allocated) && registration_done(
                    old(self)@,
                    request,
                    #[trigger] ids::hyphenated(allocated),
                    r,
                    final(self)@,
                ),
    {
        let allocated = LocalAgentRegistry::allocate_run_id();
        self.register_child_as(request, allocated)
    }
}

// ---------------------------------------------------------------------------
// Attachment and restoration.

/// The runs with the run at a position replaced.
pub open spec fn with_run(entries: Seq<EntryModel>, at: int, run: RunModel) -> Seq<EntryModel> {
    entries.update(at, EntryModel { run, queue: entries[at].queue })
}

/// The runs with the queue at a position replaced.
pub open spec fn with_queue(
    entries: Seq<EntryModel>,
    at: int,
    queue: Seq<MessageModel>,
) -> Seq<EntryModel> {
    entries.update(at, EntryModel { run: entries[at].run, queue })
}

/// The depth below an optional parent: one more than the parent's, zero where
/// the parent is not registered.
pub open spec fn depth_below(entries: Seq<EntryModel>, parent: Option<Seq<char>>) -> usize {
    match parent {
        Some(id) if has_run(entries, id) => (run_of(entries, id).depth + 1) as usize,
        _ => 0,
    }
}

/// An entry that keeps identity, parent, children and depth keeps the registry
/// valid.
proof fn lemma_update_valid(m: RegistryModel, at: int, entry: EntryModel)
    requires
        m.valid(),
        0 <= at < m.entries.len(),
        entry.run.run_id == m.entries[at].run.run_id,
        entry.run.conversation_id == m.entries[at].run.conversation_id,
        entry.run.parent_run_id == m.entries[at].run.parent_run_id,
        entry.run.child_run_ids == m.entries[at].run.child_run_ids,
        entry.run.depth == m.entries[at].run.depth,
        entry.queue.len() <= m.limits.max_pending_messages,
    ensures
        (RegistryModel { entries: m.entries.update(at, entry), ..m }).valid(),
{
    let after = m.entries.update(at, entry);
    assert(extends(m.entries, after));
    assert(unique_runs(after)) by {
        assert forall|i: int, j: int|
            #![trigger after[i], after[j]]
            0 <= i < j < after.len() implies after[i].run.run_id != after[j].run.run_id by {
            assert(m.entries[i].run.run_id != m.entries[j].run.run_id);
        }
    }
    assert(unique_conversations(after)) by {
        assert forall|i: int, j: int|
            #![trigger after[i], after[j]]
            0 <= i < j < after.len() implies after[i].run.conversation_id
            != after[j].run.conversation_id by {
            assert(m.entries[i].run.conversation_id != m.entries[j].run.conversation_id);
        }
    }
    assert(children_linked(after)) by {
        assert forall|i: int, k: int|
            0 <= i < after.len() && 0 <= k < after[i].run.child_run_ids.len() implies ({
            let child = #[trigger] after[i].run.child_run_ids[k];
            has_run(after, child) && run_of(after, child).parent_run_id == Some(
                after[i].run.run_id,
            )
        }) by {
            let child = m.entries[i].run.child_run_ids[k];
            assert(has_run(m.entries, child));
            lemma_extends(m.entries, after, child);
        }
    }
    assert(children_ordered(after)) by {
        assert forall|i: int, k: int, l: int|
            #![trigger after[i].run.child_run_ids[k], after[i].run.child_run_ids[l]]
            0 <= i < after.len() && 0 <= k < l < after[i].run.child_run_ids.len() implies run_position(
            after,
            after[i].run.child_run_ids[k],
        ) < run_position(after, after[i].run.child_run_ids[l]) by {
            let first = m.entries[i].run.child_run_ids[k];
            let second = m.entries[i].run.child_run_ids[l];
            assert(has_run(m.entries, first));
            assert(has_run(m.entries, second));
            lemma_extends(m.entries, after, first);
            lemma_extends(m.entries, after, second);
        }
    }
    assert forall|i: int| 0 <= i < m.idempotency.len() implies has_run(
        after,
        (#[trigger] m.idempotency[i]).1,
    ) by {
        lemma_extends(m.entries, after, m.idempotency[i].1);
    }
    assert forall|i: int| 0 <= i < after.len() implies (#[trigger] after[i]).queue.len()
        <= m.limits.max_pending_messages && after[i].run.depth < after.len() by {
        assert(m.entries[i].run.depth < m.entries.len());
    }
}

/// A run added below its parent leaves a valid registry once the topology has
/// been rebuilt.
proof fn lemma_rebuilt_child_valid(m: RegistryModel, run: RunModel)
    requires
        m.valid(),
        !has_run(m.entries, run.run_id),
        !has_conversation(m.entries, run.conversation_id),
        run.child_run_ids.len() == 0,
        run.parent_run_id != Some(run.run_id),
    ensures
        unique_runs(with_child(m.entries, run)),
        unique_conversations(with_child(m.entries, run)),
        (RegistryModel { entries: rebuilt(with_child(m.entries, run)), ..m }).valid(),
{
    let linked = with_child(m.entries, run);
    let after = rebuilt(linked);
    lemma_with_child(m.entries, run);
    lemma_rebuilt(linked);
    assert forall|i: int, j: int|
        #![trigger after[i], after[j]]
        0 <= i < j < after.len() implies after[i].run.conversation_id
        != after[j].run.conversation_id by {
        assert(linked[i].run.conversation_id != linked[j].run.conversation_id);
    }
    assert forall|i: int| 0 <= i < m.idempotency.len() implies has_run(
        after,
        (#[trigger] m.idempotency[i]).1,
    ) by {
        lemma_extends(m.entries, linked, m.idempotency[i].1);
        assert(has_run(linked, m.idempotency[i].1));
    }
    assert forall|i: int| 0 <= i < after.len() implies (#[trigger] after[i]).queue.len()
        <= m.limits.max_pending_messages by {
        if i < m.entries.len() {
            assert(linked[i].queue == m.entries[i].queue);
            assert(m.entries[i].queue.len() <= m.limits.max_pending_messages);
        }
    }
}

/// The identity and the attachment with which a known run is registered.
pub open spec fn attached_run(
    entries: Seq<EntryModel>,
    run_id: Seq<char>,
    conversation_id: AIConversationId,
    terminal_surface_id: Option<EntityId>,
    pane_id: Option<EntityId>,
    parent_run_id: Option<Seq<char>>,
    name: Seq<char>,
    harness: Harness,
    controller_owner: Option<Seq<char>>,
    status: LocalAgentStatus,
    cancellation: LocalAgentCancellationHandle,
) -> RunModel {
    RunModel {
        run_id,
        conversation_id,
        terminal_surface_id,
        pane_id,
        parent_run_id,
        child_run_ids: Seq::empty(),
        name,
        harness,
        status,
        depth: depth_below(entries, parent_run_id),
        controller_owner,
        cancellation,
    }
}

/// Whether two controllers are named and differ.
pub open spec fn owners_conflict(a: Option<Seq<char>>, b: Option<Seq<char>>) -> bool {
    a is Some && b is Some && a != b
}

/// Why a known run cannot be attached to a conversation, if it cannot.
pub open spec fn attachment_error(
    m: RegistryModel,
    run_id: Seq<char>,
    conversation_id: AIConversationId,
    parent_run_id: Option<Seq<char>>,
    controller_owner: Option<Seq<char>>,
) -> Option<ErrorModel> {
    if text::is_blank(run_id) {
        Some(LocalAgentRegistryError::InvalidRunId)
    } else if parent_run_id == Some(run_id) {
        Some(LocalAgentRegistryError::InvalidTopology("a run cannot be its own parent"@))
    } else if has_conversation(m.entries, conversation_id) {
        let existing = m.entries[conversation_position(m.entries, conversation_id)].run;
        if existing.run_id != run_id {
            Some(
                LocalAgentRegistryError::DuplicateConversation(ids::hyphenated(conversation_id.0)),
            )
        } else if owners_conflict(existing.controller_owner, controller_owner) {
            Some(LocalAgentRegistryError::ControllerOwnedByAnotherRun(run_id))
        } else {
            None
        }
    } else if has_run(m.entries, run_id) {
        Some(LocalAgentRegistryError::DuplicateConversation(run_id))
    } else {
        None
    }
}

/// Why a historical run cannot be restored, if it cannot.
pub open spec fn restoration_error(m: RegistryModel, restored: RestoredLocalAgent) -> Option<
    ErrorModel,
> {
    let parent = text::text_opt(restored.parent_run_id);
    if text::is_blank(restored.run_id@) {
        Some(LocalAgentRegistryError::InvalidRunId)
    } else if has_run(m.entries, restored.run_id@) {
        Some(LocalAgentRegistryError::DuplicateConversation(restored.run_id@))
    } else if has_conversation(m.entries, restored.conversation_id) {
        Some(
            LocalAgentRegistryError::DuplicateConversation(
                ids::hyphenated(restored.conversation_id.0),
            ),
        )
    } else if parent == Some(restored.run_id@) {
        Some(LocalAgentRegistryError::InvalidTopology("a run cannot be its own parent"@))
    } else if parent is Some && closes_cycle(m.entries, parent->0, restored.run_id@) {
        Some(LocalAgentRegistryError::InvalidTopology("the parent links form a cycle"@))
    } else {
        None
    }
}

/// Whether the chain of parents that starts at `parent` comes to the run that is
/// about to be registered below it.
pub open spec fn closes_cycle(
    entries: Seq<EntryModel>,
    parent: Seq<char>,
    run_id: Seq<char>,
) -> bool {
    has_run(entries, parent) && match full_chain(entries, run_position(entries, parent)) {
        ChainEnd::Root(_) => false,
        ChainEnd::Dangling(missing) => missing == run_id,
        ChainEnd::Endless => false,
    }
}

impl LocalAgentRegistry {
    /// The depth of a run below an optional parent.
    fn depth_for(&self, parent_run_id: &Option<String>) -> (r: usize)
        requires
            self.wf(),
        ensures
            r == depth_below(self@.entries, text::text_opt(*parent_run_id)),
    {
        if let Some(parent) = parent_run_id {
            if let Some(at) = self.find_run(parent.as_str()) {
                assert(self@.entries[at as int].run == self.entries@[at as int].run@);
                assert(self@.entries[at as int].run.depth < self@.entries.len());
                return self.entries[at].run.depth + 1;
            }
        }
        0
    }

    /// Registers a conversation whose local run identifier was already
    /// persisted. Re-attaching the same conversation is idempotent and does
    /// not create a second controller record. The returned run is the one
    /// before depths and children are computed anew.
    pub fn register_existing(
        &mut self,
        run_id: String,
        conversation_id: AIConversationId,
        terminal_surface_id: Option<EntityId>,
        pane_id: Option<EntityId>,
        parent_run_id: Option<String>,
        name: String,
        harness: Harness,
        controller_owner: Option<String>,
        status: LocalAgentStatus,
    ) -> (r: Result<LocalAgentRun, LocalAgentRegistryError>)
        requires
            old(self).wf(),
        ensures
            final(self).wf(),
            ({
                let m = old(self)@;
                let error = attachment_error(
                    m,
                    run_id@,
                    conversation_id,
                    text::text_opt(parent_run_id),
                    text::text_opt(controller_owner),
                );
                match r {
                    Err(e) => error == Some(e@) && final(self)@ == m,
                    Ok(run) => {
                        &&& error is None
                        &&& if has_conversation(m.entries, conversation_id) {
                            let at = conversation_position(m.entries, conversation_id);
                            let existing = m.entries[at].run;
                            &&& run@ == (RunModel {
                                terminal_surface_id,
                                pane_id,
                                name: name@,
                                harness,
                                controller_owner: match text::text_opt(controller_owner) {
                                    Some(owner) => Some(owner),
                                    None => existing.controller_owner,
                                },
                                status,
                                cancellation: run.cancellation,
                                ..existing
                            })
                            &&& final(self)@ == (RegistryModel {
                                entries: with_run(m.entries, at, run@),
                                ..m
                            })
                        } else {
                            &&& run@ == attached_run(
                                m.entries,
                                run_id@,
                                conversation_id,
                                terminal_surface_id,
                                pane_id,
                                text::text_opt(parent_run_id),
                                name@,
                                harness,
                                text::text_opt(controller_owner),
                                status,
                                run.cancellation,
                            )
                            &&& final(self)@ == (RegistryModel {
                                entries: rebuilt(with_child(m.entries, run@)),
                                ..m
                            })
                        }
                    },
                }
            }),
    {
        if text::blank(run_id.as_str()) {
            return Err(LocalAgentRegistryError::InvalidRunId);
        }
        if let Some(parent) = &parent_run_id {
            if *parent == run_id {
                return Err(
                    LocalAgentRegistryError::InvalidTopology(
                        "a run cannot be its own parent".to_owned(),
                    ),
                );
            }
        }
        if let Some(at) = self.find_conversation(conversation_id) {
            let ghost before = self.entries@;
            assert(self@.entries[at as int].run == before[at as int].run@);
            if !(self.entries[at].run.run_id == run_id) {
                return Err(
                    LocalAgentRegistryError::DuplicateConversation(conversation_id.text()),
                );
            }
            if let (Some(existing), Some(requested)) = (
                &self.entries[at].run.controller_owner,
                &controller_owner,
            ) {
                if !(*existing == *requested) {
                    return Err(LocalAgentRegistryError::ControllerOwnedByAnotherRun(run_id));
                }
            }
            self.entries[at].run.terminal_surface_id = terminal_surface_id;
            self.entries[at].run.pane_id = pane_id;
            self.entries[at].run.name = name;
            self.entries[at].run.harness = harness;
            if controller_owner.is_some() {
                self.entries[at].run.controller_owner = controller_owner;
            }
            self.entries[at].run.status = status;
            self.entries[at].run.cancellation = LocalAgentCancellationHandle::default();
            proof {
                let entry = self.entries@[at as int];
                assert(self.entries@ =~= before.update(at as int, entry));
                lemma_entries_update(before, at as int, entry);
                lemma_update_valid(old(self)@, at as int, entry.model());
            }
            return Ok(self.entries[at].run.clone());
        }
        if self.find_run(run_id.as_str()).is_some() {
            return Err(LocalAgentRegistryError::DuplicateConversation(run_id));
        }
        let depth: usize = self.depth_for(&parent_run_id);
        let run = LocalAgentRun {
            run_id,
            conversation_id,
            terminal_surface_id,
            pane_id,
            parent_run_id,
            child_run_ids: Vec::new(),
            name,
            harness,
            status,
            depth,
            controller_owner,
            cancellation: LocalAgentCancellationHandle::default(),
        };
        let returned = run.clone();
        proof {
            assert(run@.child_run_ids =~= Seq::<Seq<char>>::empty());
            lemma_rebuilt_child_valid(self@, run@);
        }
        self.add_run(run);
        self.rebuild_topology();
        Ok(returned)
    }

    /// Rehydrates persisted topology without claiming that a process survived
    /// restart. Parent links are kept when available; malformed cycles are
    /// rejected. The returned run is the one before depths and children are
    /// computed anew.
    pub fn restore_stopped(&mut self, restored: RestoredLocalAgent) -> (r: Result<
        LocalAgentRun,
        LocalAgentRegistryError,
    >)
        requires
            old(self).wf(),
        ensures
            final(self).wf(),
            match r {
                Err(e) => restoration_error(old(self)@, restored) == Some(e@) && final(self)@
                    == old(self)@,
                Ok(run) => {
                    &&& restoration_error(old(self)@, restored) is None
                    &&& run@ == attached_run(
                        old(self)@.entries,
                        restored.run_id@,
                        restored.conversation_id,
                        restored.terminal_surface_id,
                        restored.pane_id,
                        text::text_opt(restored.parent_run_id),
                        restored.name@,
                        restored.harness,
                        None,
                        LocalAgentStatus::Stopped,
                        run.cancellation,
                    )
                    &&& final(self)@ == (RegistryModel {
                        entries: rebuilt(with_child(old(self)@.entries, run@)),
                        ..old(self)@
                    })
                },
            },
    {
        if text::blank(restored.run_id.as_str()) {
            return Err(LocalAgentRegistryError::InvalidRunId);
        }
        if self.find_run(restored.run_id.as_str()).is_some() {
            return Err(LocalAgentRegistryError::DuplicateConversation(restored.run_id));
        }
        if self.find_conversation(restored.conversation_id).is_some() {
            return Err(
                LocalAgentRegistryError::DuplicateConversation(restored.conversation_id.text()),
            );
        }
        if let Some(parent) = &restored.parent_run_id {
            if *parent == restored.run_id {
                return Err(
                    LocalAgentRegistryError::InvalidTopology(
                        "a run cannot be its own parent".to_owned(),
                    ),
                );
            }
            if let Some(at) = self.find_run(parent.as_str()) {
                let cyclic = match self.follow_chain(at) {
                    FoundEnd::Root(_) => false,
                    FoundEnd::Dangling(missing) => missing == restored.run_id,
                    FoundEnd::Endless => false,
                };
                if cyclic {
                    return Err(
                        LocalAgentRegistryError::InvalidTopology(
                            "the parent links form a cycle".to_owned(),
                        ),
                    );
                }
            }
        }
        let depth: usize = self.depth_for(&restored.parent_run_id);
        let run = LocalAgentRun {
            run_id: restored.run_id,
            conversation_id: restored.conversation_id,
            terminal_surface_id: restored.terminal_surface_id,
            pane_id: restored.pane_id,
            parent_run_id: restored.parent_run_id,
            child_run_ids: Vec::new(),
            name: restored.name,
            harness: restored.harness,
            status: LocalAgentStatus::Stopped,
            depth,
            controller_owner: None,
            cancellation: LocalAgentCancellationHandle::default(),
        };
        let returned = run.clone();
        proof {
            assert(run@.child_run_ids =~= Seq::<Seq<char>>::empty());
            lemma_rebuilt_child_valid(self@, run@);
        }
        self.add_run(run);
        self.rebuild_topology();
        Ok(returned)
    }
}

// ---------------------------------------------------------------------------
// Controllers and status.

/// Why a controller may not act on a run, if it may not.
pub open spec fn owner_error(run: RunModel, owner: Seq<char>) -> Option<ErrorModel> {
    match run.controller_owner {
        Some(current) => if current == owner {
            None
        } else {
            Some(LocalAgentRegistryError::ControllerOwnedByAnotherRun(run.run_id))
        },
        None => Some(LocalAgentRegistryError::ControllerRequired(run.run_id)),
    }
}

/// Why the controller of a run may not act on it, if it may not.
pub open spec fn control_error(m: RegistryModel, run_id: Seq<char>, owner: Seq<char>) -> Option<
    ErrorModel,
> {
    if !has_run(m.entries, run_id) {
        Some(LocalAgentRegistryError::UnknownRun(run_id))
    } else {
        owner_error(run_of(m.entries, run_id), owner)
    }
}

/// The same of an action that needs the run to be live.
pub open spec fn live_control_error(
    m: RegistryModel,
    run_id: Seq<char>,
    owner: Seq<char>,
) -> Option<ErrorModel> {
    match control_error(m, run_id, owner) {
        Some(error) => Some(error),
        None => if run_of(m.entries, run_id).status.terminal() {
            Some(LocalAgentRegistryError::HistoricalRun(run_id))
        } else {
            None
        },
    }
}

/// Why a controller cannot claim a run, if it cannot.
pub open spec fn claim_error(m: RegistryModel, run_id: Seq<char>, owner: Seq<char>) -> Option<
    ErrorModel,
> {
    if text::is_blank(owner) {
        Some(LocalAgentRegistryError::ControllerRequired(run_id))
    } else if !has_run(m.entries, run_id) {
        Some(LocalAgentRegistryError::UnknownRun(run_id))
    } else if owners_conflict(run_of(m.entries, run_id).controller_owner, Some(owner)) {
        Some(LocalAgentRegistryError::ControllerOwnedByAnotherRun(run_id))
    } else {
        None
    }
}

/// The state after a controller has claimed a run.
pub open spec fn after_claim(
    m: RegistryModel,
    run_id: Seq<char>,
    owner: Seq<char>,
    handle: LocalAgentCancellationHandle,
) -> RegistryModel {
    let at = run_position(m.entries, run_id);
    let run = m.entries[at].run;
    RegistryModel {
        entries: with_run(
            m.entries,
            at,
            RunModel {
                controller_owner: Some(owner),
                status: if run.status.terminal() {
                    LocalAgentStatus::Idle
                } else {
                    run.status
                },
                cancellation: handle,
                ..run
            },
        ),
        ..m
    }
}

fn ensure_owner(run: &LocalAgentRun, controller_owner: &str) -> (r: Result<
    (),
    LocalAgentRegistryError,
>)
    ensures
        match r {
            Ok(_) => owner_error(run@, controller_owner@) is None,
            Err(e) => owner_error(run@, controller_owner@) == Some(e@),
        },
{
    match &run.controller_owner {
        Some(owner) => if text::same_text(owner.as_str(), controller_owner) {
            Ok(())
        } else {
            Err(LocalAgentRegistryError::ControllerOwnedByAnotherRun(run.run_id.clone()))
        },
        None => Err(LocalAgentRegistryError::ControllerRequired(run.run_id.clone())),
    }
}

/// The lifecycle of a conversation as its history reports it.
#[derive(Debug, Clone, Copy, PartialEq, Eq, Structural)]
pub enum ConversationStatus {
    InProgress,
    Blocked,
    Success,
    Error,
    Cancelled,
}

/// The status that a run takes on from its conversation. A run with a live
/// controller stays available after a success.
pub open spec fn status_from_conversation(
    status: ConversationStatus,
    run: RunModel,
) -> LocalAgentStatus {
    match status {
        ConversationStatus::InProgress => LocalAgentStatus::Running,
        ConversationStatus::Blocked => LocalAgentStatus::Blocked,
        ConversationStatus::Success => if run.harness is Oz && run.controller_owner is Some {
            LocalAgentStatus::Idle
        } else {
            LocalAgentStatus::Succeeded
        },
        ConversationStatus::Error => LocalAgentStatus::Failed,
        ConversationStatus::Cancelled => LocalAgentStatus::Cancelled,
    }
}

pub fn local_status_for_conversation(status: ConversationStatus, run: &LocalAgentRun) -> (r:
    LocalAgentStatus)
    ensures
        r == status_from_conversation(status, run@),
{
    match status {
        ConversationStatus::InProgress => LocalAgentStatus::Running,
        ConversationStatus::Blocked => LocalAgentStatus::Blocked,
        ConversationStatus::Success => if run.harness == Harness::Oz
            && run.controller_owner.is_some() {
            LocalAgentStatus::Idle
        } else {
            LocalAgentStatus::Succeeded
        },
        ConversationStatus::Error => LocalAgentStatus::Failed,
        ConversationStatus::Cancelled => LocalAgentStatus::Cancelled,
    }
}

impl LocalAgentRegistry {
    /// The position of a run on which the controller may act.
    fn controlled(&self, run_id: &str, controller_owner: &str) -> (r: Result<
        usize,
        LocalAgentRegistryError,
    >)
        requires
            self.wf(),
        ensures
            match r {
                Ok(at) => control_error(self@, run_id@, controller_owner@) is None && at
                    < self.entries.len() && at == run_position(self@.entries, run_id@)
                    && self@.entries[at as int].run.run_id == run_id@,
                Err(e) => control_error(self@, run_id@, controller_owner@) == Some(e@),
            },
    {
        match self.find_run(run_id) {
            None => Err(LocalAgentRegistryError::UnknownRun(run_id.to_owned())),
            Some(at) => {
                assert(self@.entries[at as int].run == self.entries@[at as int].run@);
                match ensure_owner(&self.entries[at].run, controller_owner) {
                    Ok(_) => Ok(at),
                    Err(error) => Err(error),
                }
            },
        }
    }

    /// Sets the status of the run at a position.
    fn put_status(&mut self, at: usize, status: LocalAgentStatus)
        requires
            old(self).wf(),
            at < old(self).entries.len(),
        ensures
            final(self).wf(),
            final(self).entries.len() == old(self).entries.len(),
            final(self)@ == (RegistryModel {
                entries: with_run(
                    old(self)@.entries,
                    at as int,
                    RunModel { status, ..old(self)@.entries[at as int].run },
                ),
                ..old(self)@
            }),
    {
        let ghost before = self.entries@;
        self.entries[at].run.status = status;
        proof {
            let entry = self.entries@[at as int];
            assert(before[at as int].model() == old(self)@.entries[at as int]);
            assert(self.entries@ =~= before.update(at as int, entry));
            lemma_entries_update(before, at as int, entry);
            lemma_update_valid(old(self)@, at as int, entry.model());
        }
    }

    /// Claims a run for a controller. A run that has ended becomes idle again,
    /// with a new cancellation signal, for a new live same-process controller.
    pub fn claim_controller(&mut self, run_id: &str, controller_owner: &str) -> (r: Result<
        LocalAgentCancellationHandle,
        LocalAgentRegistryError,
    >)
        requires
            old(self).wf(),
        ensures
            final(self).wf(),
            match r {
                Err(e) => claim_error(old(self)@, run_id@, controller_owner@) == Some(e@)
                    && final(self)@ == old(self)@,
                Ok(handle) => {
                    let run = run_of(old(self)@.entries, run_id@);
                    &&& claim_error(old(self)@, run_id@, controller_owner@) is None
                    &&& !run.status.terminal() ==> handle == run.cancellation
                    &&& final(self)@ == after_claim(
                        old(self)@,
                        run_id@,
                        controller_owner@,
                        handle,
                    )
                },
            },
    {
        if text::blank(controller_owner) {
            return Err(LocalAgentRegistryError::ControllerRequired(run_id.to_owned()));
        }
        let at: usize = match self.find_run(run_id) {
            Some(at) => at,
            None => {
                return Err(LocalAgentRegistryError::UnknownRun(run_id.to_owned()));
            },
        };
        let ghost before = self.entries@;
        assert(self@.entries[at as int].run == before[at as int].run@);
        if let Some(existing) = &self.entries[at].run.controller_owner {
            if !text::same_text(existing.as_str(), controller_owner) {
                return Err(
                    LocalAgentRegistryError::ControllerOwnedByAnotherRun(run_id.to_owned()),
                );
            }
        }
        self.entries[at].run.controller_owner = Some(controller_owner.to_owned());
        if self.entries[at].run.status.is_terminal() {
            self.entries[at].run.status = LocalAgentStatus::Idle;
            self.entries[at].run.cancellation = LocalAgentCancellationHandle::default();
        }
        proof {
            let entry = self.entries@[at as int];
            assert(self.entries@ =~= before.update(at as int, entry));
            lemma_entries_update(before, at as int, entry);
            lemma_update_valid(old(self)@, at as int, entry.model());
        }
        Ok(self.entries[at].run.cancellation.clone())
    }

    /// The same as [`Self::claim_controller`].
    pub fn register_controller(&mut self, run_id: &str, controller_owner: &str) -> (r: Result<
        LocalAgentCancellationHandle,
        LocalAgentRegistryError,
    >)
        requires
            old(self).wf(),
        ensures
            final(self).wf(),
            match r {
                Err(e) => claim_error(old(self)@, run_id@, controller_owner@) == Some(e@)
                    && final(self)@ == old(self)@,
                Ok(handle) => {
                    let run = run_of(old(self)@.entries, run_id@);
                    &&& claim_error(old(self)@, run_id@, controller_owner@) is None
                    &&& !run.status.terminal() ==> handle == run.cancellation
                    &&& final(self)@ == after_claim(
                        old(self)@,
                        run_id@,
                        controller_owner@,
                        handle,
                    )
                },
            },
    {
        self.claim_controller(run_id, controller_owner)
    }

    /// Gives a run up: it keeps its record without a controller, and is
    /// stopped unless it had ended already.
    pub fn release_controller(&mut self, run_id: &str, controller_owner: &str) -> (r: Result<
        (),
        LocalAgentRegistryError,
    >)
        requires
            old(self).wf(),
        ensures
            final(self).wf(),
            match r {
                Err(e) => control_error(old(self)@, run_id@, controller_owner@) == Some(e@)
                    && final(self)@ == old(self)@,
                Ok(_) => {
                    let m = old(self)@;
                    let at = run_position(m.entries, run_id@);
                    let run = m.entries[at].run;
                    &&& control_error(m, run_id@, controller_owner@) is None
                    &&& final(self)@ == (RegistryModel {
                        entries: with_run(
                            m.entries,
                            at,
                            RunModel {
                                controller_owner: None,
                                status: if run.status.terminal() {
                                    run.status
                                } else {
                                    LocalAgentStatus::Stopped
                                },
                                ..run
                            },
                        ),
                        ..m
                    })
                },
            },
    {
        let at: usize = match self.controlled(run_id, controller_owner) {
            Ok(at) => at,
            Err(error) => {
                return Err(error);
            },
        };
        let ghost before = self.entries@;
        assert(self@.entries[at as int].run == before[at as int].run@);
        self.entries[at].run.controller_owner = None;
        if !self.entries[at].run.status.is_terminal() {
            self.entries[at].run.status = LocalAgentStatus::Stopped;
        }
        proof {
            let entry = self.entries@[at as int];
            assert(self.entries@ =~= before.update(at as int, entry));
            lemma_entries_update(before, at as int, entry);
            lemma_update_valid(old(self)@, at as int, entry.model());
        }
        Ok(())
    }

    /// Sets the status of a run on behalf of its controller.
    pub fn set_status(
        &mut self,
        run_id: &str,
        controller_owner: &str,
        status: LocalAgentStatus,
    ) -> (r: Result<(), LocalAgentRegistryError>)
        requires
            old(self).wf(),
        ensures
            final(self).wf(),
            match r {
                Err(e) => control_error(old(self)@, run_id@, controller_owner@) == Some(e@)
                    && final(self)@ == old(self)@,
                Ok(_) => {
                    let m = old(self)@;
                    let at = run_position(m.entries, run_id@);
                    &&& control_error(m, run_id@, controller_owner@) is None
                    &&& final(self)@ == (RegistryModel {
                        entries: with_run(
                            m.entries,
                            at,
                            RunModel { status, ..m.entries[at].run },
                        ),
                        ..m
                    })
                },
            },
    {
        match self.controlled(run_id, controller_owner) {
            Ok(at) => {
                self.put_status(at, status);
                Ok(())
            },
            Err(error) => Err(error),
        }
    }

    /// Moves a conversation's run to another terminal surface. A conversation
    /// without a run is left alone.
    pub fn update_terminal_surface(
        &mut self,
        conversation_id: AIConversationId,
        terminal_surface_id: EntityId,
    )
        requires
            old(self).wf(),
        ensures
            final(self).wf(),
            final(self)@ == after_transfer(old(self)@, conversation_id, terminal_surface_id),
    {
        if let Some(at) = self.find_conversation(conversation_id) {
            let ghost before = self.entries@;
            assert(self@.entries[at as int].run == before[at as int].run@);
            self.entries[at].run.terminal_surface_id = Some(terminal_surface_id);
            proof {
                let entry = self.entries@[at as int];
                assert(self.entries@ =~= before.update(at as int, entry));
                lemma_entries_update(before, at as int, entry);
                lemma_update_valid(old(self)@, at as int, entry.model());
            }
        }
    }

    /// Cancels a live run on behalf of its controller: the signal is raised,
    /// the run is cancelled and its waiting messages are dropped.
    pub fn cancel(&mut self, run_id: &str, controller_owner: &str) -> (r: Result<
        LocalAgentCancellationHandle,
        LocalAgentRegistryError,
    >)
        requires
            old(self).wf(),
        ensures
            final(self).wf(),
            match r {
                Err(e) => live_control_error(old(self)@, run_id@, controller_owner@) == Some(e@)
                    && final(self)@ == old(self)@,
                Ok(handle) => {
                    let m = old(self)@;
                    let at = run_position(m.entries, run_id@);
                    let run = m.entries[at].run;
                    &&& live_control_error(m, run_id@, controller_owner@) is None
                    &&& handle == run.cancellation
                    &&& final(self)@ == (RegistryModel {
                        entries: m.entries.update(
                            at,
                            EntryModel {
                                run: RunModel { status: LocalAgentStatus::Cancelled, ..run },
                                queue: Seq::empty(),
                            },
                        ),
                        ..m
                    })
                },
            },
    {
        let at: usize = match self.controlled(run_id, controller_owner) {
            Ok(at) => at,
            Err(error) => {
                return Err(error);
            },
        };
        let ghost before = self.entries@;
        assert(self@.entries[at as int].run == before[at as int].run@);
        if !self.entries[at].run.status.is_live() {
            return Err(LocalAgentRegistryError::HistoricalRun(run_id.to_owned()));
        }
        self.entries[at].run.cancellation.cancel();
        self.entries[at].run.status = LocalAgentStatus::Cancelled;
        self.entries[at].queue.clear();
        proof {
            let entry = self.entries@[at as int];
            assert(envelopes(entry.queue@) =~= Seq::<MessageModel>::empty());
            assert(self.entries@ =~= before.update(at as int, entry));
            lemma_entries_update(before, at as int, entry);
            lemma_update_valid(old(self)@, at as int, entry.model());
        }
        Ok(self.entries[at].run.cancellation.clone())
    }
}

/// The state after a conversation moved to another terminal surface.
pub open spec fn after_transfer(
    m: RegistryModel,
    conversation_id: AIConversationId,
    terminal_surface_id: EntityId,
) -> RegistryModel {
    if has_conversation(m.entries, conversation_id) {
        let at = conversation_position(m.entries, conversation_id);
        RegistryModel {
            entries: with_run(
                m.entries,
                at,
                RunModel { terminal_surface_id: Some(terminal_surface_id), ..m.entries[at].run },
            ),
            ..m
        }
    } else {
        m
    }
}

// ---------------------------------------------------------------------------
// Messages.

/// Why a message cannot be accepted, if it cannot.
pub open spec fn message_error(
    m: RegistryModel,
    sender: Seq<char>,
    sender_owner: Option<Seq<char>>,
    recipient: Seq<char>,
    subject: Seq<char>,
    body: Seq<char>,
) -> Option<ErrorModel> {
    if text::is_blank(subject) {
        Some(LocalAgentRegistryError::EmptySubject)
    } else if text::is_blank(body) {
        Some(LocalAgentRegistryError::EmptyMessage)
    } else if !has_run(m.entries, sender) {
        Some(LocalAgentRegistryError::UnknownRun(sender))
    } else if run_of(m.entries, sender).status.terminal() {
        Some(LocalAgentRegistryError::HistoricalRun(sender))
    } else if !run_of(m.entries, sender).ready() {
        Some(LocalAgentRegistryError::ControllerRequired(sender))
    } else if sender_owner is Some && owner_error(
        run_of(m.entries, sender),
        sender_owner->0,
    ) is Some {
        owner_error(run_of(m.entries, sender), sender_owner->0)
    } else if !has_run(m.entries, recipient) {
        Some(LocalAgentRegistryError::UnknownRun(recipient))
    } else if run_of(m.entries, recipient).status.terminal() {
        Some(LocalAgentRegistryError::HistoricalRun(recipient))
    } else if !run_of(m.entries, recipient).ready() {
        Some(LocalAgentRegistryError::ControllerRequired(recipient))
    } else if m.entries[run_position(m.entries, recipient)].queue.len()
        >= m.limits.max_pending_messages {
        Some(
            LocalAgentRegistryError::QueueFull {
                run_id: recipient,
                limit: m.limits.max_pending_messages,
            },
        )
    } else {
        None
    }
}

/// The number after `n`, which follows the largest one by zero.
pub open spec fn next_number(n: u64) -> u64 {
    if n == u64::MAX {
        0
    } else {
        (n + 1) as u64
    }
}

/// The state after a message was accepted.
pub open spec fn after_message(
    m: RegistryModel,
    sender: Seq<char>,
    recipient: Seq<char>,
    subject: Seq<char>,
    body: Seq<char>,
    message_id: Seq<char>,
) -> RegistryModel {
    let at = run_position(m.entries, recipient);
    RegistryModel {
        entries: with_queue(
            m.entries,
            at,
            m.entries[at].queue.push(
                MessageModel {
                    message_id,
                    sender_run_id: sender,
                    recipient_run_id: recipient,
                    subject,
                    body,
                    sequence: m.next_message_sequence,
                },
            ),
        ),
        next_message_sequence: next_number(m.next_message_sequence),
        ..m
    }
}

impl LocalAgentRegistry {
    /// Enqueues one message under the given identifier and acknowledges it
    /// only once it is in the queue of the recipient's controller.
    pub fn send_message_as(
        &mut self,
        sender_run_id: &str,
        sender_owner: Option<&str>,
        recipient_run_id: &str,
        subject: String,
        body: String,
        message_id: String,
    ) -> (r: Result<LocalAgentMessageAck, LocalAgentRegistryError>)
        requires
            old(self).wf(),
        ensures
            final(self).wf(),
            ({
                let m = old(self)@;
                let owner = match sender_owner {
                    Some(s) => Some(s@),
                    None => None,
                };
                let error = message_error(
                    m,
                    sender_run_id@,
                    owner,
                    recipient_run_id@,
                    subject@,
                    body@,
                );
                match r {
                    Err(e) => error == Some(e@) && final(self)@ == m,
                    Ok(ack) => {
                        &&& error is None
                        &&& ack.message_id@ == message_id@
                        &&& ack.sequence == m.next_message_sequence
                        &&& ack.recipient_run_id@ == recipient_run_id@
                        &&& ack.wake_requested == (run_of(
                            m.entries,
                            recipient_run_id@,
                        ).status is Idle)
                        &&& final(self)@ == after_message(
                            m,
                            sender_run_id@,
                            recipient_run_id@,
                            subject@,
                            body@,
                            message_id@,
                        )
                    },
                }
            }),
    {
        if text::blank(subject.as_str()) {
            return Err(LocalAgentRegistryError::EmptySubject);
        }
        if text::blank(body.as_str()) {
            return Err(LocalAgentRegistryError::EmptyMessage);
        }
        let from: usize = match self.find_run(sender_run_id) {
            Some(at) => at,
            None => {
                return Err(LocalAgentRegistryError::UnknownRun(sender_run_id.to_owned()));
            },
        };
        assert(self@.entries[from as int].run == self.entries@[from as int].run@);
        if !self.entries[from].run.status.is_live() {
            return Err(LocalAgentRegistryError::HistoricalRun(sender_run_id.to_owned()));
        }
        if !self.entries[from].run.is_controller_ready() {
            return Err(LocalAgentRegistryError::ControllerRequired(sender_run_id.to_owned()));
        }
        if let Some(owner) = sender_owner {
            match ensure_owner(&self.entries[from].run, owner) {
                Ok(_) => {},
                Err(error) => {
                    return Err(error);
                },
            }
        }
        let at: usize = match self.find_run(recipient_run_id) {
            Some(at) => at,
            None => {
                return Err(LocalAgentRegistryError::UnknownRun(recipient_run_id.to_owned()));
            },
        };
        let ghost before = self.entries@;
        assert(self@.entries[at as int] == before[at as int].model());
        if !self.entries[at].run.status.is_live() {
            return Err(LocalAgentRegistryError::HistoricalRun(recipient_run_id.to_owned()));
        }
        if !self.entries[at].run.is_controller_ready() {
            return Err(LocalAgentRegistryError::ControllerRequired(recipient_run_id.to_owned()));
        }
        if self.entries[at].queue.len() >= self.limits.max_pending_messages {
            return Err(
                LocalAgentRegistryError::QueueFull {
                    run_id: recipient_run_id.to_owned(),
                    limit: self.limits.max_pending_messages,
                },
            );
        }
        let sequence: u64 = self.next_message_sequence;
        self.next_message_sequence = if sequence == u64::MAX {
            0
        } else {
            sequence + 1
        };
        let envelope = LocalAgentMessageEnvelope {
            message_id: message_id.clone(),
            sender_run_id: sender_run_id.to_owned(),
            recipient_run_id: recipient_run_id.to_owned(),
            subject,
            body,
            sequence,
        };
        let ghost model = envelope@;
        self.entries[at].queue.push_back(envelope);
        proof {
            let entry = self.entries@[at as int];
            assert(envelopes(entry.queue@) =~= envelopes(before[at as int].queue@).push(model));
            assert(self.entries@ =~= before.update(at as int, entry));
            lemma_entries_update(before, at as int, entry);
            lemma_update_valid(old(self)@, at as int, entry.model());
        }
        Ok(
            LocalAgentMessageAck {
                message_id,
                sequence,
                recipient_run_id: recipient_run_id.to_owned(),
                wake_requested: self.entries[at].run.status == LocalAgentStatus::Idle,
            },
        )
    }

    /// Enqueues one message under a fresh identifier, the hyphenated form of a
    /// random UUID, after checking the sender's controller where one is named.
    pub fn send_message_owned(
        &mut self,
        sender_run_id: &str,
        sender_owner: Option<&str>,
        recipient_run_id: &str,
        subject: &str,
        body: &str,
    ) -> (r: Result<LocalAgentMessageAck, LocalAgentRegistryError>)
        requires
            old(self).wf(),
        ensures
            final(self).wf(),
            ({
                let m = old(self)@;
                let owner = match sender_owner {
                    Some(s) => Some(s@),
                    None => None,
                };
                let error = message_error(
                    m,
                    sender_run_id@,
                    owner,
                    recipient_run_id@,
                    subject@,
                    body@,
                );
                match r {
                    Err(e) => error == Some(e@) && final(self)@ == m,
                    Ok(ack) => {
                        &&& error is None
                        &&& ids::is_v4_text(ack.message_id@)
                        &&& ack.sequence == m.next_message_sequence
                        &&& ack.recipient_run_id@ == recipient_run_id@
                        &&& ack.wake_requested == (run_of(
                            m.entries,
                            recipient_run_id@,
                        ).status is Idle)
                        &&& final(self)@ == after_message(
                            m,
                            sender_run_id@,
                            recipient_run_id@,
                            subject@,
                            body@,
                            ack.message_id@,
                        )
                    },
                }
            }),
    {
        let message_id = ids::random_uuid_text();
        self.send_message_as(
            sender_run_id,
            sender_owner,
            recipient_run_id,
            subject.to_owned(),
            body.to_owned(),
            message_id,
        )
    }

    /// Enqueues one message whose sender's controller is not checked.
    pub fn send_message(
        &mut self,
        sender_run_id: &str,
        recipient_run_id: &str,
        subject: &str,
        body: &str,
    ) -> (r: Result<LocalAgentMessageAck, LocalAgentRegistryError>)
        requires
            old(self).wf(),
        ensures
            final(self).wf(),
            ({
                let m = old(self)@;
                let error = message_error(
                    m,
                    sender_run_id@,
                    None,
                    recipient_run_id@,
                    subject@,
                    body@,
                );
                match r {
                    Err(e) => error == Some(e@) && final(self)@ == m,
                    Ok(ack) => {
                        &&& error is None
                        &&& ids::is_v4_text(ack.message_id@)
                        &&& ack.sequence == m.next_message_sequence
                        &&& ack.recipient_run_id@ == recipient_run_id@
                        &&& ack.wake_requested == (run_of(
                            m.entries,
                            recipient_run_id@,
                        ).status is Idle)
                        &&& final(self)@ == after_message(
                            m,
                            sender_run_id@,
                            recipient_run_id@,
                            subject@,
                            body@,
                            ack.message_id@,
                        )
                    },
                }
            }),
    {
        self.send_message_owned(sender_run_id, None, recipient_run_id, subject, body)
    }

    /// Hands all waiting messages of a live run to its controller, oldest
    /// first.
    pub fn take_pending_messages(&mut self, run_id: &str, controller_owner: &str) -> (r: Result<
        Vec<LocalAgentMessageEnvelope>,
        LocalAgentRegistryError,
    >)
        requires
            old(self).wf(),
        ensures
            final(self).wf(),
            match r {
                Err(e) => live_control_error(old(self)@, run_id@, controller_owner@) == Some(e@)
                    && final(self)@ == old(self)@,
                Ok(taken) => {
                    let m = old(self)@;
                    let at = run_position(m.entries, run_id@);
                    &&& live_control_error(m, run_id@, controller_owner@) is None
                    &&& envelopes(taken@) == m.entries[at].queue
                    &&& final(self)@ == (RegistryModel {
                        entries: with_queue(m.entries, at, Seq::empty()),
                        ..m
                    })
                },
            },
    {
        let at: usize = match self.controlled(run_id, controller_owner) {
            Ok(at) => at,
            Err(error) => {
                return Err(error);
            },
        };
        let ghost before = self.entries@;
        assert(self@.entries[at as int] == before[at as int].model());
        if !self.entries[at].run.status.is_live() {
            return Err(LocalAgentRegistryError::HistoricalRun(run_id.to_owned()));
        }
        let mut taken: Vec<LocalAgentMessageEnvelope> = Vec::new();
        let count: usize = self.entries[at].queue.len();
        let ghost all = self.entries@[at as int].queue@;
        let mut i: usize = 0;
        while i < count
            invariant
                i <= count == all.len(),
                at < self.entries.len() == before.len(),
                taken@ == all.subrange(0, i as int),
                self.entries@[at as int].queue@ == all.subrange(i as int, all.len() as int),
                self.entries@[at as int].run == before[at as int].run,
                forall|j: int|
                    0 <= j < before.len() && j != at ==> #[trigger] self.entries@[j] == before[j],
                self.idempotency == old(self).idempotency,
                self.next_message_sequence == old(self).next_message_sequence,
                self.limits == old(self).limits,
            decreases count - i,
        {
            if let Some(envelope) = self.entries[at].queue.pop_front() {
                taken.push(envelope);
            }
            i += 1;
            assert(all.subrange(0, i as int) == all.subrange(0, i - 1).push(all[i - 1]));
            assert(all.subrange(i - 1, all.len() as int).subrange(1, all.len() - i + 1)
                == all.subrange(i as int, all.len() as int));
        }
        proof {
            let entry = self.entries@[at as int];
            assert(envelopes(entry.queue@) =~= Seq::<MessageModel>::empty());
            assert(all.subrange(0, all.len() as int) == all);
            assert(envelopes(taken@) =~= envelopes(all));
            assert(self.entries@ =~= before.update(at as int, entry));
            lemma_entries_update(before, at as int, entry);
            lemma_update_valid(old(self)@, at as int, entry.model());
        }
        Ok(taken)
    }

    /// Hands the oldest waiting message of a live run to its controller.
    pub fn take_next_pending_message(&mut self, run_id: &str, controller_owner: &str) -> (r: Result<
        Option<LocalAgentMessageEnvelope>,
        LocalAgentRegistryError,
    >)
        requires
            old(self).wf(),
        ensures
            final(self).wf(),
            match r {
                Err(e) => live_control_error(old(self)@, run_id@, controller_owner@) == Some(e@)
                    && final(self)@ == old(self)@,
                Ok(taken) => {
                    let m = old(self)@;
                    let at = run_position(m.entries, run_id@);
                    let queue = m.entries[at].queue;
                    &&& live_control_error(m, run_id@, controller_owner@) is None
                    &&& match taken {
                        Some(envelope) => queue.len() > 0 && envelope@ == queue[0] && final(self)@
                            == (RegistryModel {
                            entries: with_queue(
                                m.entries,
                                at,
                                queue.subrange(1, queue.len() as int),
                            ),
                            ..m
                        }),
                        None => queue.len() == 0 && final(self)@ == m,
                    }
                },
            },
    {
        let at: usize = match self.controlled(run_id, controller_owner) {
            Ok(at) => at,
            Err(error) => {
                return Err(error);
            },
        };
        let ghost before = self.entries@;
        assert(self@.entries[at as int] == before[at as int].model());
        if !self.entries[at].run.status.is_live() {
            return Err(LocalAgentRegistryError::HistoricalRun(run_id.to_owned()));
        }
        let taken = self.entries[at].queue.pop_front();
        proof {
            let entry = self.entries@[at as int];
            let queue = before[at as int].queue@;
            assert(self.entries@ =~= before.update(at as int, entry));
            if taken is Some {
                assert(envelopes(entry.queue@) =~= envelopes(queue).subrange(
                    1,
                    envelopes(queue).len() as int,
                ));
            } else {
                assert(entry.queue@ =~= queue);
                assert(envelopes(entry.queue@) =~= envelopes(queue));
                assert(entry_models(before).update(at as int, entry.model()) =~= entry_models(
                    before,
                ));
            }
            lemma_entries_update(before, at as int, entry);
            lemma_update_valid(old(self)@, at as int, entry.model());
        }
        Ok(taken)
    }

    /// Puts a message back in front of the queue, on behalf of the run's
    /// controller, so that a failed intake keeps the order.
    pub fn requeue_message_front(
        &mut self,
        run_id: &str,
        controller_owner: &str,
        envelope: LocalAgentMessageEnvelope,
    ) -> (r: Result<(), LocalAgentRegistryError>)
        requires
            old(self).wf(),
        ensures
            final(self).wf(),
            match r {
                Err(e) => requeue_error(old(self)@, run_id@, controller_owner@) == Some(e@)
                    && final(self)@ == old(self)@,
                Ok(_) => {
                    let m = old(self)@;
                    let at = run_position(m.entries, run_id@);
                    &&& requeue_error(m, run_id@, controller_owner@) is None
                    &&& final(self)@ == (RegistryModel {
                        entries: with_queue(
                            m.entries,
                            at,
                            seq![envelope@] + m.entries[at].queue,
                        ),
                        ..m
                    })
                },
            },
    {
        let at: usize = match self.controlled(run_id, controller_owner) {
            Ok(at) => at,
            Err(error) => {
                return Err(error);
            },
        };
        let ghost before = self.entries@;
        let ghost model = envelope@;
        assert(self@.entries[at as int] == before[at as int].model());
        if self.entries[at].queue.len() >= self.limits.max_pending_messages {
            return Err(
                LocalAgentRegistryError::QueueFull {
                    run_id: run_id.to_owned(),
                    limit: self.limits.max_pending_messages,
                },
            );
        }
        self.entries[at].queue.push_front(envelope);
        proof {
            let entry = self.entries@[at as int];
            assert(envelopes(entry.queue@) =~= seq![model] + envelopes(before[at as int].queue@));
            assert(self.entries@ =~= before.update(at as int, entry));
            lemma_entries_update(before, at as int, entry);
            lemma_update_valid(old(self)@, at as int, entry.model());
        }
        Ok(())
    }
}

/// Why a message cannot be put back, if it cannot.
pub open spec fn requeue_error(m: RegistryModel, run_id: Seq<char>, owner: Seq<char>) -> Option<
    ErrorModel,
> {
    match control_error(m, run_id, owner) {
        Some(error) => Some(error),
        None => if m.entries[run_position(m.entries, run_id)].queue.len()
            >= m.limits.max_pending_messages {
            Some(
                LocalAgentRegistryError::QueueFull { run_id, limit: m.limits.max_pending_messages },
            )
        } else {
            None
        },
    }
}

// ---------------------------------------------------------------------------
// Renaming and removal.

/// A text with one run identifier replaced by another.
pub open spec fn renamed_id(id: Seq<char>, from: Seq<char>, to: Seq<char>) -> Seq<char> {
    if id == from {
        to
    } else {
        id
    }
}

pub open spec fn renamed_message(msg: MessageModel, from: Seq<char>, to: Seq<char>) -> MessageModel {
    MessageModel {
        sender_run_id: renamed_id(msg.sender_run_id, from, to),
        recipient_run_id: renamed_id(msg.recipient_run_id, from, to),
        ..msg
    }
}

/// A run with its identifier or its parent's replaced.
pub open spec fn renamed_run(run: RunModel, from: Seq<char>, to: Seq<char>) -> RunModel {
    RunModel {
        run_id: renamed_id(run.run_id, from, to),
        parent_run_id: if run.run_id != from && run.parent_run_id == Some(from) {
            Some(to)
        } else {
            run.parent_run_id
        },
        ..run
    }
}

pub open spec fn renamed_queue(queue: Seq<MessageModel>, from: Seq<char>, to: Seq<char>) -> Seq<
    MessageModel,
> {
    Seq::new(queue.len(), |i: int| renamed_message(queue[i], from, to))
}

/// The runs with one identifier replaced throughout.
pub open spec fn renamed(entries: Seq<EntryModel>, from: Seq<char>, to: Seq<char>) -> Seq<
    EntryModel,
> {
    Seq::new(
        entries.len(),
        |i: int|
            EntryModel {
                run: renamed_run(entries[i].run, from, to),
                queue: renamed_queue(entries[i].queue, from, to),
            },
    )
}

/// The keys with one run identifier replaced throughout.
pub open spec fn renamed_keys(
    keys: Seq<(Seq<char>, Seq<char>)>,
    from: Seq<char>,
    to: Seq<char>,
) -> Seq<(Seq<char>, Seq<char>)> {
    Seq::new(keys.len(), |i: int| (keys[i].0, renamed_id(keys[i].1, from, to)))
}

/// Why a conversation's run cannot be given another identifier, if it cannot.
pub open spec fn rebind_error(m: RegistryModel, id: AIConversationId, new_run_id: Seq<char>) -> Option<
    ErrorModel,
> {
    if text::is_blank(new_run_id) {
        Some(LocalAgentRegistryError::InvalidRunId)
    } else if !has_conversation(m.entries, id) {
        Some(LocalAgentRegistryError::UnknownRun(ids::hyphenated(id.0)))
    } else if m.entries[conversation_position(m.entries, id)].run.run_id != new_run_id && has_run(
        m.entries,
        new_run_id,
    ) {
        Some(LocalAgentRegistryError::DuplicateConversation(new_run_id))
    } else {
        None
    }
}

/// The state after a conversation's run has been given another identifier.
pub open spec fn after_rebind(m: RegistryModel, from: Seq<char>, to: Seq<char>) -> RegistryModel {
    if from == to {
        m
    } else {
        RegistryModel {
            entries: rebuilt(renamed(m.entries, from, to)),
            idempotency: renamed_keys(m.idempotency, from, to),
            ..m
        }
    }
}

/// The first `n` keys without those that lead to `run_id`.
pub open spec fn keys_without(
    keys: Seq<(Seq<char>, Seq<char>)>,
    run_id: Seq<char>,
    n: int,
) -> Seq<(Seq<char>, Seq<char>)>
    decreases n,
{
    if n <= 0 {
        Seq::empty()
    } else if keys[n - 1].1 == run_id {
        keys_without(keys, run_id, n - 1)
    } else {
        keys_without(keys, run_id, n - 1).push(keys[n - 1])
    }
}

/// The state after a conversation was deleted.
pub open spec fn after_removal(m: RegistryModel, id: AIConversationId) -> RegistryModel {
    if has_conversation(m.entries, id) {
        let at = conversation_position(m.entries, id);
        RegistryModel {
            entries: rebuilt(m.entries.remove(at)),
            idempotency: keys_without(
                m.idempotency,
                m.entries[at].run.run_id,
                m.idempotency.len() as int,
            ),
            ..m
        }
    } else {
        m
    }
}

proof fn lemma_rebind_valid(m: RegistryModel, at: int, to: Seq<char>)
    requires
        m.valid(),
        0 <= at < m.entries.len(),
        !has_run(m.entries, to),
    ensures
        unique_runs(renamed(m.entries, m.entries[at].run.run_id, to)),
        unique_conversations(renamed(m.entries, m.entries[at].run.run_id, to)),
        after_rebind(m, m.entries[at].run.run_id, to).valid(),
{
    let from = m.entries[at].run.run_id;
    let named = renamed(m.entries, from, to);
    let after = rebuilt(named);
    let keys = renamed_keys(m.idempotency, from, to);
    assert(from != to);
    assert forall|i: int, j: int|
        #![trigger named[i], named[j]]
        0 <= i < j < named.len() implies named[i].run.run_id != named[j].run.run_id by {
        assert(m.entries[i].run.run_id != m.entries[j].run.run_id);
        assert(m.entries[i].run.run_id != to);
        assert(m.entries[j].run.run_id != to);
    }
    assert forall|i: int, j: int|
        #![trigger named[i], named[j]]
        0 <= i < j < named.len() implies named[i].run.conversation_id
        != named[j].run.conversation_id by {
        assert(m.entries[i].run.conversation_id != m.entries[j].run.conversation_id);
    }
    lemma_rebuilt(named);
    assert(unique_conversations(after)) by {
        assert forall|i: int, j: int|
            #![trigger after[i], after[j]]
            0 <= i < j < after.len() implies after[i].run.conversation_id
            != after[j].run.conversation_id by {
            assert(named[i].run.conversation_id != named[j].run.conversation_id);
        }
    }
    assert(unique_keys(keys)) by {
        assert forall|i: int, j: int|
            #![trigger keys[i], keys[j]]
            0 <= i < j < keys.len() implies keys[i].0 != keys[j].0 by {
            assert(m.idempotency[i].0 != m.idempotency[j].0);
        }
    }
    assert forall|i: int| 0 <= i < keys.len() implies has_run(after, (#[trigger] keys[i]).1) by {
        let target = m.idempotency[i].1;
        assert(has_run(m.entries, target));
        let p = run_position(m.entries, target);
        assert(named[p].run.run_id == renamed_id(target, from, to));
        assert(has_run(named, keys[i].1));
    }
    assert forall|i: int| 0 <= i < after.len() implies (#[trigger] after[i]).queue.len()
        <= m.limits.max_pending_messages by {
        assert(m.entries[i].queue.len() <= m.limits.max_pending_messages);
    }
}

proof fn lemma_keys_without(
    keys: Seq<(Seq<char>, Seq<char>)>,
    run_id: Seq<char>,
    n: int,
    i: int,
) -> (at: int)
    requires
        0 <= n <= keys.len(),
        0 <= i < keys_without(keys, run_id, n).len(),
    ensures
        0 <= at < n,
        keys_without(keys, run_id, n)[i] == keys[at],
        keys[at].1 != run_id,
    decreases n,
{
    let rest = keys_without(keys, run_id, n - 1);
    if keys[n - 1].1 != run_id && i == rest.len() {
        n - 1
    } else {
        lemma_keys_without(keys, run_id, n - 1, i)
    }
}

proof fn lemma_keys_without_unique(
    keys: Seq<(Seq<char>, Seq<char>)>,
    run_id: Seq<char>,
    n: int,
)
    requires
        unique_keys(keys),
        0 <= n <= keys.len(),
    ensures
        unique_keys(keys_without(keys, run_id, n)),
    decreases n,
{
    if n > 0 {
        lemma_keys_without_unique(keys, run_id, n - 1);
        let rest = keys_without(keys, run_id, n - 1);
        let all = keys_without(keys, run_id, n);
        assert forall|i: int, j: int|
            #![trigger all[i], all[j]]
            0 <= i < j < all.len() implies all[i].0 != all[j].0 by {
            if j < rest.len() {
                assert(rest[i].0 != rest[j].0);
            } else {
                let p = lemma_keys_without(keys, run_id, n - 1, i);
                assert(keys[p].0 != keys[n - 1].0);
            }
        }
    }
}

proof fn lemma_removal_valid(m: RegistryModel, at: int)
    requires
        m.valid(),
        0 <= at < m.entries.len(),
    ensures
        unique_runs(m.entries.remove(at)),
        unique_conversations(m.entries.remove(at)),
        after_removal(m, m.entries[at].run.conversation_id).valid(),
{
    lemma_conversation_position(m.entries, at);
    let run_id = m.entries[at].run.run_id;
    let rest = m.entries.remove(at);
    let after = rebuilt(rest);
    let n = m.idempotency.len() as int;
    let keys = keys_without(m.idempotency, run_id, n);
    assert forall|i: int|
        #![trigger rest[i]]
        0 <= i < rest.len() implies rest[i] == m.entries[if i < at {
        i
    } else {
        i + 1
    }] by {}
    assert forall|i: int, j: int|
        #![trigger rest[i], rest[j]]
        0 <= i < j < rest.len() implies rest[i].run.run_id != rest[j].run.run_id
        && rest[i].run.conversation_id != rest[j].run.conversation_id by {
        let p = if i < at {
            i
        } else {
            i + 1
        };
        let q = if j < at {
            j
        } else {
            j + 1
        };
        assert(m.entries[p].run.run_id != m.entries[q].run.run_id);
        assert(m.entries[p].run.conversation_id != m.entries[q].run.conversation_id);
    }
    lemma_rebuilt(rest);
    lemma_keys_without_unique(m.idempotency, run_id, n);
    assert(unique_conversations(after)) by {
        assert forall|i: int, j: int|
            #![trigger after[i], after[j]]
            0 <= i < j < after.len() implies after[i].run.conversation_id
            != after[j].run.conversation_id by {
            assert(rest[i].run.conversation_id != rest[j].run.conversation_id);
        }
    }
    assert forall|i: int| 0 <= i < keys.len() implies has_run(after, (#[trigger] keys[i]).1) by {
        let k = lemma_keys_without(m.idempotency, run_id, n, i);
        let target = m.idempotency[k].1;
        assert(has_run(m.entries, target));
        let p = run_position(m.entries, target);
        assert(p != at);
        let q = if p < at {
            p
        } else {
            p - 1
        };
        assert(rest[q].run.run_id == target);
        assert(has_run(rest, target));
    }
    assert forall|i: int| 0 <= i < after.len() implies (#[trigger] after[i]).queue.len()
        <= m.limits.max_pending_messages by {
        assert(after[i].queue == rest[i].queue);
    }
}

impl LocalAgentRegistry {
    /// Replaces a run identifier in one envelope.
    fn rename_envelope(envelope: LocalAgentMessageEnvelope, from: &str, to: &str) -> (r:
        LocalAgentMessageEnvelope)
        ensures
            r@ == renamed_message(envelope@, from@, to@),
    {
        let sender_run_id = if text::same_text(envelope.sender_run_id.as_str(), from) {
            to.to_owned()
        } else {
            envelope.sender_run_id
        };
        let recipient_run_id = if text::same_text(envelope.recipient_run_id.as_str(), from) {
            to.to_owned()
        } else {
            envelope.recipient_run_id
        };
        LocalAgentMessageEnvelope {
            message_id: envelope.message_id,
            sender_run_id,
            recipient_run_id,
            subject: envelope.subject,
            body: envelope.body,
            sequence: envelope.sequence,
        }
    }

    /// Replaces a run identifier in every waiting message of a run.
    fn rename_queue(&mut self, at: usize, from: &str, to: &str)
        requires
            at < old(self).entries.len(),
        ensures
            final(self).entries.len() == old(self).entries.len(),
            final(self).idempotency == old(self).idempotency,
            final(self).next_message_sequence == old(self).next_message_sequence,
            final(self).limits == old(self).limits,
            final(self).entries@ == old(self).entries@.update(
                at as int,
                final(self).entries@[at as int],
            ),
            final(self).entries@[at as int].run == old(self).entries@[at as int].run,
            envelopes(final(self).entries@[at as int].queue@) == renamed_queue(
                envelopes(old(self).entries@[at as int].queue@),
                from@,
                to@,
            ),
    {
        let ghost before = self.entries@;
        let ghost all = before[at as int].queue@;
        let count: usize = self.entries[at].queue.len();
        let mut i: usize = 0;
        while i < count
            invariant
                i <= count == all.len(),
                at < self.entries.len() == before.len(),
                all == before[at as int].queue@,
                self.entries@[at as int].run == before[at as int].run,
                self.entries@[at as int].queue@.len() == count,
                forall|j: int|
                    0 <= j < count - i ==> #[trigger] self.entries@[at as int].queue@[j] == all[j
                        + i],
                forall|j: int|
                    0 <= j < i ==> (#[trigger] self.entries@[at as int].queue@[j + count - i])@
                        == renamed_message(all[j]@, from@, to@),
                forall|j: int|
                    0 <= j < before.len() && j != at ==> #[trigger] self.entries@[j] == before[j],
                self.idempotency == old(self).idempotency,
                self.next_message_sequence == old(self).next_message_sequence,
                self.limits == old(self).limits,
            decreases count - i,
        {
            let ghost queue = self.entries@[at as int].queue@;
            assert(queue[0] == all[0 + i]);
            if let Some(envelope) = self.entries[at].queue.pop_front() {
                let envelope = Self::rename_envelope(envelope, from, to);
                self.entries[at].queue.push_back(envelope);
            }
            let ghost next = self.entries@[at as int].queue@;
            assert(next =~= queue.subrange(1, count as int).push(next[count - 1]));
            i += 1;
            assert forall|j: int| 0 <= j < count - i implies #[trigger] next[j] == all[j + i] by {
                assert(next[j] == queue[j + 1]);
                assert(queue[j + 1] == all[j + 1 + (i - 1)]);
            }
            assert forall|j: int| 0 <= j < i implies (#[trigger] next[j + count - i])@
                == renamed_message(all[j]@, from@, to@) by {
                if j < i - 1 {
                    assert(next[j + count - i] == queue[j + count - (i - 1)]);
                }
            }
        }
        proof {
            let queue = self.entries@[at as int].queue@;
            assert forall|j: int| 0 <= j < count implies (#[trigger] queue[j])@ == renamed_message(
                all[j]@,
                from@,
                to@,
            ) by {
                assert(queue[j + count - i]@ == renamed_message(all[j]@, from@, to@));
            }
            assert(envelopes(queue) =~= renamed_queue(envelopes(all), from@, to@));
            assert(self.entries@ =~= before.update(at as int, self.entries@[at as int]));
        }
    }

    /// Gives a conversation's run another identifier, which replaces the old
    /// one in the topology, in waiting messages and behind its keys. The
    /// returned run is the one before depths and children are computed anew.
    pub fn rebind_run_id(&mut self, conversation_id: AIConversationId, new_run_id: String) -> (r:
        Result<LocalAgentRun, LocalAgentRegistryError>)
        requires
            old(self).wf(),
        ensures
            final(self).wf(),
            match r {
                Err(e) => rebind_error(old(self)@, conversation_id, new_run_id@) == Some(e@)
                    && final(self)@ == old(self)@,
                Ok(run) => {
                    let m = old(self)@;
                    let bound = m.entries[conversation_position(m.entries, conversation_id)].run;
                    &&& rebind_error(m, conversation_id, new_run_id@) is None
                    &&& run@ == renamed_run(bound, bound.run_id, new_run_id@)
                    &&& final(self)@ == after_rebind(m, bound.run_id, new_run_id@)
                },
            },
    {
        if text::blank(new_run_id.as_str()) {
            return Err(LocalAgentRegistryError::InvalidRunId);
        }
        let at: usize = match self.find_conversation(conversation_id) {
            Some(at) => at,
            None => {
                return Err(LocalAgentRegistryError::UnknownRun(conversation_id.text()));
            },
        };
        let ghost before = self.entries@;
        let ghost models = self@.entries;
        assert(models[at as int].run == before[at as int].run@);
        let old_run_id = self.entries[at].run.run_id.clone();
        if old_run_id == new_run_id {
            return Ok(self.entries[at].run.clone());
        }
        if self.find_run(new_run_id.as_str()).is_some() {
            return Err(LocalAgentRegistryError::DuplicateConversation(new_run_id));
        }
        let mut returned = self.entries[at].run.clone();
        returned.run_id = new_run_id.clone();
        let ghost from = old_run_id@;
        let ghost to = new_run_id@;
        let count: usize = self.entries.len();
        let mut i: usize = 0;
        while i < count
            invariant
                i <= count == self.entries.len() == before.len() == models.len(),
                models == entry_models(before),
                from == old_run_id@,
                to == new_run_id@,
                self.idempotency == old(self).idempotency,
                self.next_message_sequence == old(self).next_message_sequence,
                self.limits == old(self).limits,
                forall|j: int|
                    0 <= j < i ==> (#[trigger] self.entries@[j]).model() == renamed(
                        models,
                        from,
                        to,
                    )[j],
                forall|j: int| i <= j < count ==> #[trigger] self.entries@[j] == before[j],
            decreases count - i,
        {
            assert(before[i as int].model() == models[i as int]);
            self.rename_queue(i, old_run_id.as_str(), new_run_id.as_str());
            if self.entries[i].run.run_id == old_run_id {
                self.entries[i].run.run_id = new_run_id.clone();
            } else {
                let below = match &self.entries[i].run.parent_run_id {
                    Some(parent) => *parent == old_run_id,
                    None => false,
                };
                if below {
                    self.entries[i].run.parent_run_id = Some(new_run_id.clone());
                }
            }
            assert(self.entries@[i as int].model() =~= renamed(models, from, to)[i as int]);
            i += 1;
        }
        assert(self@.entries =~= renamed(models, from, to));
        let ghost keys = self.idempotency@;
        let known: usize = self.idempotency.len();
        let mut k: usize = 0;
        while k < known
            invariant
                k <= known == self.idempotency.len() == keys.len(),
                from == old_run_id@,
                to == new_run_id@,
                self@.entries == renamed(models, from, to),
                self.next_message_sequence == old(self).next_message_sequence,
                self.limits == old(self).limits,
                keys == old(self).idempotency@,
                forall|j: int|
                    0 <= j < k ==> (#[trigger] self.idempotency@[j]).key@ == keys[j].key@
                        && self.idempotency@[j].run_id@ == renamed_id(keys[j].run_id@, from, to),
                forall|j: int| k <= j < known ==> #[trigger] self.idempotency@[j] == keys[j],
            decreases known - k,
        {
            if self.idempotency[k].run_id == old_run_id {
                self.idempotency[k].run_id = new_run_id.clone();
            }
            k += 1;
        }
        proof {
            assert(self@.idempotency =~= renamed_keys(key_models(keys), from, to));
            lemma_rebind_valid(old(self)@, at as int, to);
        }
        self.rebuild_topology();
        Ok(returned)
    }

    /// Forgets a conversation's run, its waiting messages and its keys.
    pub fn remove_conversation(&mut self, conversation_id: AIConversationId)
        requires
            old(self).wf(),
        ensures
            final(self).wf(),
            final(self)@ == after_removal(old(self)@, conversation_id),
    {
        let at: usize = match self.find_conversation(conversation_id) {
            Some(at) => at,
            None => {
                return;
            },
        };
        let ghost before = self.entries@;
        assert(self@.entries[at as int].run == before[at as int].run@);
        let removed = self.entries.remove(at);
        let run_id = removed.run.run_id;
        let ghost keys = self.idempotency@;
        assert(key_models(keys) == old(self)@.idempotency);
        let mut kept: Vec<IdempotencyEntry> = Vec::new();
        assert(key_models(kept@) =~= Seq::<(Seq<char>, Seq<char>)>::empty());
        let mut k: usize = 0;
        while k < self.idempotency.len()
            invariant
                k <= self.idempotency.len(),
                self.idempotency@ == keys,
                key_models(kept@) == keys_without(key_models(keys), run_id@, k as int),
            decreases self.idempotency.len() - k,
        {
            let ghost so_far = kept@;
            if !(self.idempotency[k].run_id == run_id) {
                kept.push(
                    IdempotencyEntry {
                        key: self.idempotency[k].key.clone(),
                        run_id: self.idempotency[k].run_id.clone(),
                    },
                );
                assert(key_models(kept@) =~= key_models(so_far).push(key_models(keys)[k as int]));
            }
            k += 1;
        }
        self.idempotency = kept;
        proof {
            assert(entry_models(self.entries@) =~= entry_models(before).remove(at as int));
            lemma_removal_valid(old(self)@, at as int);
        }
        self.rebuild_topology();
    }
}

// ---------------------------------------------------------------------------
// Construction and lookup.

impl Default for LocalAgentRegistry {
    fn default() -> (r: Self)
        ensures
            r.wf(),
            r@.entries.len() == 0,
            r@.idempotency.len() == 0,
            r@.next_message_sequence == 0,
            r@.limits == default_limits(),
    {
        LocalAgentRegistry::new()
    }
}

impl LocalAgentRegistry {
    /// An empty registry with the default limits.
    pub fn new() -> (r: Self)
        ensures
            r.wf(),
            r@.entries.len() == 0,
            r@.idempotency.len() == 0,
            r@.next_message_sequence == 0,
            r@.limits == default_limits(),
    {
        LocalAgentRegistry::with_limits(LocalAgentLimits::default())
    }

    /// An empty registry with the given limits.
    pub fn with_limits(limits: LocalAgentLimits) -> (r: Self)
        ensures
            r.wf(),
            r@.entries.len() == 0,
            r@.idempotency.len() == 0,
            r@.next_message_sequence == 0,
            r@.limits == limits,
    {
        LocalAgentRegistry {
            entries: Vec::new(),
            idempotency: Vec::new(),
            next_message_sequence: 0,
            limits,
        }
    }

    pub fn limits(&self) -> (r: LocalAgentLimits)
        ensures
            r == self@.limits,
    {
        self.limits
    }

    pub fn len(&self) -> (r: usize)
        ensures
            r == self@.entries.len(),
    {
        self.entries.len()
    }

    pub fn is_empty(&self) -> (r: bool)
        ensures
            r == (self@.entries.len() == 0),
    {
        self.entries.len() == 0
    }

    /// The run of that identifier.
    pub fn get(&self, run_id: &str) -> (r: Option<&LocalAgentRun>)
        requires
            self.wf(),
        ensures
            match r {
                Some(run) => has_run(self@.entries, run_id@) && run@ == run_of(
                    self@.entries,
                    run_id@,
                ),
                None => !has_run(self@.entries, run_id@),
            },
    {
        match self.find_run(run_id) {
            Some(at) => {
                assert(self@.entries[at as int].run == self.entries@[at as int].run@);
                Some(&self.entries[at].run)
            },
            None => None,
        }
    }

    /// The run of a conversation.
    pub fn run_for_conversation(&self, conversation_id: AIConversationId) -> (r: Option<
        &LocalAgentRun,
    >)
        requires
            self.wf(),
        ensures
            match r {
                Some(run) => has_conversation(self@.entries, conversation_id) && run@
                    == self@.entries[conversation_position(self@.entries, conversation_id)].run,
                None => !has_conversation(self@.entries, conversation_id),
            },
    {
        match self.find_conversation(conversation_id) {
            Some(at) => {
                assert(self@.entries[at as int].run == self.entries@[at as int].run@);
                Some(&self.entries[at].run)
            },
            None => None,
        }
    }

    /// The identifier of a conversation's run.
    pub fn run_id_for_conversation(&self, conversation_id: AIConversationId) -> (r: Option<&str>)
        requires
            self.wf(),
        ensures
            match r {
                Some(id) => has_conversation(self@.entries, conversation_id) && id@
                    == self@.entries[conversation_position(
                    self@.entries,
                    conversation_id,
                )].run.run_id,
                None => !has_conversation(self@.entries, conversation_id),
            },
    {
        match self.run_for_conversation(conversation_id) {
            Some(run) => Some(run.run_id.as_str()),
            None => None,
        }
    }

    /// The identifiers of a run's children, none for an unknown run.
    pub fn child_run_ids(&self, parent_run_id: &str) -> (r: Vec<String>)
        requires
            self.wf(),
        ensures
            text::texts(r@) == (if has_run(self@.entries, parent_run_id@) {
                run_of(self@.entries, parent_run_id@).child_run_ids
            } else {
                Seq::empty()
            }),
    {
        match self.get(parent_run_id) {
            Some(run) => text::clone_strings(&run.child_run_ids),
            None => {
                let none: Vec<String> = Vec::new();
                assert(text::texts(none@) =~= Seq::<Seq<char>>::empty());
                none
            },
        }
    }

    /// Whether a run can take part in messaging.
    pub fn is_ready(&self, run_id: &str) -> (r: bool)
        requires
            self.wf(),
        ensures
            r == (has_run(self@.entries, run_id@) && run_of(self@.entries, run_id@).ready()),
    {
        match self.get(run_id) {
            Some(run) => run.is_controller_ready(),
            None => false,
        }
    }

    /// The number of messages waiting for a run, none for an unknown run.
    pub fn pending_message_count(&self, run_id: &str) -> (r: usize)
        requires
            self.wf(),
        ensures
            r == (if has_run(self@.entries, run_id@) {
                self@.entries[run_position(self@.entries, run_id@)].queue.len()
            } else {
                0
            }),
    {
        match self.find_run(run_id) {
            Some(at) => {
                assert(self@.entries[at as int].queue == envelopes(
                    self.entries@[at as int].queue@,
                ));
                self.entries[at].queue.len()
            },
            None => 0,
        }
    }
}

/// The owner under which the controller of a terminal surface claims runs.
pub fn local_controller_owner_id(terminal_surface_id: EntityId) -> (r: String)
    ensures
        r@ == "terminal:EntityId("@ + text::decimal(terminal_surface_id.0 as nat) + ")"@,
{
    let number = text::decimal_usize(terminal_surface_id.0);
    text::concat3("terminal:EntityId(", number.as_str(), ")")
}

// ---------------------------------------------------------------------------
// History.

/// What the history says of a restored conversation.
pub struct RestoredConversation {
    pub conversation_id: AIConversationId,
    pub run_id: Option<String>,
    /// The run of the conversation that the history resolves as the parent.
    pub parent_conversation_run_id: Option<String>,
    pub parent_agent_id: Option<String>,
    pub agent_name: Option<String>,
    pub title: Option<String>,
    pub harness: Option<Harness>,
}

/// A change of the conversation history.
pub enum LocalHistoryEvent {
    RestoredConversations {
        terminal_surface_id: EntityId,
        conversations: Vec<RestoredConversation>,
    },
    UpdatedConversationStatus {
        conversation_id: AIConversationId,
        new_status: ConversationStatus,
    },
    DeletedConversation { conversation_id: AIConversationId },
    ConversationTransferredBetweenTerminalSurfaces {
        conversation_id: AIConversationId,
        new_terminal_surface_id: EntityId,
    },
    Other,
}

/// What the registry tells its observers.
#[derive(Clone, Debug, PartialEq, Eq)]
pub enum LocalAgentRegistryEvent {
    MessageAccepted { recipient_run_id: String },
    StatusChanged { run_id: String, status: LocalAgentStatus },
}

/// The first of two optional texts that is there.
pub open spec fn first_text(a: Option<String>, b: Option<String>) -> Option<Seq<char>> {
    match a {
        Some(s) => Some(s@),
        None => text::text_opt(b),
    }
}

/// Whether `agent` is what a restored conversation stands for: the run of its
/// resolved parent, else its recorded parent agent; its agent name, else its
/// title, else a default; and the local harness unless it names another.
pub open spec fn restored_from(
    conversation: RestoredConversation,
    terminal_surface_id: EntityId,
    agent: RestoredLocalAgent,
) -> bool {
    &&& conversation.run_id is Some
    &&& agent.run_id@ == conversation.run_id->0@
    &&& agent.conversation_id == conversation.conversation_id
    &&& agent.terminal_surface_id == Some(terminal_surface_id)
    &&& agent.pane_id is None
    &&& text::text_opt(agent.parent_run_id) == first_text(
        conversation.parent_conversation_run_id,
        conversation.parent_agent_id,
    )
    &&& agent.name@ == match first_text(conversation.agent_name, conversation.title) {
        Some(name) => name,
        None => "Local agent"@,
    }
    &&& agent.harness == match conversation.harness {
        Some(harness) => harness,
        None => Harness::Oz,
    }
}

impl RestoredConversation {
    /// The run to restore, if the conversation has one.
    pub fn restored_agent(&self, terminal_surface_id: EntityId) -> (r: Option<RestoredLocalAgent>)
        ensures
            r is Some <==> self.run_id is Some,
            r matches Some(agent) ==> restored_from(*self, terminal_surface_id, agent),
    {
        match &self.run_id {
            None => None,
            Some(run_id) => {
                let parent_run_id = if self.parent_conversation_run_id.is_some() {
                    text::clone_opt(&self.parent_conversation_run_id)
                } else {
                    text::clone_opt(&self.parent_agent_id)
                };
                let name = match &self.agent_name {
                    Some(name) => name.clone(),
                    None => match &self.title {
                        Some(title) => title.clone(),
                        None => "Local agent".to_owned(),
                    },
                };
                Some(
                    RestoredLocalAgent {
                        run_id: run_id.clone(),
                        conversation_id: self.conversation_id,
                        terminal_surface_id: Some(terminal_surface_id),
                        pane_id: None,
                        parent_run_id,
                        name,
                        harness: match self.harness {
                            Some(harness) => harness,
                            None => Harness::Oz,
                        },
                    },
                )
            },
        }
    }
}

/// Whether `after` is the state once a restored conversation has been looked
/// at: a conversation without a run, with a run already registered or with a
/// run that cannot be restored is passed over.
pub open spec fn restored_step(
    before: RegistryModel,
    conversation: RestoredConversation,
    terminal_surface_id: EntityId,
    after: RegistryModel,
) -> bool {
    if conversation.run_id is None || has_conversation(
        before.entries,
        conversation.conversation_id,
    ) {
        after == before
    } else {
        exists|agent: RestoredLocalAgent|
            #![trigger restoration_error(before, agent)]
            restored_from(conversation, terminal_surface_id, agent) && (if restoration_error(
                before,
                agent,
            ) is Some {
                after == before
            } else {
                exists|handle: LocalAgentCancellationHandle|
                    after == #[trigger] after_restoration(before, agent, handle)
            })
    }
}

/// The state after a historical run was restored.
pub open spec fn after_restoration(
    m: RegistryModel,
    restored: RestoredLocalAgent,
    handle: LocalAgentCancellationHandle,
) -> RegistryModel {
    RegistryModel {
        entries: rebuilt(
            with_child(
                m.entries,
                attached_run(
                    m.entries,
                    restored.run_id@,
                    restored.conversation_id,
                    restored.terminal_surface_id,
                    restored.pane_id,
                    text::text_opt(restored.parent_run_id),
                    restored.name@,
                    restored.harness,
                    None,
                    LocalAgentStatus::Stopped,
                    handle,
                ),
            ),
        ),
        ..m
    }
}

/// Whether `states` are the states that restoring the conversations one after
/// the other passes through.
pub open spec fn restored_steps(
    states: Seq<RegistryModel>,
    conversations: Seq<RestoredConversation>,
    terminal_surface_id: EntityId,
) -> bool {
    &&& states.len() == conversations.len() + 1
    &&& forall|i: int|
        0 <= i < conversations.len() ==> restored_step(
            states[i],
            #[trigger] conversations[i],
            terminal_surface_id,
            states[i + 1],
        )
}

/// The state after a conversation reported a status.
pub open spec fn after_status(
    m: RegistryModel,
    conversation_id: AIConversationId,
    new_status: ConversationStatus,
) -> RegistryModel {
    if has_conversation(m.entries, conversation_id) {
        let at = conversation_position(m.entries, conversation_id);
        let run = m.entries[at].run;
        RegistryModel {
            entries: with_run(
                m.entries,
                at,
                RunModel { status: status_from_conversation(new_status, run), ..run },
            ),
            ..m
        }
    } else {
        m
    }
}

/// Whether `after` is the state once a history event has been taken in.
pub open spec fn after_history_event(
    before: RegistryModel,
    event: LocalHistoryEvent,
    after: RegistryModel,
) -> bool {
    match event {
        LocalHistoryEvent::RestoredConversations { terminal_surface_id, conversations } => {
            exists|states: Seq<RegistryModel>|
                #[trigger] restored_steps(states, conversations@, terminal_surface_id) && states[0]
                    == before && states.last() == after
        },
        LocalHistoryEvent::UpdatedConversationStatus { conversation_id, new_status } => after
            == after_status(before, conversation_id, new_status),
        LocalHistoryEvent::DeletedConversation { conversation_id } => after == after_removal(
            before,
            conversation_id,
        ),
        LocalHistoryEvent::ConversationTransferredBetweenTerminalSurfaces {
            conversation_id,
            new_terminal_surface_id,
        } => after == after_transfer(before, conversation_id, new_terminal_surface_id),
        LocalHistoryEvent::Other => after == before,
    }
}

/// The run and the status that a history event makes known, if any.
pub open spec fn reported_status(m: RegistryModel, event: LocalHistoryEvent) -> Option<
    (Seq<char>, LocalAgentStatus),
> {
    match event {
        LocalHistoryEvent::UpdatedConversationStatus { conversation_id, new_status } => {
            if has_conversation(m.entries, conversation_id) {
                let run = m.entries[conversation_position(m.entries, conversation_id)].run;
                Some((run.run_id, status_from_conversation(new_status, run)))
            } else {
                None
            }
        },
        _ => None,
    }
}

impl LocalAgentRegistry {
    /// Restores the runs of the given conversations, one after the other.
    fn restore_conversations(
        &mut self,
        terminal_surface_id: EntityId,
        conversations: &Vec<RestoredConversation>,
    )
        requires
            old(self).wf(),
        ensures
            final(self).wf(),
            exists|states: Seq<RegistryModel>|
                #[trigger] restored_steps(states, conversations@, terminal_surface_id) && states[0]
                    == old(self)@ && states.last() == final(self)@,
    {
        let ghost mut states: Seq<RegistryModel> = seq![self@];
        let mut i: usize = 0;
        while i < conversations.len()
            invariant
                self.wf(),
                i <= conversations.len(),
                states.len() == i + 1,
                states[0] == old(self)@,
                states.last() == self@,
                forall|j: int|
                    0 <= j < i ==> restored_step(
                        states[j],
                        #[trigger] conversations@[j],
                        terminal_surface_id,
                        states[j + 1],
                    ),
            decreases conversations.len() - i,
        {
            let ghost before = self@;
            if let Some(agent) = conversations[i].restored_agent(terminal_surface_id) {
                if self.find_conversation(agent.conversation_id).is_none() {
                    let ghost spec_agent = agent;
                    match self.restore_stopped(agent) {
                        Ok(run) => {
                            assert(self@ == after_restoration(
                                before,
                                spec_agent,
                                run.cancellation,
                            ));
                        },
                        Err(_) => {},
                    }
                    assert(restored_from(
                        conversations@[i as int],
                        terminal_surface_id,
                        spec_agent,
                    ));
                }
            }
            proof {
                assert(restored_step(
                    before,
                    conversations@[i as int],
                    terminal_surface_id,
                    self@,
                ));
                states = states.push(self@);
            }
            i += 1;
        }
        assert(restored_steps(states, conversations@, terminal_surface_id));
    }

    /// Follows a change of the conversation history. A status change of a
    /// registered run is reported back.
    pub fn handle_history_event(&mut self, event: &LocalHistoryEvent) -> (r: Option<
        LocalAgentRegistryEvent,
    >)
        requires
            old(self).wf(),
        ensures
            final(self).wf(),
            after_history_event(old(self)@, *event, final(self)@),
            match r {
                None => reported_status(old(self)@, *event) is None,
                Some(LocalAgentRegistryEvent::StatusChanged { run_id, status }) => reported_status(
                    old(self)@,
                    *event,
                ) == Some((run_id@, status)),
                Some(LocalAgentRegistryEvent::MessageAccepted { .. }) => false,
            },
    {
        match event {
            LocalHistoryEvent::RestoredConversations { terminal_surface_id, conversations } => {
                self.restore_conversations(*terminal_surface_id, conversations);
                None
            },
            LocalHistoryEvent::UpdatedConversationStatus { conversation_id, new_status } => {
                match self.find_conversation(*conversation_id) {
                    None => None,
                    Some(at) => {
                        assert(self@.entries[at as int].run == self.entries@[at as int].run@);
                        let status = local_status_for_conversation(
                            *new_status,
                            &self.entries[at].run,
                        );
                        let run_id = self.entries[at].run.run_id.clone();
                        self.put_status(at, status);
                        Some(LocalAgentRegistryEvent::StatusChanged { run_id, status })
                    },
                }
            },
            LocalHistoryEvent::DeletedConversation { conversation_id } => {
                self.remove_conversation(*conversation_id);
                None
            },
            LocalHistoryEvent::ConversationTransferredBetweenTerminalSurfaces {
                conversation_id,
                new_terminal_surface_id,
            } => {
                self.update_terminal_surface(*conversation_id, *new_terminal_surface_id);
                None
            },
            LocalHistoryEvent::Other => None,
        }
    }
}

// ---------------------------------------------------------------------------
// Messages to the user.

/// The text that tells the user of an error; `harness` is the display name of
/// the harness that it speaks of, if it does.
pub open spec fn error_text(error: ErrorModel, harness: Seq<char>) -> Seq<char> {
    match error {
        LocalAgentRegistryError::EmptyName => "local child agent name is required"@,
        LocalAgentRegistryError::EmptyPrompt => "local child agent prompt is required"@,
        LocalAgentRegistryError::EmptyMessage => "local agent message body is required"@,
        LocalAgentRegistryError::EmptySubject => "local agent message subject is required"@,
        LocalAgentRegistryError::UnknownRun(run_id) => "unknown local run id `"@ + run_id + "`"@,
        LocalAgentRegistryError::HistoricalRun(run_id) => "local run `"@ + run_id + "` is stopped"@,
        LocalAgentRegistryError::ControllerRequired(run_id) => "local run `"@ + run_id
            + "` has no live controller"@,
        LocalAgentRegistryError::ControllerOwnedByAnotherRun(run_id) => "local run `"@ + run_id
            + "` is owned by another controller"@,
        LocalAgentRegistryError::DuplicateSiblingName(name) => "local child sibling name `"@ + name
            + "` is already in use"@,
        LocalAgentRegistryError::FanoutLimit { requested, limit } => "local child fan-out "@
            + text::decimal(requested as nat) + " exceeds limit "@ + text::decimal(limit as nat),
        LocalAgentRegistryError::DepthLimit { requested, limit } => "local child nesting depth "@
            + text::decimal(requested as nat) + " exceeds limit "@ + text::decimal(limit as nat),
        LocalAgentRegistryError::ConcurrentLimit { limit } => "local live child limit "@
            + text::decimal(limit as nat) + " has been reached"@,
        LocalAgentRegistryError::QueueFull { run_id, limit } => "local run `"@ + run_id
            + "` message queue is full (limit "@ + text::decimal(limit as nat) + ")"@,
        LocalAgentRegistryError::ModelUnavailable => "selected local child model is unavailable"@,
        LocalAgentRegistryError::ToolsUnavailable => "selected local child model has no tools"@,
        LocalAgentRegistryError::WorkingDirectoryUnavailable(path) =>
            "local child working directory is unavailable: "@ + path,
        LocalAgentRegistryError::UnsupportedHarness(_) => "local child harness "@ + harness
            + " is unavailable"@,
        LocalAgentRegistryError::IdempotencyConflict(key) => "local action/request id `"@ + key
            + "` was already used for another run"@,
        LocalAgentRegistryError::DuplicateConversation(id) => "conversation `"@ + id
            + "` is already registered"@,
        LocalAgentRegistryError::InvalidRunId => "local run id must be non-empty"@,
        LocalAgentRegistryError::InvalidTopology(message) => "invalid local agent topology: "@
            + message,
    }
}

impl LocalAgentRegistryError {
    /// The text that tells the user of the error.
    pub fn message(&self, harness_name: &str) -> (r: String)
        ensures
            r@ == error_text(self@, harness_name@),
    {
        match self {
            LocalAgentRegistryError::EmptyName => "local child agent name is required".to_owned(),
            LocalAgentRegistryError::EmptyPrompt =>
                "local child agent prompt is required".to_owned(),
            LocalAgentRegistryError::EmptyMessage =>
                "local agent message body is required".to_owned(),
            LocalAgentRegistryError::EmptySubject =>
                "local agent message subject is required".to_owned(),
            LocalAgentRegistryError::UnknownRun(run_id) => text::concat3(
                "unknown local run id `",
                run_id.as_str(),
                "`",
            ),
            LocalAgentRegistryError::HistoricalRun(run_id) => text::concat3(
                "local run `",
                run_id.as_str(),
                "` is stopped",
            ),
            LocalAgentRegistryError::ControllerRequired(run_id) => text::concat3(
                "local run `",
                run_id.as_str(),
                "` has no live controller",
            ),
            LocalAgentRegistryError::ControllerOwnedByAnotherRun(run_id) => text::concat3(
                "local run `",
                run_id.as_str(),
                "` is owned by another controller",
            ),
            LocalAgentRegistryError::DuplicateSiblingName(name) => text::concat3(
                "local child sibling name `",
                name.as_str(),
                "` is already in use",
            ),
            LocalAgentRegistryError::FanoutLimit { requested, limit } => text::concat4(
                "local child fan-out ",
                text::decimal_usize(*requested).as_str(),
                " exceeds limit ",
                text::decimal_usize(*limit).as_str(),
            ),
            LocalAgentRegistryError::DepthLimit { requested, limit } => text::concat4(
                "local child nesting depth ",
                text::decimal_usize(*requested).as_str(),
                " exceeds limit ",
                text::decimal_usize(*limit).as_str(),
            ),
            LocalAgentRegistryError::ConcurrentLimit { limit } => text::concat3(
                "local live child limit ",
                text::decimal_usize(*limit).as_str(),
                " has been reached",
            ),
            LocalAgentRegistryError::QueueFull { run_id, limit } => text::concat5(
                "local run `",
                run_id.as_str(),
                "` message queue is full (limit ",
                text::decimal_usize(*limit).as_str(),
                ")",
            ),
            LocalAgentRegistryError::ModelUnavailable =>
                "selected local child model is unavailable".to_owned(),
            LocalAgentRegistryError::ToolsUnavailable =>
                "selected local child model has no tools".to_owned(),
            LocalAgentRegistryError::WorkingDirectoryUnavailable(path) => text::joined(
                "local child working directory is unavailable: ",
                path.as_str(),
            ),
            LocalAgentRegistryError::UnsupportedHarness(_) => text::concat3(
                "local child harness ",
                harness_name,
                " is unavailable",
            ),
            LocalAgentRegistryError::IdempotencyConflict(key) => text::concat3(
                "local action/request id `",
                key.as_str(),
                "` was already used for another run",
            ),
            LocalAgentRegistryError::DuplicateConversation(id) => text::concat3(
                "conversation `",
                id.as_str(),
                "` is already registered",
            ),
            LocalAgentRegistryError::InvalidRunId => "local run id must be non-empty".to_owned(),
            LocalAgentRegistryError::InvalidTopology(message) => text::joined(
                "invalid local agent topology: ",
                message.as_str(),
            ),
        }
    }
}

// ---------------------------------------------------------------------------
// Laws.

/// Putting a message back after it was taken restores the state: a failed
/// intake loses nothing and reorders nothing.
pub proof fn law_requeue_undoes_take(m: RegistryModel, at: int)
    requires
        m.valid(),
        0 <= at < m.entries.len(),
        m.entries[at].queue.len() > 0,
    ensures
        ({
            let queue = m.entries[at].queue;
            let taken = with_queue(m.entries, at, queue.subrange(1, queue.len() as int));
            with_queue(taken, at, seq![queue[0]] + taken[at].queue) == m.entries
        }),
{
    let queue = m.entries[at].queue;
    let taken = with_queue(m.entries, at, queue.subrange(1, queue.len() as int));
    assert(seq![queue[0]] + taken[at].queue =~= queue);
    assert(with_queue(taken, at, seq![queue[0]] + taken[at].queue) =~= m.entries);
}

/// An accepted message waits behind those that its recipient accepted before,
/// under a number of its own, and no other queue changes. The queue stays
/// within its bound.
pub proof fn law_accepted_message_waits_last(
    m: RegistryModel,
    sender: Seq<char>,
    sender_owner: Option<Seq<char>>,
    recipient: Seq<char>,
    subject: Seq<char>,
    body: Seq<char>,
    message_id: Seq<char>,
)
    requires
        m.valid(),
        message_error(m, sender, sender_owner, recipient, subject, body) is None,
    ensures
        ({
            let after = after_message(m, sender, recipient, subject, body, message_id);
            let at = run_position(m.entries, recipient);
            &&& 0 <= at < m.entries.len()
            &&& after.valid()
            &&& after.entries.len() == m.entries.len()
            &&& after.entries[at].queue.drop_last() == m.entries[at].queue
            &&& after.entries[at].queue.last().message_id == message_id
            &&& after.entries[at].queue.last().sequence == m.next_message_sequence
            &&& after.entries[at].queue.len() <= m.limits.max_pending_messages
            &&& after.next_message_sequence != m.next_message_sequence
            &&& forall|i: int|
                0 <= i < m.entries.len() && i != at ==> (#[trigger] after.entries[i])
                    == m.entries[i]
        }),
{
    let after = after_message(m, sender, recipient, subject, body, message_id);
    let at = run_position(m.entries, recipient);
    assert(m.entries[at].run.run_id == recipient);
    lemma_update_valid(m, at, after.entries[at]);
    assert(after.valid()) by {
        let same = RegistryModel { entries: after.entries, ..m };
        assert(same.valid());
    }
    assert(after.entries[at].queue.drop_last() =~= m.entries[at].queue);
}

/// A run that is over, such as one restored from the history, neither sends nor
/// receives messages.
pub proof fn law_historical_run_exchanges_no_messages(
    m: RegistryModel,
    run_id: Seq<char>,
    other: Seq<char>,
    owner: Option<Seq<char>>,
    subject: Seq<char>,
    body: Seq<char>,
)
    requires
        m.valid(),
        has_run(m.entries, run_id),
        run_of(m.entries, run_id).status.terminal(),
    ensures
        message_error(m, run_id, owner, other, subject, body) is Some,
        message_error(m, other, owner, run_id, subject, body) is Some,
{
}

proof fn lemma_with_key_found(
    known: Seq<(Seq<char>, Seq<char>)>,
    key: Seq<char>,
    run_id: Seq<char>,
    other: Seq<char>,
)
    requires
        unique_keys(known),
        other == key || (has_key(known, other) && known[key_position(known, other)].1 == run_id),
    ensures
        ({
            let after = with_key(known, key, run_id);
            has_key(after, other) && after[key_position(after, other)].1 == run_id
        }),
{
    let after = with_key(known, key, run_id);
    let at = key_position(known, key);
    assert(unique_keys(after)) by {
        assert forall|i: int, j: int|
            #![trigger after[i], after[j]]
            0 <= i < j < after.len() implies after[i].0 != after[j].0 by {
            if has_key(known, key) {
                assert(known[at].0 == key);
                assert(after[i].0 == known[i].0);
                assert(after[j].0 == known[j].0);
            } else if j < known.len() {
                assert(known[i].0 != known[j].0);
            } else {
                assert(known[i].0 == after[i].0);
            }
        }
    }
    if other == key {
        let p = if has_key(known, key) {
            at
        } else {
            known.len() as int
        };
        assert(after[p] == (key, run_id));
        lemma_key_position(after, p);
    } else {
        let p = key_position(known, other);
        assert(known[p].0 == other);
        if has_key(known, key) {
            assert(known[at].0 == key);
        }
        assert(after[p] == known[p]);
        lemma_key_position(after, p);
    }
}

proof fn lemma_with_keys_unique(
    known: Seq<(Seq<char>, Seq<char>)>,
    keys: Seq<Seq<char>>,
    run_id: Seq<char>,
    entries: Seq<EntryModel>,
)
    requires
        unique_keys(known),
        has_run(entries, run_id),
        forall|i: int| 0 <= i < known.len() ==> has_run(entries, (#[trigger] known[i]).1),
    ensures
        unique_keys(with_keys(known, keys, run_id)),
        forall|i: int|
            0 <= i < with_keys(known, keys, run_id).len() ==> has_run(
                entries,
                (#[trigger] with_keys(known, keys, run_id)[i]).1,
            ),
    decreases keys.len(),
{
    if keys.len() > 0 {
        lemma_with_keys_unique(known, keys.drop_last(), run_id, entries);
        lemma_with_key(
            with_keys(known, keys.drop_last(), run_id),
            keys.last(),
            run_id,
            entries,
        );
    }
}

proof fn lemma_with_keys_found(
    known: Seq<(Seq<char>, Seq<char>)>,
    keys: Seq<Seq<char>>,
    run_id: Seq<char>,
    entries: Seq<EntryModel>,
    k: int,
)
    requires
        unique_keys(known),
        has_run(entries, run_id),
        forall|i: int| 0 <= i < known.len() ==> has_run(entries, (#[trigger] known[i]).1),
        0 <= k < keys.len(),
    ensures
        ({
            let after = with_keys(known, keys, run_id);
            has_key(after, keys[k]) && after[key_position(after, keys[k])].1 == run_id
        }),
    decreases keys.len(),
{
    let init = with_keys(known, keys.drop_last(), run_id);
    lemma_with_keys_unique(known, keys.drop_last(), run_id, entries);
    if k < keys.len() - 1 {
        lemma_with_keys_found(known, keys.drop_last(), run_id, entries, k);
        assert(keys.drop_last()[k] == keys[k]);
    }
    lemma_with_key_found(init, keys.last(), run_id, keys[k]);
}

/// A second registration with the same keys for the same conversation, name
/// and parent returns the run that the first one created and changes nothing.
pub proof fn law_duplicate_key_returns_the_original_run(
    m: RegistryModel,
    request: LocalAgentRegistration,
    allocated: Seq<char>,
    handle: LocalAgentCancellationHandle,
    again: LocalAgentRegistration,
    allocated_again: Seq<char>,
)
    requires
        m.valid(),
        registration_answer(m, request, allocated) is Created,
        request.keys().len() > 0,
        again.keys() == request.keys(),
        again.conversation_id == request.conversation_id,
        again.name@ == request.name@,
        text::text_opt(again.parent_run_id) == text::text_opt(request.parent_run_id),
    ensures
        ({
            let run_id = registration_answer(m, request, allocated)->Created_0;
            let depth = registration_answer(m, request, allocated)->Created_1;
            let run = registered_run(request, run_id, depth, handle);
            registration_answer(after_registration(m, request, run), again, allocated_again)
                == RegistrationAnswer::Earlier(run)
        }),
{
    let run_id = registration_answer(m, request, allocated)->Created_0;
    let depth = registration_answer(m, request, allocated)->Created_1;
    let run = registered_run(request, run_id, depth, handle);
    let after = after_registration(m, request, run);
    let keys = request.keys();
    if let Some(parent) = run.parent_run_id {
        assert(has_run(m.entries, parent));
    }
    lemma_with_child(m.entries, run);
    let n = m.entries.len() as int;
    lemma_run_position(after.entries, n);
    assert forall|i: int| 0 <= i < m.idempotency.len() implies has_run(
        after.entries,
        (#[trigger] m.idempotency[i]).1,
    ) by {
        lemma_extends(m.entries, after.entries, m.idempotency[i].1);
    }
    lemma_with_keys_found(m.idempotency, keys, run_id, after.entries, 0);
    assert(first_known(after.idempotency, keys, 0) == 0);
}

proof fn lemma_live_children_same(before: Seq<EntryModel>, after: Seq<EntryModel>, n: int)
    requires
        0 <= n <= before.len(),
        n <= after.len(),
        forall|i: int|
            0 <= i < n ==> (#[trigger] after[i]).run.status == before[i].run.status
                && after[i].run.parent_run_id == before[i].run.parent_run_id,
    ensures
        live_children(after, n) == live_children(before, n),
    decreases n,
{
    if n > 0 {
        lemma_live_children_same(before, after, n - 1);
    }
}

/// A created child is within the limits: the live children stay within their
/// number and the child is not nested too deeply.
pub proof fn law_registration_stays_within_limits(
    m: RegistryModel,
    request: LocalAgentRegistration,
    allocated: Seq<char>,
    handle: LocalAgentCancellationHandle,
)
    requires
        m.valid(),
        m.entries.len() < usize::MAX,
        registration_answer(m, request, allocated) is Created,
    ensures
        ({
            let run_id = registration_answer(m, request, allocated)->Created_0;
            let depth = registration_answer(m, request, allocated)->Created_1;
            let run = registered_run(request, run_id, depth, handle);
            let after = after_registration(m, request, run);
            &&& live_children(after.entries, after.entries.len() as int)
                <= m.limits.max_live_children
            &&& run.parent_run_id is Some ==> run.depth <= m.limits.max_depth
            &&& run.parent_run_id is None ==> run.depth == 0
        }),
{
    let run_id = registration_answer(m, request, allocated)->Created_0;
    let depth = registration_answer(m, request, allocated)->Created_1;
    let run = registered_run(request, run_id, depth, handle);
    let after = after_registration(m, request, run);
    if let Some(parent) = run.parent_run_id {
        assert(has_run(m.entries, parent));
    }
    lemma_with_child(m.entries, run);
    let n = m.entries.len() as int;
    assert forall|i: int| 0 <= i < n implies (#[trigger] after.entries[i]).run.status
        == m.entries[i].run.status && after.entries[i].run.parent_run_id
        == m.entries[i].run.parent_run_id by {}
    lemma_live_children_same(m.entries, after.entries, n);
    lemma_live_children_count(m.entries, n);
}

proof fn lemma_live_children_count(entries: Seq<EntryModel>, n: int)
    requires
        0 <= n,
    ensures
        live_children(entries, n) <= n,
    decreases n,
{
    if n > 0 {
        lemma_live_children_count(entries, n - 1);
    }
}

/// A restored run is stopped and without a controller, so it takes part in no
/// messaging until a controller claims it.
pub proof fn law_restored_run_is_stopped(
    m: RegistryModel,
    restored: RestoredLocalAgent,
    handle: LocalAgentCancellationHandle,
)
    requires
        m.valid(),
        restoration_error(m, restored) is None,
    ensures
        ({
            let after = after_restoration(m, restored, handle);
            let run = run_of(after.entries, restored.run_id@);
            &&& has_run(after.entries, restored.run_id@)
            &&& run.status is Stopped
            &&& run.controller_owner is None
            &&& !run.ready()
        }),
{
    let after = after_restoration(m, restored, handle);
    let run = attached_run(
        m.entries,
        restored.run_id@,
        restored.conversation_id,
        restored.terminal_surface_id,
        restored.pane_id,
        text::text_opt(restored.parent_run_id),
        restored.name@,
        restored.harness,
        None,
        LocalAgentStatus::Stopped,
        handle,
    );
    let linked = with_child(m.entries, run);
    lemma_with_child(m.entries, run);
    lemma_rebuilt(linked);
    let n = m.entries.len() as int;
    assert(after.entries[n].run.run_id == restored.run_id@);
    lemma_run_position(after.entries, n);
}

/// Every listed child of a run is registered, names that run as its parent, is
/// listed once, and is listed by no other run. Children stand in the order in
/// which they were registered.
pub proof fn law_children_are_listed_once(m: RegistryModel, parent: Seq<char>, other: Seq<char>)
    requires
        m.valid(),
        has_run(m.entries, parent),
    ensures
        ({
            let children = run_of(m.entries, parent).child_run_ids;
            &&& children.no_duplicates()
            &&& forall|k: int|
                0 <= k < children.len() ==> has_run(m.entries, #[trigger] children[k]) && run_of(
                    m.entries,
                    children[k],
                ).parent_run_id == Some(parent)
            &&& forall|k: int, l: int|
                #![trigger children[k], children[l]]
                0 <= k < l < children.len() ==> run_position(m.entries, children[k])
                    < run_position(m.entries, children[l])
            &&& other != parent && has_run(m.entries, other) ==> forall|k: int|
                0 <= k < children.len() ==> !run_of(m.entries, other).child_run_ids.contains(
                    #[trigger] children[k],
                )
        }),
{
    let at = run_position(m.entries, parent);
    let children = m.entries[at].run.child_run_ids;
    assert(m.entries[at].run.run_id == parent);
    assert forall|k: int| 0 <= k < children.len() implies has_run(m.entries, #[trigger] children[k])
        && run_of(m.entries, children[k]).parent_run_id == Some(parent) by {
        let child = m.entries[at].run.child_run_ids[k];
        assert(has_run(m.entries, child));
    }
    assert forall|k: int, l: int|
        #![trigger children[k], children[l]]
        0 <= k < l < children.len() implies run_position(m.entries, children[k]) < run_position(
        m.entries,
        children[l],
    ) by {
        let first = m.entries[at].run.child_run_ids[k];
        let second = m.entries[at].run.child_run_ids[l];
        assert(run_position(m.entries, first) < run_position(m.entries, second));
    }
    if other != parent && has_run(m.entries, other) {
        let b = run_position(m.entries, other);
        assert(m.entries[b].run.run_id == other);
        assert forall|k: int| 0 <= k < children.len() implies !run_of(
            m.entries,
            other,
        ).child_run_ids.contains(#[trigger] children[k]) by {
            let theirs = m.entries[b].run.child_run_ids;
            if theirs.contains(children[k]) {
                let l = choose|l: int| 0 <= l < theirs.len() && theirs[l] == children[k];
                let child = m.entries[b].run.child_run_ids[l];
                assert(run_of(m.entries, child).parent_run_id == Some(other));
            }
        }
    }
}

/// A stopped run becomes ready again when a controller of the local harness
/// claims it.
pub proof fn law_claimed_run_is_ready(
    m: RegistryModel,
    run_id: Seq<char>,
    owner: Seq<char>,
    handle: LocalAgentCancellationHandle,
)
    requires
        m.valid(),
        claim_error(m, run_id, owner) is None,
        run_of(m.entries, run_id).harness is Oz,
    ensures
        has_run(after_claim(m, run_id, owner, handle).entries, run_id),
        run_of(after_claim(m, run_id, owner, handle).entries, run_id).ready(),
{
    let at = run_position(m.entries, run_id);
    let after = after_claim(m, run_id, owner, handle);
    assert(m.entries[at].run.run_id == run_id);
    lemma_update_valid(m, at, after.entries[at]);
    assert(after.entries[at].run.run_id == run_id);
    lemma_run_position(after.entries, at);
}

/// The position of a run's registered parent, if it has one.
pub open spec fn parent_position(entries: Seq<EntryModel>, at: int) -> Option<int> {
    match entries[at].run.parent_run_id {
        Some(parent) if has_run(entries, parent) => Some(run_position(entries, parent)),
        _ => None,
    }
}

/// The position of a run's ancestor `k` generations up, if there is one.
pub open spec fn ancestor(entries: Seq<EntryModel>, at: int, k: nat) -> Option<int>
    decreases k,
{
    if k == 0 {
        Some(at)
    } else {
        match parent_position(entries, at) {
            Some(parent) => ancestor(entries, parent, (k - 1) as nat),
            None => None,
        }
    }
}

proof fn lemma_ancestor_in_range(entries: Seq<EntryModel>, at: int, k: nat)
    requires
        0 <= at < entries.len(),
    ensures
        ancestor(entries, at, k) matches Some(p) ==> 0 <= p < entries.len(),
    decreases k,
{
    if k > 0 {
        if let Some(parent) = parent_position(entries, at) {
            lemma_ancestor_in_range(entries, parent, (k - 1) as nat);
        }
    }
}

proof fn lemma_ancestor_shift(entries: Seq<EntryModel>, at: int, i: nat, t: nat)
    ensures
        ancestor(entries, at, i + t) == match ancestor(entries, at, i) {
            Some(p) => ancestor(entries, p, t),
            None => None,
        },
    decreases i,
{
    if i > 0 {
        if let Some(parent) = parent_position(entries, at) {
            lemma_ancestor_shift(entries, parent, (i - 1) as nat, t);
        }
    }
}

/// A chain ends where there is no next ancestor.
proof fn lemma_chain_ancestors(entries: Seq<EntryModel>, at: int, steps: nat) -> (n: nat)
    ensures
        chain_end(entries, at, steps) is Endless ==> ancestor(entries, at, steps + 1) is Some,
        !(chain_end(entries, at, steps) is Endless) ==> ancestor(entries, at, n) is None,
    decreases steps,
{
    match parent_position(entries, at) {
        None => 1,
        Some(parent) => {
            if steps == 0 {
                assert(ancestor(entries, parent, 0) is Some);
                0
            } else {
                let m = lemma_chain_ancestors(entries, parent, (steps - 1) as nat);
                m + 1
            }
        },
    }
}

/// A run that is its own ancestor has an ancestor of every generation.
proof fn lemma_periodic(entries: Seq<EntryModel>, at: int, period: nat, k: nat)
    requires
        period > 0,
        ancestor(entries, at, period) == Some(at),
    ensures
        ancestor(entries, at, k) is Some,
    decreases k,
{
    if k < period {
        lemma_ancestor_shift(entries, at, k, (period - k) as nat);
    } else {
        lemma_periodic(entries, at, period, (k - period) as nat);
        lemma_ancestor_shift(entries, at, period, (k - period) as nat);
    }
}

proof fn lemma_pigeonhole(s: Seq<int>, n: int)
    requires
        s.len() == n + 1,
        n >= 0,
        forall|i: int| 0 <= i < s.len() ==> 0 <= #[trigger] s[i] < n,
    ensures
        exists|i: int, j: int| 0 <= i < j < s.len() && #[trigger] s[i] == #[trigger] s[j],
{
    if !(exists|i: int, j: int| 0 <= i < j < s.len() && #[trigger] s[i] == #[trigger] s[j]) {
        assert(s.no_duplicates()) by {
            assert forall|i: int, j: int|
                0 <= i < s.len() && 0 <= j < s.len() && i != j implies s[i] != s[j] by {
                if i < j {
                } else {
                    assert(0 <= j < i < s.len());
                }
            }
        }
        s.unique_seq_to_set();
        vstd::set_lib::lemma_int_range(0, n);
        let range = vstd::set_lib::set_int_range(0, n);
        assert(s.to_set().subset_of(range));
        vstd::set_lib::lemma_len_subset(s.to_set(), range);
    }
}

/// Whether some run comes twice in a run's chain of parents.
pub open spec fn on_or_below_cycle(entries: Seq<EntryModel>, at: int) -> bool {
    exists|i: nat, j: nat|
        i < j && #[trigger] ancestor(entries, at, i) is Some && #[trigger] ancestor(entries, at, j)
            == ancestor(entries, at, i)
}

/// A run has no depth exactly when its chain of parents comes back to a run it
/// has passed.
pub proof fn law_no_depth_means_a_cycle(entries: Seq<EntryModel>, at: int)
    requires
        unique_runs(entries),
        0 <= at < entries.len(),
    ensures
        topology_depth(entries, at) is None <==> on_or_below_cycle(entries, at),
{
    let n = entries.len() as int;
    let end = lemma_chain_ancestors(entries, at, (n - 1) as nat);
    if topology_depth(entries, at) is None {
        let s = Seq::new((n + 1) as nat, |k: int| ancestor(entries, at, k as nat)->0);
        assert forall|k: int| 0 <= k < s.len() implies 0 <= #[trigger] s[k] < n by {
            lemma_ancestor_shift(entries, at, k as nat, (n - k) as nat);
            lemma_ancestor_in_range(entries, at, k as nat);
        }
        lemma_pigeonhole(s, n);
        let (i, j) = choose|i: int, j: int|
            0 <= i < j < s.len() && #[trigger] s[i] == #[trigger] s[j];
        lemma_ancestor_shift(entries, at, i as nat, (n - i) as nat);
        lemma_ancestor_shift(entries, at, j as nat, (n - j) as nat);
        assert(ancestor(entries, at, i as nat) is Some);
        assert(ancestor(entries, at, j as nat) == ancestor(entries, at, i as nat));
    }
    if on_or_below_cycle(entries, at) {
        let (i, j) = choose|i: nat, j: nat|
            i < j && #[trigger] ancestor(entries, at, i) is Some && #[trigger] ancestor(
                entries,
                at,
                j,
            ) == ancestor(entries, at, i);
        let p = ancestor(entries, at, i)->0;
        lemma_ancestor_shift(entries, at, i, (j - i) as nat);
        if end <= i {
            lemma_ancestor_shift(entries, at, end, (i - end) as nat);
        } else {
            lemma_periodic(entries, p, (j - i) as nat, (end - i) as nat);
            lemma_ancestor_shift(entries, at, i, (end - i) as nat);
        }
    }
}

proof fn lemma_renamed_position(m: RegistryModel, at: int, to: Seq<char>, i: int)
    requires
        m.valid(),
        0 <= at < m.entries.len(),
        0 <= i < m.entries.len(),
        !has_run(m.entries, to),
        forall|j: int|
            0 <= j < m.entries.len() ==> (#[trigger] m.entries[j]).run.parent_run_id != Some(to),
        m.entries[at].run.parent_run_id != Some(m.entries[at].run.run_id),
    ensures
        parent_position(renamed(m.entries, m.entries[at].run.run_id, to), i) == parent_position(
            m.entries,
            i,
        ),
        renamed(m.entries, m.entries[at].run.run_id, to)[i].run.parent_run_id is None
            <==> m.entries[i].run.parent_run_id is None,
{
    let from = m.entries[at].run.run_id;
    let named = renamed(m.entries, from, to);
    lemma_rebind_valid(m, at, to);
    if let Some(parent) = m.entries[i].run.parent_run_id {
        if has_run(m.entries, parent) {
            let p = run_position(m.entries, parent);
            assert(m.entries[p].run.run_id == parent);
            assert(named[p].run.run_id == renamed_id(parent, from, to));
            if m.entries[i].run.run_id == from {
                lemma_run_position(m.entries, at);
                lemma_run_position(m.entries, i);
                assert(i == at);
                assert(parent != from);
            }
            assert(named[i].run.parent_run_id == Some(renamed_id(parent, from, to)));
            lemma_run_position(named, p);
        } else {
            assert(m.entries[at].run.run_id == from);
            assert(parent != from);
            assert(named[i].run.parent_run_id == Some(parent));
            if has_run(named, parent) {
                let q = run_position(named, parent);
                assert(named[q].run.run_id == parent);
                assert(m.entries[q].run.run_id == parent);
            }
        }
    }
}

proof fn lemma_same_chain(a: Seq<EntryModel>, b: Seq<EntryModel>, at: int, steps: nat)
    requires
        a.len() == b.len(),
        0 <= at < a.len(),
        forall|i: int|
            0 <= i < a.len() ==> #[trigger] parent_position(a, i) == parent_position(b, i)
                && (a[i].run.parent_run_id is None <==> b[i].run.parent_run_id is None),
    ensures
        match (chain_end(a, at, steps), chain_end(b, at, steps)) {
            (ChainEnd::Root(x), ChainEnd::Root(y)) => x == y,
            (ChainEnd::Dangling(_), ChainEnd::Dangling(_)) => true,
            (ChainEnd::Endless, ChainEnd::Endless) => true,
            _ => false,
        },
    decreases steps,
{
    assert(parent_position(a, at) == parent_position(b, at));
    if let Some(p) = parent_position(a, at) {
        assert(0 <= p < a.len());
        if steps > 0 {
            lemma_same_chain(a, b, p, (steps - 1) as nat);
        }
    }
}

/// Giving a run another identifier changes no depth: every parent link leads
/// to the same run as before. This holds unless a run already names the new
/// identifier as a parent that is not registered, or the run names itself.
pub proof fn law_rebinding_keeps_depths(m: RegistryModel, at: int, to: Seq<char>, i: int)
    requires
        m.valid(),
        m.entries.len() <= usize::MAX,
        0 <= at < m.entries.len(),
        0 <= i < m.entries.len(),
        !has_run(m.entries, to),
        forall|j: int|
            0 <= j < m.entries.len() ==> (#[trigger] m.entries[j]).run.parent_run_id != Some(to),
        m.entries[at].run.parent_run_id != Some(m.entries[at].run.run_id),
    ensures
        ({
            let after = after_rebind(m, m.entries[at].run.run_id, to);
            &&& after.entries[i].run.depth == rebuilt_depth(m.entries, i)
            &&& after.entries[i].queue.len() == m.entries[i].queue.len()
            &&& after.entries[i].run.conversation_id == m.entries[i].run.conversation_id
        }),
{
    let from = m.entries[at].run.run_id;
    let named = renamed(m.entries, from, to);
    assert forall|j: int| 0 <= j < m.entries.len() implies #[trigger] parent_position(
        m.entries,
        j,
    ) == parent_position(named, j) && (m.entries[j].run.parent_run_id is None
        <==> named[j].run.parent_run_id is None) by {
        lemma_renamed_position(m, at, to, j);
    }
    lemma_same_chain(m.entries, named, i, (m.entries.len() - 1) as nat);
    lemma_run_position(m.entries, at);
    lemma_depth_bound(named, i);
    lemma_depth_bound(m.entries, i);
}

// ---------------------------------------------------------------------------
// What the registry promises, told by positions.

/// Whether a run can send and receive: of the local harness, with a controller,
/// and not over.
pub open spec fn takes_part(run: RunModel) -> bool {
    &&& run.harness is Oz
    &&& run.controller_owner is Some
    &&& run.status is Starting || run.status is Idle || run.status is Running
        || run.status is Blocked
}

/// A message is accepted exactly where it says something, sender and recipient
/// take part, the sender's controller is the one that sends, and the
/// recipient's queue has room.
pub proof fn law_messages_that_are_accepted(
    m: RegistryModel,
    i: int,
    j: int,
    sender_owner: Option<Seq<char>>,
    subject: Seq<char>,
    body: Seq<char>,
)
    requires
        m.valid(),
        0 <= i < m.entries.len(),
        0 <= j < m.entries.len(),
    ensures
        message_error(
            m,
            m.entries[i].run.run_id,
            sender_owner,
            m.entries[j].run.run_id,
            subject,
            body,
        ) is None <==> {
            &&& !text::is_blank(subject)
            &&& !text::is_blank(body)
            &&& takes_part(m.entries[i].run)
            &&& takes_part(m.entries[j].run)
            &&& sender_owner is Some ==> m.entries[i].run.controller_owner == sender_owner
            &&& m.entries[j].queue.len() < m.limits.max_pending_messages
        },
{
    lemma_run_position(m.entries, i);
    lemma_run_position(m.entries, j);
}

/// A message that is not accepted tells why, and comes from the first thing
/// that is wrong with it.
pub proof fn law_refused_messages_tell_why(
    m: RegistryModel,
    i: int,
    j: int,
    owner: Seq<char>,
    subject: Seq<char>,
    body: Seq<char>,
    unknown: Seq<char>,
)
    requires
        m.valid(),
        0 <= i < m.entries.len(),
        0 <= j < m.entries.len(),
        !has_run(m.entries, unknown),
        !text::is_blank(subject),
        !text::is_blank(body),
    ensures
        ({
            let sender = m.entries[i].run;
            let recipient = m.entries[j].run;
            let blank = Seq::<char>::empty();
            &&& message_error(m, sender.run_id, None, recipient.run_id, blank, body) == Some(
                LocalAgentRegistryError::<Seq<char>>::EmptySubject,
            )
            &&& message_error(m, sender.run_id, None, recipient.run_id, subject, blank) == Some(
                LocalAgentRegistryError::<Seq<char>>::EmptyMessage,
            )
            &&& message_error(m, unknown, None, recipient.run_id, subject, body) == Some(
                LocalAgentRegistryError::<Seq<char>>::UnknownRun(unknown),
            )
            &&& takes_part(sender) ==> {
                &&& message_error(m, sender.run_id, None, unknown, subject, body) == Some(
                    LocalAgentRegistryError::<Seq<char>>::UnknownRun(unknown),
                )
                &&& sender.controller_owner != Some(owner) ==> message_error(
                    m,
                    sender.run_id,
                    Some(owner),
                    recipient.run_id,
                    subject,
                    body,
                ) == Some(
                    LocalAgentRegistryError::<Seq<char>>::ControllerOwnedByAnotherRun(
                        sender.run_id,
                    ),
                )
                &&& takes_part(recipient) && m.entries[j].queue.len()
                    >= m.limits.max_pending_messages ==> message_error(
                    m,
                    sender.run_id,
                    None,
                    recipient.run_id,
                    subject,
                    body,
                ) == Some(
                    LocalAgentRegistryError::<Seq<char>>::QueueFull {
                        run_id: recipient.run_id,
                        limit: m.limits.max_pending_messages,
                    },
                )
                &&& (recipient.status is Succeeded || recipient.status is Failed
                    || recipient.status is Cancelled || recipient.status is Stopped)
                    ==> message_error(
                    m,
                    sender.run_id,
                    None,
                    recipient.run_id,
                    subject,
                    body,
                ) == Some(LocalAgentRegistryError::<Seq<char>>::HistoricalRun(recipient.run_id))
            }
        }),
{
    lemma_run_position(m.entries, i);
    lemma_run_position(m.entries, j);
}

/// A message arrives as it was sent: what waits last for the recipient is what
/// the sender said, from whom and to whom, under its identifier and its number.
pub proof fn law_message_arrives_as_it_was_sent(
    m: RegistryModel,
    sender: Seq<char>,
    j: int,
    subject: Seq<char>,
    body: Seq<char>,
    message_id: Seq<char>,
    arrived: LocalAgentMessageEnvelope,
)
    requires
        m.valid(),
        0 <= j < m.entries.len(),
        after_message(
            m,
            sender,
            m.entries[j].run.run_id,
            subject,
            body,
            message_id,
        ).entries[j].queue.last() == arrived@,
    ensures
        arrived.message_id@ == message_id,
        arrived.sender_run_id@ == sender,
        arrived.recipient_run_id@ == m.entries[j].run.run_id,
        arrived.subject@ == subject,
        arrived.body@ == body,
        arrived.sequence == m.next_message_sequence,
        ({
            let after = after_message(
                m,
                sender,
                m.entries[j].run.run_id,
                subject,
                body,
                message_id,
            );
            &&& after.entries[j].run == m.entries[j].run
            &&& after.entries[j].queue.drop_last() == m.entries[j].queue
            &&& after.idempotency == m.idempotency
            &&& after.limits == m.limits
            &&& m.next_message_sequence < u64::MAX ==> after.next_message_sequence
                == m.next_message_sequence + 1
        }),
{
    lemma_run_position(m.entries, j);
    let after = after_message(m, sender, m.entries[j].run.run_id, subject, body, message_id);
    assert(after.entries[j].queue.drop_last() =~= m.entries[j].queue);
}

proof fn lemma_live_children_filter(entries: Seq<EntryModel>, n: int)
    requires
        0 <= n <= entries.len(),
    ensures
        live_children(entries, n) == entries.take(n).filter(
            |e: EntryModel| e.run.parent_run_id is Some && !e.run.status.terminal(),
        ).len(),
    decreases n,
{
    reveal(Seq::filter);
    let part = entries.take(n);
    if n > 0 {
        lemma_live_children_filter(entries, n - 1);
        assert(part.drop_last() =~= entries.take(n - 1));
    }
}

proof fn lemma_live_count_filter(entries: Seq<EntryModel>, ids: Seq<Seq<char>>)
    ensures
        live_count(entries, ids) == ids.filter(
            |id: Seq<char>| has_run(entries, id) && !run_of(entries, id).status.terminal(),
        ).len(),
        live_count(entries, ids) <= ids.len(),
    decreases ids.len(),
{
    reveal(Seq::filter);
    if ids.len() > 0 {
        lemma_live_count_filter(entries, ids.drop_last());
    }
}

/// A child may be started exactly where it is named and asked for something,
/// its model, tools, harness and directory are there, and the limits leave
/// room: for the requested children beside the parent's live ones, below it,
/// and beside all live ones. Its depth is one more than its parent's.
pub proof fn law_children_that_may_be_started(m: RegistryModel, q: PreflightModel)
    requires
        m.valid(),
        m.entries.len() + m.limits.max_fanout < usize::MAX,
        forall|i: int|
            0 <= i < m.entries.len() ==> (#[trigger] m.entries[i]).run.child_run_ids.len()
                <= m.entries.len(),
    ensures
        ({
            let all_live = m.entries.filter(
                |e: EntryModel| e.run.parent_run_id is Some && !e.run.status.terminal(),
            ).len();
            let fit = {
                &&& !text::is_blank(q.name)
                &&& !text::is_blank(q.prompt)
                &&& 1 <= q.requested_fanout <= m.limits.max_fanout
                &&& q.model_available
                &&& q.tools_available
                &&& !(q.harness is Unknown)
                &&& !(q.harness is Gemini)
                &&& q.working_directory is Some ==> q.working_directory_exists
                &&& all_live + q.requested_fanout <= m.limits.max_live_children
            };
            match q.parent_run_id {
                None => {
                    &&& preflight_outcome(m, q) is Ok <==> fit
                    &&& preflight_outcome(m, q) matches Ok(depth) ==> depth == 0
                },
                Some(parent) => {
                    let run = run_of(m.entries, parent);
                    let live = run.child_run_ids.filter(
                        |id: Seq<char>|
                            has_run(m.entries, id) && !run_of(m.entries, id).status.terminal(),
                    ).len();
                    &&& preflight_outcome(m, q) is Ok <==> {
                        &&& fit
                        &&& has_run(m.entries, parent)
                        &&& !run.status.terminal()
                        &&& run.controller_owner is Some
                        &&& forall|k: int|
                            0 <= k < run.child_run_ids.len() && has_run(
                                m.entries,
                                #[trigger] run.child_run_ids[k],
                            ) && !run_of(m.entries, run.child_run_ids[k]).status.terminal()
                                ==> run_of(m.entries, run.child_run_ids[k]).name != q.name
                        &&& run.depth + 1 <= m.limits.max_depth
                        &&& live + q.requested_fanout <= m.limits.max_fanout
                    }
                    &&& preflight_outcome(m, q) matches Ok(depth) ==> depth == run.depth + 1
                },
            }
        }),
{
    let n = m.entries.len() as int;
    lemma_live_children_filter(m.entries, n);
    lemma_live_children_count(m.entries, n);
    assert(m.entries.take(n) =~= m.entries);
    if let Some(parent) = q.parent_run_id {
        if has_run(m.entries, parent) {
            let at = run_position(m.entries, parent);
            assert(m.entries[at].run.child_run_ids.len() <= m.entries.len());
            lemma_live_count_filter(m.entries, m.entries[at].run.child_run_ids);
        }
    }
}

/// What may not be started is refused for what is wrong with it.
pub proof fn law_refused_children_tell_why(m: RegistryModel, q: PreflightModel)
    ensures
        text::is_blank(q.name) ==> preflight_outcome(m, q) == Err::<usize, ErrorModel>(
            LocalAgentRegistryError::EmptyName,
        ),
        !text::is_blank(q.name) && text::is_blank(q.prompt) ==> preflight_outcome(m, q) == Err::<
            usize,
            ErrorModel,
        >(LocalAgentRegistryError::EmptyPrompt),
        !text::is_blank(q.name) && !text::is_blank(q.prompt) && (q.requested_fanout == 0
            || q.requested_fanout > m.limits.max_fanout) ==> preflight_outcome(m, q) == Err::<
            usize,
            ErrorModel,
        >(
            LocalAgentRegistryError::FanoutLimit {
                requested: q.requested_fanout,
                limit: m.limits.max_fanout,
            },
        ),
        !text::is_blank(q.name) && !text::is_blank(q.prompt) && 1 <= q.requested_fanout
            <= m.limits.max_fanout ==> {
            &&& !q.model_available ==> preflight_outcome(m, q) == Err::<usize, ErrorModel>(
                LocalAgentRegistryError::ModelUnavailable,
            )
            &&& q.model_available && !q.tools_available ==> preflight_outcome(m, q) == Err::<
                usize,
                ErrorModel,
            >(LocalAgentRegistryError::ToolsUnavailable)
            &&& q.model_available && q.tools_available && (q.harness is Unknown
                || q.harness is Gemini) ==> preflight_outcome(m, q) == Err::<usize, ErrorModel>(
                LocalAgentRegistryError::UnsupportedHarness(q.harness),
            )
        },
{
}

/// A created run is what was asked for: it stands last, of the conversation,
/// name, parent, harness, places and controller that were given, just starting,
/// with no children and an empty queue; its parent lists it last, and no other
/// run changes.
pub proof fn law_created_run_is_what_was_asked_for(
    m: RegistryModel,
    request: LocalAgentRegistration,
    allocated: Seq<char>,
    handle: LocalAgentCancellationHandle,
    i: int,
)
    requires
        m.valid(),
        registration_answer(m, request, allocated) is Created,
        0 <= i < m.entries.len(),
    ensures
        ({
            let run_id = registration_answer(m, request, allocated)->Created_0;
            let depth = registration_answer(m, request, allocated)->Created_1;
            let run = registered_run(request, run_id, depth, handle);
            let after = after_registration(m, request, run);
            let created = after.entries.last();
            &&& after.entries.len() == m.entries.len() + 1
            &&& created.queue.len() == 0
            &&& created.run.run_id == run_id
            &&& created.run.conversation_id == request.conversation_id
            &&& created.run.terminal_surface_id == request.terminal_surface_id
            &&& created.run.pane_id == request.pane_id
            &&& created.run.parent_run_id == text::text_opt(request.parent_run_id)
            &&& created.run.child_run_ids.len() == 0
            &&& created.run.name == request.name@
            &&& created.run.harness == request.harness
            &&& created.run.status is Starting
            &&& created.run.controller_owner == text::text_opt(request.controller_owner)
            &&& request.run_id matches Some(id) ==> (if text::is_blank(id@) {
                run_id == allocated
            } else {
                run_id == id@
            })
            &&& request.run_id is None ==> run_id == allocated
            &&& !has_run(m.entries, run_id)
            &&& !has_conversation(m.entries, request.conversation_id)
            &&& after.entries[i].queue == m.entries[i].queue
            &&& text::text_opt(request.parent_run_id) == Some(m.entries[i].run.run_id)
                ==> after.entries[i].run == (RunModel {
                child_run_ids: m.entries[i].run.child_run_ids.push(run_id),
                ..m.entries[i].run
            })
            &&& text::text_opt(request.parent_run_id) != Some(m.entries[i].run.run_id)
                ==> after.entries[i].run == m.entries[i].run
            &&& after.next_message_sequence == m.next_message_sequence
            &&& after.limits == m.limits
        }),
{
    lemma_run_position(m.entries, i);
}

/// A registration is refused where its conversation already has a run, unless a
/// key of it has produced that run before.
pub proof fn law_conversation_has_one_run(
    m: RegistryModel,
    request: LocalAgentRegistration,
    allocated: Seq<char>,
    i: int,
)
    requires
        m.valid(),
        0 <= i < m.entries.len(),
        m.entries[i].run.conversation_id == request.conversation_id,
        request.action_id is None || text::is_blank(request.action_id->0@),
        request.request_id is None || text::is_blank(request.request_id->0@),
    ensures
        registration_answer(m, request, allocated) is Refused,
{
    assert(request.keys().len() == 0);
}

/// A key is the trimmed text of the action or of the request, and a key that
/// was used for something else is refused.
pub proof fn law_keys_stand_for_one_request(
    m: RegistryModel,
    request: LocalAgentRegistration,
    allocated: Seq<char>,
    k: int,
)
    requires
        m.valid(),
        request.action_id is Some,
        !text::is_blank(request.action_id->0@),
        0 <= k < m.idempotency.len(),
        m.idempotency[k].0 == text::trimmed(request.action_id->0@),
    ensures
        ({
            let run = run_of(m.entries, m.idempotency[k].1);
            let same = run.conversation_id == request.conversation_id && run.name == request.name@
                && run.parent_run_id == text::text_opt(request.parent_run_id);
            &&& same ==> registration_answer(m, request, allocated) == RegistrationAnswer::Earlier(
                run,
            )
            &&& !same ==> registration_answer(m, request, allocated)
                == RegistrationAnswer::Refused(
                LocalAgentRegistryError::IdempotencyConflict(
                    text::trimmed(request.action_id->0@),
                ),
            )
        }),
{
    let key = text::trimmed(request.action_id->0@);
    let keys = request.keys();
    assert(keys[0] == key);
    assert(has_key(m.idempotency, key));
    let at = key_position(m.idempotency, key);
    assert(m.idempotency[at].0 == key);
    assert(at == k) by {
        if at < k {
            assert(m.idempotency[at].0 != m.idempotency[k].0);
        } else if k < at {
            assert(m.idempotency[k].0 != m.idempotency[at].0);
        }
    }
    assert(first_known(m.idempotency, keys, 0) == 0);
}

/// A claim gives a run its controller and wakes it where it was over; nothing
/// else of it changes, and no other run does. Only a free run, or one of the
/// same controller, can be claimed.
pub proof fn law_claims_change_the_controller_only(
    m: RegistryModel,
    at: int,
    owner: Seq<char>,
    handle: LocalAgentCancellationHandle,
    i: int,
)
    requires
        m.valid(),
        0 <= at < m.entries.len(),
        0 <= i < m.entries.len(),
    ensures
        claim_error(m, m.entries[at].run.run_id, owner) is None <==> !text::is_blank(owner) && (
        m.entries[at].run.controller_owner is None || m.entries[at].run.controller_owner == Some(
            owner,
        )),
        ({
            let after = after_claim(m, m.entries[at].run.run_id, owner, handle);
            let run = m.entries[at].run;
            let claimed = after.entries[at].run;
            &&& after.entries.len() == m.entries.len()
            &&& i != at ==> after.entries[i] == m.entries[i]
            &&& after.entries[at].queue == m.entries[at].queue
            &&& claimed.controller_owner == Some(owner)
            &&& claimed.cancellation == handle
            &&& run.status is Succeeded || run.status is Failed || run.status is Cancelled
                || run.status is Stopped ==> claimed.status is Idle
            &&& run.status is Starting || run.status is Idle || run.status is Running
                || run.status is Blocked ==> claimed.status == run.status
            &&& claimed.run_id == run.run_id
            &&& claimed.conversation_id == run.conversation_id
            &&& claimed.parent_run_id == run.parent_run_id
            &&& claimed.child_run_ids == run.child_run_ids
            &&& claimed.name == run.name
            &&& claimed.harness == run.harness
            &&& claimed.depth == run.depth
        }),
{
    lemma_run_position(m.entries, at);
}

/// Only its own controller acts on a run, and on one that is over nobody takes
/// or gives messages.
pub proof fn law_controllers_act_on_their_own_runs(m: RegistryModel, at: int, owner: Seq<char>)
    requires
        m.valid(),
        0 <= at < m.entries.len(),
    ensures
        ({
            let run = m.entries[at].run;
            &&& control_error(m, run.run_id, owner) is None <==> run.controller_owner == Some(owner)
            &&& live_control_error(m, run.run_id, owner) is None <==> run.controller_owner == Some(
                owner,
            ) && (run.status is Starting || run.status is Idle || run.status is Running
                || run.status is Blocked)
            &&& run.controller_owner is None ==> control_error(m, run.run_id, owner) == Some(
                LocalAgentRegistryError::<Seq<char>>::ControllerRequired(run.run_id),
            )
            &&& run.controller_owner is Some && run.controller_owner != Some(owner)
                ==> control_error(m, run.run_id, owner) == Some(
                LocalAgentRegistryError::<Seq<char>>::ControllerOwnedByAnotherRun(run.run_id),
            )
        }),
{
    lemma_run_position(m.entries, at);
}

/// A run follows its conversation: it runs, waits, fails or is cancelled with
/// it, and after a success it stays available to a controller of the local
/// harness and is over otherwise. Nothing else changes.
pub proof fn law_runs_follow_their_conversations(
    m: RegistryModel,
    at: int,
    new_status: ConversationStatus,
    i: int,
)
    requires
        m.valid(),
        0 <= at < m.entries.len(),
        0 <= i < m.entries.len(),
    ensures
        ({
            let run = m.entries[at].run;
            let after = after_status(m, run.conversation_id, new_status);
            let status = after.entries[at].run.status;
            let kept = run.harness is Oz && run.controller_owner is Some;
            &&& i != at ==> after.entries[i] == m.entries[i]
            &&& after.entries.len() == m.entries.len()
            &&& after.entries[at].queue == m.entries[at].queue
            &&& after.entries[at].run == (RunModel { status, ..run })
            &&& new_status is InProgress <==> status is Running
            &&& new_status is Blocked <==> status is Blocked
            &&& new_status is Error <==> status is Failed
            &&& new_status is Cancelled <==> status is Cancelled
            &&& new_status is Success && kept <==> status is Idle
            &&& new_status is Success && !kept <==> status is Succeeded
        }),
{
    lemma_conversation_at(m, at);
}

proof fn lemma_conversation_at(m: RegistryModel, at: int)
    requires
        m.valid(),
        0 <= at < m.entries.len(),
    ensures
        has_conversation(m.entries, m.entries[at].run.conversation_id),
        conversation_position(m.entries, m.entries[at].run.conversation_id) == at,
{
    let id = m.entries[at].run.conversation_id;
    let k = conversation_position(m.entries, id);
    assert(m.entries[k].run.conversation_id == id);
    if k < at {
        assert(m.entries[k].run.conversation_id != m.entries[at].run.conversation_id);
    } else if at < k {
        assert(m.entries[at].run.conversation_id != m.entries[k].run.conversation_id);
    }
}

/// A transfer changes the terminal surface of one run, and nothing else.
pub proof fn law_transfers_change_the_surface_only(
    m: RegistryModel,
    at: int,
    surface: EntityId,
    i: int,
)
    requires
        m.valid(),
        0 <= at < m.entries.len(),
        0 <= i < m.entries.len(),
    ensures
        ({
            let run = m.entries[at].run;
            let after = after_transfer(m, run.conversation_id, surface);
            &&& i != at ==> after.entries[i] == m.entries[i]
            &&& after.entries.len() == m.entries.len()
            &&& after.entries[at].queue == m.entries[at].queue
            &&& after.entries[at].run == (RunModel { terminal_surface_id: Some(surface), ..run })
        }),
{
    lemma_conversation_at(m, at);
}

/// A run under a new identifier is the same run: nobody is known by the old one
/// any more, and messages, keys and children follow it.
pub proof fn law_new_identifiers_replace_the_old(
    m: RegistryModel,
    at: int,
    to: Seq<char>,
    i: int,
    k: int,
)
    requires
        m.valid(),
        0 <= at < m.entries.len(),
        0 <= i < m.entries.len(),
        !has_run(m.entries, to),
    ensures
        ({
            let from = m.entries[at].run.run_id;
            let after = after_rebind(m, from, to);
            let old_run = m.entries[i].run;
            let new_run = after.entries[i].run;
            &&& after.entries.len() == m.entries.len()
            &&& after.entries[at].run.run_id == to
            &&& i != at ==> new_run.run_id == old_run.run_id
            &&& new_run.conversation_id == old_run.conversation_id
            &&& new_run.name == old_run.name
            &&& new_run.status == old_run.status
            &&& new_run.harness == old_run.harness
            &&& new_run.controller_owner == old_run.controller_owner
            &&& i != at && old_run.parent_run_id == Some(from) ==> new_run.parent_run_id == Some(to)
            &&& old_run.parent_run_id != Some(from) ==> new_run.parent_run_id
                == old_run.parent_run_id
            &&& after.entries[i].queue.len() == m.entries[i].queue.len()
            &&& 0 <= k < m.entries[i].queue.len() ==> {
                let before = m.entries[i].queue[k];
                let now = after.entries[i].queue[k];
                &&& now.message_id == before.message_id
                &&& now.subject == before.subject
                &&& now.body == before.body
                &&& now.sequence == before.sequence
                &&& before.sender_run_id == from ==> now.sender_run_id == to
                &&& before.sender_run_id != from ==> now.sender_run_id == before.sender_run_id
                &&& before.recipient_run_id == from ==> now.recipient_run_id == to
                &&& before.recipient_run_id != from ==> now.recipient_run_id
                    == before.recipient_run_id
            }
            &&& after.idempotency.len() == m.idempotency.len()
            &&& 0 <= k < m.idempotency.len() ==> {
                &&& after.idempotency[k].0 == m.idempotency[k].0
                &&& m.idempotency[k].1 == from ==> after.idempotency[k].1 == to
                &&& m.idempotency[k].1 != from ==> after.idempotency[k].1 == m.idempotency[k].1
            }
        }),
{
    let from = m.entries[at].run.run_id;
    lemma_run_position(m.entries, at);
    assert(from != to);
    if i < at {
        assert(m.entries[i].run.run_id != m.entries[at].run.run_id);
    } else if at < i {
        assert(m.entries[at].run.run_id != m.entries[i].run.run_id);
    }
}

/// An identifier is refused where it is blank or another run has it.
pub proof fn law_identifiers_that_are_taken(m: RegistryModel, at: int, to: Seq<char>)
    requires
        m.valid(),
        0 <= at < m.entries.len(),
    ensures
        rebind_error(m, m.entries[at].run.conversation_id, to) is None <==> !text::is_blank(to) && (
        m.entries[at].run.run_id == to || !has_run(m.entries, to)),
{
    lemma_conversation_at(m, at);
}

proof fn lemma_other_keys(keys: Seq<(Seq<char>, Seq<char>)>, run_id: Seq<char>, n: int)
    requires
        0 <= n <= keys.len(),
    ensures
        keys_without(keys, run_id, n) == keys.take(n).filter(
            |key: (Seq<char>, Seq<char>)| key.1 != run_id,
        ),
    decreases n,
{
    reveal(Seq::filter);
    let part = keys.take(n);
    if n > 0 {
        lemma_other_keys(keys, run_id, n - 1);
        assert(part.drop_last() =~= keys.take(n - 1));
    }
}

/// A deleted conversation takes its run along, with its queue and its keys; the
/// other runs stay as they are, but for depths and children.
pub proof fn law_deleted_conversation_takes_its_run_along(m: RegistryModel, at: int, i: int)
    requires
        m.valid(),
        0 <= at < m.entries.len(),
        0 <= i < m.entries.len(),
        i != at,
    ensures
        ({
            let gone = m.entries[at].run;
            let after = after_removal(m, gone.conversation_id);
            let j = if i < at {
                i
            } else {
                i - 1
            };
            &&& after.entries.len() + 1 == m.entries.len()
            &&& after.entries[j].queue == m.entries[i].queue
            &&& after.entries[j].run == (RunModel {
                depth: after.entries[j].run.depth,
                child_run_ids: after.entries[j].run.child_run_ids,
                ..m.entries[i].run
            })
            &&& !has_run(after.entries, gone.run_id)
            &&& !has_conversation(after.entries, gone.conversation_id)
            &&& after.idempotency == m.idempotency.filter(
                |key: (Seq<char>, Seq<char>)| key.1 != gone.run_id,
            )
        }),
{
    lemma_conversation_at(m, at);
    let gone = m.entries[at].run;
    let after = after_removal(m, gone.conversation_id);
    let rest = m.entries.remove(at);
    lemma_other_keys(m.idempotency, gone.run_id, m.idempotency.len() as int);
    assert(m.idempotency.take(m.idempotency.len() as int) =~= m.idempotency);
    assert forall|k: int| 0 <= k < after.entries.len() implies (
    #[trigger] after.entries[k]).run.run_id != gone.run_id && after.entries[k].run.conversation_id
        != gone.conversation_id by {
        let b = if k < at {
            k
        } else {
            k + 1
        };
        assert(rest[k] == m.entries[b]);
        if b < at {
            assert(m.entries[b].run.run_id != m.entries[at].run.run_id);
            assert(m.entries[b].run.conversation_id != m.entries[at].run.conversation_id);
        } else {
            assert(m.entries[at].run.run_id != m.entries[b].run.run_id);
            assert(m.entries[at].run.conversation_id != m.entries[b].run.conversation_id);
        }
    }
}

/// A run lies one below its parent; one without a parent lies at the top, and
/// so does one whose chain of parents is broken.
pub proof fn law_depths_count_the_parents(entries: Seq<EntryModel>, at: int)
    requires
        unique_runs(entries),
        0 <= at < entries.len(),
    ensures
        entries[at].run.parent_run_id is None ==> topology_depth(entries, at) == Some(0nat),
        entries[at].run.parent_run_id matches Some(parent) ==> {
            &&& !has_run(entries, parent) ==> topology_depth(entries, at) == Some(0nat)
            &&& has_run(entries, parent) && full_chain(entries, at) is Root ==> topology_depth(
                entries,
                at,
            ) == Some((topology_depth(entries, run_position(entries, parent))->0 + 1) as nat)
        },
{
    let n = (entries.len() - 1) as nat;
    if entries[at].run.parent_run_id is Some && has_run(
        entries,
        entries[at].run.parent_run_id->0,
    ) && full_chain(entries, at) is Root {
        let up = run_position(entries, entries[at].run.parent_run_id->0);
        assert(n > 0);
        lemma_chain_more_steps(entries, up, (n - 1) as nat);
    }
}

proof fn lemma_chain_more_steps(entries: Seq<EntryModel>, at: int, steps: nat)
    requires
        chain_end(entries, at, steps) is Root,
    ensures
        chain_end(entries, at, steps + 1) == chain_end(entries, at, steps),
    decreases steps,
{
    match entries[at].run.parent_run_id {
        None => {},
        Some(parent) => {
            if has_run(entries, parent) && steps > 0 {
                lemma_chain_more_steps(
                    entries,
                    run_position(entries, parent),
                    (steps - 1) as nat,
                );
            }
        },
    }
}

/// The children of a run are all those that name it as their parent and lie on
/// no cycle.
pub proof fn law_children_are_those_that_name_the_parent(
    entries: Seq<EntryModel>,
    parent: Seq<char>,
    i: int,
)
    requires
        unique_runs(entries),
        0 <= i < entries.len(),
    ensures
        rebuilt_children(entries, parent, entries.len() as int).contains(entries[i].run.run_id)
            <==> entries[i].run.parent_run_id == Some(parent) && topology_depth(entries, i) is Some,
{
    lemma_rebuilt_children_contain(entries, parent, entries.len() as int, i);
}

proof fn lemma_rebuilt_children_contain(
    entries: Seq<EntryModel>,
    parent: Seq<char>,
    n: int,
    i: int,
)
    requires
        unique_runs(entries),
        0 <= n <= entries.len(),
        0 <= i < entries.len(),
    ensures
        rebuilt_children(entries, parent, n).contains(entries[i].run.run_id) <==> i < n
            && entries[i].run.parent_run_id == Some(parent) && topology_depth(entries, i) is Some,
    decreases n,
{
    if n > 0 {
        lemma_rebuilt_children_contain(entries, parent, n - 1, i);
        let init = rebuilt_children(entries, parent, n - 1);
        let out = rebuilt_children(entries, parent, n);
        let id = entries[i].run.run_id;
        let last = entries[n - 1].run;
        if i != n - 1 {
            if i < n - 1 {
                assert(entries[i].run.run_id != entries[n - 1].run.run_id);
            } else {
                assert(entries[n - 1].run.run_id != entries[i].run.run_id);
            }
        }
        if topology_depth(entries, n - 1) is Some && last.parent_run_id == Some(parent) {
            assert(out == init.push(last.run_id));
            assert(out[init.len() as int] == last.run_id);
            if init.contains(id) {
                let k = choose|k: int| 0 <= k < init.len() && init[k] == id;
                assert(out[k] == id);
            }
            if out.contains(id) && i != n - 1 {
                let k = choose|k: int| 0 <= k < out.len() && out[k] == id;
                assert(k < init.len());
                assert(init[k] == id);
            }
        }
    }
}

/// A known run is attached where its identifier says something, it is not its
/// own parent, and neither it nor its conversation belongs to another; a second
/// controller is refused.
pub proof fn law_runs_that_may_be_attached(
    m: RegistryModel,
    run_id: Seq<char>,
    conversation_id: AIConversationId,
    parent_run_id: Option<Seq<char>>,
    controller_owner: Option<Seq<char>>,
    at: int,
)
    requires
        m.valid(),
        !text::is_blank(run_id),
        parent_run_id != Some(run_id),
    ensures
        !has_run(m.entries, run_id) && !has_conversation(m.entries, conversation_id)
            ==> attachment_error(m, run_id, conversation_id, parent_run_id, controller_owner)
            is None,
        0 <= at < m.entries.len() && m.entries[at].run.conversation_id == conversation_id ==> (
        attachment_error(m, run_id, conversation_id, parent_run_id, controller_owner) is None
            <==> m.entries[at].run.run_id == run_id && (m.entries[at].run.controller_owner is None
            || controller_owner is None || m.entries[at].run.controller_owner
            == controller_owner)),
        has_run(m.entries, run_id) && !has_conversation(m.entries, conversation_id)
            ==> attachment_error(m, run_id, conversation_id, parent_run_id, controller_owner)
            is Some,
{
    if 0 <= at < m.entries.len() && m.entries[at].run.conversation_id == conversation_id {
        lemma_conversation_at(m, at);
    }
}

/// A restored run is the one that was recorded.
pub proof fn law_restored_run_is_what_was_recorded(
    m: RegistryModel,
    restored: RestoredLocalAgent,
    handle: LocalAgentCancellationHandle,
    i: int,
)
    requires
        m.valid(),
        0 <= i < m.entries.len(),
    ensures
        ({
            let after = after_restoration(m, restored, handle);
            let run = after.entries.last().run;
            &&& after.entries.len() == m.entries.len() + 1
            &&& after.entries.last().queue.len() == 0
            &&& run.run_id == restored.run_id@
            &&& run.conversation_id == restored.conversation_id
            &&& run.terminal_surface_id == restored.terminal_surface_id
            &&& run.pane_id == restored.pane_id
            &&& run.parent_run_id == text::text_opt(restored.parent_run_id)
            &&& run.name == restored.name@
            &&& run.harness == restored.harness
            &&& run.status is Stopped
            &&& run.controller_owner is None
            &&& after.entries[i].queue == m.entries[i].queue
            &&& after.entries[i].run == (RunModel {
                depth: after.entries[i].run.depth,
                child_run_ids: after.entries[i].run.child_run_ids,
                ..m.entries[i].run
            })
            &&& after.idempotency == m.idempotency
        }),
{
}

/// Without other limits a run has up to 8 children, lies up to 4 levels deep,
/// and keeps up to 16 messages; up to 16 children live at a time.
pub proof fn law_usual_limits(limits: LocalAgentLimits)
    requires
        limits == default_limits(),
    ensures
        limits.max_fanout == 8,
        limits.max_depth == 4,
        limits.max_live_children == 16,
        limits.max_pending_messages == 16,
{
}

/// A message is put back exactly where its run is known, belongs to the caller
/// and has room for it.
pub proof fn law_messages_that_are_put_back(m: RegistryModel, run_id: Seq<char>, owner: Seq<char>)
    ensures
        requeue_error(m, run_id, owner) is None <==> has_run(m.entries, run_id) && run_of(
            m.entries,
            run_id,
        ).controller_owner == Some(owner) && m.entries[run_position(
            m.entries,
            run_id,
        )].queue.len() < m.limits.max_pending_messages,
        !has_run(m.entries, run_id) ==> requeue_error(m, run_id, owner) == Some(
            LocalAgentRegistryError::<Seq<char>>::UnknownRun(run_id),
        ),
        has_run(m.entries, run_id) && run_of(m.entries, run_id).controller_owner == Some(owner)
            && m.entries[run_position(m.entries, run_id)].queue.len()
            >= m.limits.max_pending_messages ==> requeue_error(m, run_id, owner) == Some(
            LocalAgentRegistryError::<Seq<char>>::QueueFull {
                run_id,
                limit: m.limits.max_pending_messages,
            },
        ),
{
}

/// A registration answers with the run that it made or found, and changes
/// nothing unless it made one.
pub proof fn law_registrations_are_answered(
    before: RegistryModel,
    request: LocalAgentRegistration,
    allocated: Seq<char>,
    r: Result<LocalAgentRegistrationOutcome, LocalAgentRegistryError>,
    after: RegistryModel,
)
    requires
        registration_done(before, request, allocated, r, after),
    ensures
        r is Err ==> after == before,
        r is Ok && !r->Ok_0.created ==> after == before,
        r is Ok && r->Ok_0.created <==> registration_answer(before, request, allocated) is Created,
        r is Err <==> registration_answer(before, request, allocated) is Refused,
        r is Ok && r->Ok_0.created ==> after == after_registration(
            before,
            request,
            r->Ok_0.run@,
        ),
{
}

/// A restored conversation becomes the run that was recorded of it: under its
/// own identifier and on the given surface, below its parent, and with its name,
/// its title or a common name.
pub proof fn law_restored_conversation_is_its_run(
    conversation: RestoredConversation,
    surface: EntityId,
    agent: RestoredLocalAgent,
)
    requires
        restored_from(conversation, surface, agent),
    ensures
        agent.run_id@ == conversation.run_id->0@,
        agent.conversation_id == conversation.conversation_id,
        agent.terminal_surface_id == Some(surface),
        agent.pane_id is None,
        conversation.parent_conversation_run_id is Some ==> text::text_opt(agent.parent_run_id)
            == Some(conversation.parent_conversation_run_id->0@),
        conversation.parent_conversation_run_id is None && conversation.parent_agent_id is Some
            ==> text::text_opt(agent.parent_run_id) == Some(conversation.parent_agent_id->0@),
        conversation.parent_conversation_run_id is None && conversation.parent_agent_id is None
            ==> text::text_opt(agent.parent_run_id) is None,
        conversation.agent_name is Some ==> agent.name@ == conversation.agent_name->0@,
        conversation.agent_name is None && conversation.title is Some ==> agent.name@
            == conversation.title->0@,
        conversation.agent_name is None && conversation.title is None ==> agent.name@
            == "Local agent"@,
        conversation.harness is Some ==> agent.harness == conversation.harness->0,
        conversation.harness is None ==> agent.harness == Harness::Oz,
{
}

/// A conversation that never ran, or whose run is known, is not restored again;
/// any other is restored unless something is wrong with it.
pub proof fn law_conversations_that_are_restored(
    before: RegistryModel,
    conversation: RestoredConversation,
    surface: EntityId,
    after: RegistryModel,
)
    requires
        restored_step(before, conversation, surface, after),
    ensures
        conversation.run_id is None ==> after == before,
        (exists|i: int|
            0 <= i < before.entries.len() && (#[trigger] before.entries[i]).run.conversation_id
                == conversation.conversation_id) ==> after == before,
        after != before ==> exists|agent: RestoredLocalAgent, handle: LocalAgentCancellationHandle|
            restored_from(conversation, surface, agent) && restoration_error(before, agent) is None
                && after == #[trigger] after_restoration(before, agent, handle),
{
    if after != before {
        let agent = choose|agent: RestoredLocalAgent|
            #![trigger restoration_error(before, agent)]
            restored_from(conversation, surface, agent) && (if restoration_error(before, agent)
                is Some {
                after == before
            } else {
                exists|handle: LocalAgentCancellationHandle|
                    after == #[trigger] after_restoration(before, agent, handle)
            });
        assert(restoration_error(before, agent) is None);
        let handle = choose|handle: LocalAgentCancellationHandle|
            after == #[trigger] after_restoration(before, agent, handle);
        assert(after == after_restoration(before, agent, handle));
    }
}

/// What happens in the history happens to the runs: a change of status, a
/// deletion and a transfer each to the run of that conversation, and nothing
/// else does anything.
pub proof fn law_runs_follow_the_history(
    before: RegistryModel,
    event: LocalHistoryEvent,
    after: RegistryModel,
)
    requires
        after_history_event(before, event, after),
    ensures
        event matches LocalHistoryEvent::UpdatedConversationStatus { conversation_id, new_status }
            ==> after == after_status(before, conversation_id, new_status),
        event matches LocalHistoryEvent::DeletedConversation { conversation_id } ==> after
            == after_removal(before, conversation_id),
        event matches LocalHistoryEvent::ConversationTransferredBetweenTerminalSurfaces {
            conversation_id,
            new_terminal_surface_id,
        } ==> after == after_transfer(before, conversation_id, new_terminal_surface_id),
        event is Other ==> after == before,
        event matches LocalHistoryEvent::RestoredConversations {
            terminal_surface_id,
            conversations,
        } ==> (conversations@.len() == 0 ==> after == before),
        event matches LocalHistoryEvent::RestoredConversations {
            terminal_surface_id,
            conversations,
        } ==> (conversations@.len() == 1 ==> restored_step(
            before,
            conversations@[0],
            terminal_surface_id,
            after,
        )),
{
    match event {
        LocalHistoryEvent::RestoredConversations { terminal_surface_id, conversations } => {
            let states = choose|states: Seq<RegistryModel>|
                #[trigger] restored_steps(states, conversations@, terminal_surface_id) && states[0]
                    == before && states.last() == after;
            assert(states.len() == conversations@.len() + 1);
            if conversations@.len() == 1 {
                assert(restored_step(
                    states[0],
                    conversations@[0],
                    terminal_surface_id,
                    states[1],
                ));
            }
        },
        _ => {},
    }
}

/// A change of status is told of the run of its conversation, with the status
/// that the run has from it; of anything else nothing is told.
pub proof fn law_status_is_told_of_its_run(m: RegistryModel, event: LocalHistoryEvent, i: int)
    requires
        unique_conversations(m.entries),
    ensures
        !(event is UpdatedConversationStatus) ==> reported_status(m, event) is None,
        event matches LocalHistoryEvent::UpdatedConversationStatus { conversation_id, new_status }
            ==> (0 <= i < m.entries.len() && m.entries[i].run.conversation_id == conversation_id
            ==> reported_status(m, event) == Some(
            (
                m.entries[i].run.run_id,
                match new_status {
                    ConversationStatus::InProgress => LocalAgentStatus::Running,
                    ConversationStatus::Blocked => LocalAgentStatus::Blocked,
                    ConversationStatus::Error => LocalAgentStatus::Failed,
                    ConversationStatus::Cancelled => LocalAgentStatus::Cancelled,
                    ConversationStatus::Success => if m.entries[i].run.harness is Oz
                        && m.entries[i].run.controller_owner is Some {
                        LocalAgentStatus::Idle
                    } else {
                        LocalAgentStatus::Succeeded
                    },
                },
            ),
        )),
        event matches LocalHistoryEvent::UpdatedConversationStatus { conversation_id, new_status }
            ==> ((forall|k: int|
            0 <= k < m.entries.len() ==> (#[trigger] m.entries[k]).run.conversation_id
                != conversation_id) ==> reported_status(m, event) is None),
{
    match event {
        LocalHistoryEvent::UpdatedConversationStatus { conversation_id, new_status } => {
            if 0 <= i < m.entries.len() && m.entries[i].run.conversation_id == conversation_id {
                let at = conversation_position(m.entries, conversation_id);
                assert(m.entries[i].run.conversation_id == conversation_id);
                assert(has_conversation(m.entries, conversation_id));
                assert(0 <= at < m.entries.len() && m.entries[at].run.conversation_id
                    == conversation_id);
                assert(at == i);
            }
        },
        _ => {},
    }
}

} // verus!
