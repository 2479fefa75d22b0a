//! The list of memories and the editor of one, without their looks.

use crate::local_memory;
use crate::local_memory::{LocalMemoryError, LocalMemoryRecord, LocalMemoryScope};
use crate::order;
use crate::order::Ordered;
use crate::text;
use vstd::prelude::*;

verus! {

/// The title of the list.
pub const HEADER_TEXT: &'static str = "Memory";

/// The longest content that a row shows, in characters.
pub const ROW_CONTENT_CHARS: usize = 240;

// ---------------------------------------------------------------------------
// The editor.

/// What is edited: a memory to come, or one that is there.
#[derive(Debug, PartialEq, Eq)]
pub enum MemoryEditorTarget<S = String> {
    New(LocalMemoryScope<S>),
    Existing(LocalMemoryRecord<S>),
}

pub type TargetModel = MemoryEditorTarget<Seq<char>>;

impl View for MemoryEditorTarget<String> {
    type V = TargetModel;

    open spec fn view(&self) -> TargetModel {
        match self {
            MemoryEditorTarget::New(scope) => MemoryEditorTarget::New(scope@),
            MemoryEditorTarget::Existing(memory) => MemoryEditorTarget::Existing(memory@),
        }
    }
}

impl Clone for MemoryEditorTarget<String> {
    fn clone(&self) -> (r: Self)
        ensures
            r@ == self@,
    {
        match self {
            MemoryEditorTarget::New(scope) => MemoryEditorTarget::New(scope.clone()),
            MemoryEditorTarget::Existing(memory) => MemoryEditorTarget::Existing(memory.clone()),
        }
    }
}

pub open spec fn target_opt(target: Option<MemoryEditorTarget>) -> Option<TargetModel> {
    match target {
        Some(target) => Some(target@),
        None => None,
    }
}

/// What the editor asks for.
#[derive(Debug)]
pub enum MemoryEditorViewEvent<S = String> {
    Back,
    Save { target: MemoryEditorTarget<S>, title: S, content: S },
    Delete { memory: LocalMemoryRecord<S> },
}

pub type EditorEventModel = MemoryEditorViewEvent<Seq<char>>;

impl Clone for MemoryEditorViewEvent<String> {
    fn clone(&self) -> (r: Self)
        ensures
            r@ == self@,
    {
        match self {
            MemoryEditorViewEvent::Back => MemoryEditorViewEvent::Back,
            MemoryEditorViewEvent::Save { target, title, content } => MemoryEditorViewEvent::Save {
                target: target.clone(),
                title: title.clone(),
                content: content.clone(),
            },
            MemoryEditorViewEvent::Delete { memory } => MemoryEditorViewEvent::Delete {
                memory: memory.clone(),
            },
        }
    }
}

impl View for MemoryEditorViewEvent<String> {
    type V = EditorEventModel;

    open spec fn view(&self) -> EditorEventModel {
        match self {
            MemoryEditorViewEvent::Back => MemoryEditorViewEvent::Back,
            MemoryEditorViewEvent::Save { target, title, content } => MemoryEditorViewEvent::Save {
                target: target@,
                title: title@,
                content: content@,
            },
            MemoryEditorViewEvent::Delete { memory } => MemoryEditorViewEvent::Delete {
                memory: memory@,
            },
        }
    }
}

pub open spec fn editor_event_opt(event: Option<MemoryEditorViewEvent>) -> Option<
    EditorEventModel,
> {
    match event {
        Some(event) => Some(event@),
        None => None,
    }
}

/// What the user does in the editor.
#[derive(Clone, Copy, Debug, PartialEq, Eq, Structural)]
pub enum MemoryEditorViewAction {
    Back,
    Save,
    Delete,
    ConfirmDelete,
    ConfirmDiscard,
}

/// What the editor shows for deleting.
#[derive(Clone, Copy, Debug, PartialEq, Eq, Structural)]
pub enum DeleteControl {
    Hidden,
    Offer,
    Confirm,
}

/// The editor: its target, what it started from, and what it holds now.
pub struct MemoryEditorView {
    pub target: Option<MemoryEditorTarget>,
    pub initial_title: String,
    pub initial_content: String,
    pub title: String,
    pub content: String,
    pub confirm_delete: bool,
    pub confirm_discard: bool,
}

#[verifier::ext_equal]
pub struct MemoryEditorModel {
    pub target: Option<TargetModel>,
    pub initial_title: Seq<char>,
    pub initial_content: Seq<char>,
    pub title: Seq<char>,
    pub content: Seq<char>,
    pub confirm_delete: bool,
    pub confirm_discard: bool,
}

impl View for MemoryEditorView {
    type V = MemoryEditorModel;

    open spec fn view(&self) -> MemoryEditorModel {
        MemoryEditorModel {
            target: target_opt(self.target),
            initial_title: self.initial_title@,
            initial_content: self.initial_content@,
            title: self.title@,
            content: self.content@,
            confirm_delete: self.confirm_delete,
            confirm_discard: self.confirm_discard,
        }
    }
}

/// The title that a target starts with.
pub open spec fn target_title(target: TargetModel) -> Seq<char> {
    match target {
        MemoryEditorTarget::New(_) => Seq::empty(),
        MemoryEditorTarget::Existing(memory) => memory.title,
    }
}

/// The content that a target starts with.
pub open spec fn target_content(target: TargetModel) -> Seq<char> {
    match target {
        MemoryEditorTarget::New(_) => Seq::empty(),
        MemoryEditorTarget::Existing(memory) => memory.content,
    }
}

/// The scope of a target.
pub open spec fn target_scope(target: TargetModel) -> local_memory::ScopeModel {
    match target {
        MemoryEditorTarget::New(scope) => scope,
        MemoryEditorTarget::Existing(memory) => memory.scope,
    }
}

impl MemoryEditorModel {
    /// The editor before anything was opened.
    pub open spec fn fresh() -> MemoryEditorModel {
        MemoryEditorModel {
            target: None,
            initial_title: Seq::empty(),
            initial_content: Seq::empty(),
            title: Seq::empty(),
            content: Seq::empty(),
            confirm_delete: false,
            confirm_discard: false,
        }
    }

    /// The editor just opened on a target.
    pub open spec fn opened(target: TargetModel) -> MemoryEditorModel {
        MemoryEditorModel {
            target: Some(target),
            initial_title: target_title(target),
            initial_content: target_content(target),
            title: target_title(target),
            content: target_content(target),
            confirm_delete: false,
            confirm_discard: false,
        }
    }

    /// Whether there is something to lose.
    pub open spec fn dirty(self) -> bool {
        self.title != self.initial_title || self.content != self.initial_content
    }

    /// Whether there is something in both fields.
    pub open spec fn filled(self) -> bool {
        text::trimmed(self.title).len() > 0 && text::trimmed(self.content).len() > 0
    }

    /// The editor after an action.
    pub open spec fn after(self, action: MemoryEditorViewAction) -> MemoryEditorModel {
        match action {
            MemoryEditorViewAction::Back => if self.dirty() {
                MemoryEditorModel { confirm_discard: true, ..self }
            } else {
                self
            },
            MemoryEditorViewAction::Delete => MemoryEditorModel { confirm_delete: true, ..self },
            _ => self,
        }
    }

    /// What an action asks for.
    pub open spec fn event(self, action: MemoryEditorViewAction) -> Option<EditorEventModel> {
        match action {
            MemoryEditorViewAction::Back => if self.dirty() {
                None
            } else {
                Some(MemoryEditorViewEvent::Back)
            },
            MemoryEditorViewAction::ConfirmDiscard => Some(MemoryEditorViewEvent::Back),
            MemoryEditorViewAction::Save => match self.target {
                Some(target) => if self.filled() {
                    Some(
                        MemoryEditorViewEvent::Save {
                            target,
                            title: self.title,
                            content: self.content,
                        },
                    )
                } else {
                    None
                },
                None => None,
            },
            MemoryEditorViewAction::Delete => None,
            MemoryEditorViewAction::ConfirmDelete => match self.target {
                Some(MemoryEditorTarget::Existing(memory)) => Some(
                    MemoryEditorViewEvent::Delete { memory },
                ),
                _ => None,
            },
        }
    }
}

impl MemoryEditorView {
    /// An editor without a target.
    pub fn new() -> (r: Self)
        ensures
            r@ == MemoryEditorModel::fresh(),
    {
        MemoryEditorView {
            target: None,
            initial_title: String::new(),
            initial_content: String::new(),
            title: String::new(),
            content: String::new(),
            confirm_delete: false,
            confirm_discard: false,
        }
    }

    /// Opens a target.
    pub fn set_target(&mut self, target: MemoryEditorTarget)
        ensures
            final(self)@ == MemoryEditorModel::opened(target@),
    {
        match &target {
            MemoryEditorTarget::New(_) => {
                self.initial_title = String::new();
                self.initial_content = String::new();
            },
            MemoryEditorTarget::Existing(memory) => {
                self.initial_title = memory.title.clone();
                self.initial_content = memory.content.clone();
            },
        }
        self.title = self.initial_title.clone();
        self.content = self.initial_content.clone();
        self.target = Some(target);
        self.confirm_delete = false;
        self.confirm_discard = false;
    }

    /// Takes what the title field holds now.
    pub fn edit_title(&mut self, title: String)
        ensures
            final(self)@ == (MemoryEditorModel { title: title@, ..old(self)@ }),
    {
        self.title = title;
    }

    /// Takes what the content field holds now.
    pub fn edit_content(&mut self, content: String)
        ensures
            final(self)@ == (MemoryEditorModel { content: content@, ..old(self)@ }),
    {
        self.content = content;
    }

    fn is_filled(&self) -> (r: bool)
        ensures
            r == self@.filled(),
    {
        text::char_count(text::trim(self.title.as_str()).as_str()) > 0 && text::char_count(
            text::trim(self.content.as_str()).as_str(),
        ) > 0
    }

    /// Whether saving is out of the question: a field is blank, or nothing
    /// changed.
    pub fn save_disabled(&self) -> (r: bool)
        ensures
            r == (!self@.filled() || !self@.dirty()),
    {
        !self.is_filled() || !self.is_dirty()
    }

    /// Whether there is something to lose.
    pub fn is_dirty(&self) -> (r: bool)
        ensures
            r == self@.dirty(),
    {
        !text::same_text(self.title.as_str(), self.initial_title.as_str()) || !text::same_text(
            self.content.as_str(),
            self.initial_content.as_str(),
        )
    }

    /// The scope of what is edited.
    pub fn scope(&self) -> (r: Option<&LocalMemoryScope>)
        ensures
            match self@.target {
                Some(target) => r matches Some(scope) && scope@ == target_scope(target),
                None => r is None,
            },
    {
        match &self.target {
            Some(MemoryEditorTarget::New(scope)) => Some(scope),
            Some(MemoryEditorTarget::Existing(memory)) => Some(&memory.scope),
            None => None,
        }
    }

    /// The name of the scope, or that there is none.
    pub fn scope_label(&self) -> (r: String)
        ensures
            r@ == match self@.target {
                Some(target) => local_memory::scope_name(target_scope(target)),
                None => "No scope selected"@,
            },
    {
        match self.scope() {
            Some(scope) => scope.display_name(),
            None => "No scope selected".to_owned(),
        }
    }

    pub fn header(&self) -> (r: &'static str)
        ensures
            r@ == match self@.target {
                Some(MemoryEditorTarget::New(_)) => "Add local memory"@,
                Some(MemoryEditorTarget::Existing(_)) => "Edit local memory"@,
                None => "Local memory"@,
            },
    {
        match &self.target {
            Some(MemoryEditorTarget::New(_)) => "Add local memory",
            Some(MemoryEditorTarget::Existing(_)) => "Edit local memory",
            None => "Local memory",
        }
    }

    /// Only a memory that is there can be deleted, and only after a
    /// confirmation.
    pub fn delete_control(&self) -> (r: DeleteControl)
        ensures
            r == match self@.target {
                Some(MemoryEditorTarget::Existing(_)) => if self@.confirm_delete {
                    DeleteControl::Confirm
                } else {
                    DeleteControl::Offer
                },
                _ => DeleteControl::Hidden,
            },
    {
        match &self.target {
            Some(MemoryEditorTarget::Existing(_)) => if self.confirm_delete {
                DeleteControl::Confirm
            } else {
                DeleteControl::Offer
            },
            _ => DeleteControl::Hidden,
        }
    }

    pub fn handle_action(&mut self, action: MemoryEditorViewAction) -> (r: Option<
        MemoryEditorViewEvent,
    >)
        ensures
            final(self)@ == old(self)@.after(action),
            editor_event_opt(r) == old(self)@.event(action),
    {
        match action {
            MemoryEditorViewAction::Back => {
                if self.is_dirty() {
                    self.confirm_discard = true;
                    None
                } else {
                    Some(MemoryEditorViewEvent::Back)
                }
            },
            MemoryEditorViewAction::ConfirmDiscard => Some(MemoryEditorViewEvent::Back),
            MemoryEditorViewAction::Save => {
                if !self.is_filled() {
                    return None;
                }
                match &self.target {
                    Some(target) => Some(
                        MemoryEditorViewEvent::Save {
                            target: target.clone(),
                            title: self.title.clone(),
                            content: self.content.clone(),
                        },
                    ),
                    None => None,
                }
            },
            MemoryEditorViewAction::Delete => {
                self.confirm_delete = true;
                None
            },
            MemoryEditorViewAction::ConfirmDelete => match &self.target {
                Some(MemoryEditorTarget::Existing(memory)) => Some(
                    MemoryEditorViewEvent::Delete { memory: memory.clone() },
                ),
                _ => None,
            },
        }
    }
}

/// Unsaved changes are not given up without a confirmation, and a confirmation
/// gives them up.
pub proof fn law_unsaved_changes_need_a_confirmation(m: MemoryEditorModel)
    requires
        m.dirty(),
    ensures
        m.event(MemoryEditorViewAction::Back) is None,
        m.after(MemoryEditorViewAction::Back).confirm_discard,
        m.after(MemoryEditorViewAction::Back).title == m.title,
        m.after(MemoryEditorViewAction::Back).content == m.content,
        m.after(MemoryEditorViewAction::Back).event(MemoryEditorViewAction::ConfirmDiscard) == Some(
            EditorEventModel::Back,
        ),
{
}

/// An editor that was just opened holds nothing to lose, can be left at once,
/// and awaits no confirmation.
pub proof fn law_opened_editor_is_clean(target: TargetModel)
    ensures
        !MemoryEditorModel::opened(target).dirty(),
        MemoryEditorModel::opened(target).event(MemoryEditorViewAction::Back) == Some(
            EditorEventModel::Back,
        ),
        !MemoryEditorModel::opened(target).confirm_delete,
        !MemoryEditorModel::opened(target).confirm_discard,
{
}

/// Asking to delete removes nothing by itself.
pub proof fn law_deleting_needs_a_confirmation(m: MemoryEditorModel)
    ensures
        m.event(MemoryEditorViewAction::Delete) is None,
        m.after(MemoryEditorViewAction::Delete).confirm_delete,
        m.after(MemoryEditorViewAction::Delete).target == m.target,
{
}

// ---------------------------------------------------------------------------
// The list.

/// Which memories are listed.
#[derive(Clone, Copy, Debug, PartialEq, Eq, Structural)]
pub enum MemoryScopeTab {
    Global,
    Project,
}

/// What the list asks for.
#[derive(Debug)]
pub enum MemoryViewEvent<S = String> {
    Add(LocalMemoryScope<S>),
    Edit(LocalMemoryRecord<S>),
}

impl Clone for MemoryViewEvent<String> {
    fn clone(&self) -> (r: Self)
        ensures
            match *self {
                MemoryViewEvent::Add(scope) => r matches MemoryViewEvent::Add(copy) && copy@
                    == scope@,
                MemoryViewEvent::Edit(memory) => r matches MemoryViewEvent::Edit(copy) && copy@
                    == memory@,
            },
    {
        match self {
            MemoryViewEvent::Add(scope) => MemoryViewEvent::Add(scope.clone()),
            MemoryViewEvent::Edit(memory) => MemoryViewEvent::Edit(memory.clone()),
        }
    }
}

/// What the user does in the list.
#[derive(Clone, Debug)]
pub enum MemoryViewAction<S = String> {
    AddGlobal,
    AddProject(S),
    Edit(u128),
    SelectGlobal,
    SelectProject,
}

pub type ActionModel = MemoryViewAction<Seq<char>>;

impl View for MemoryViewAction<String> {
    type V = ActionModel;

    open spec fn view(&self) -> ActionModel {
        match self {
            MemoryViewAction::AddGlobal => MemoryViewAction::AddGlobal,
            MemoryViewAction::AddProject(root) => MemoryViewAction::AddProject(root@),
            MemoryViewAction::Edit(id) => MemoryViewAction::Edit(*id),
            MemoryViewAction::SelectGlobal => MemoryViewAction::SelectGlobal,
            MemoryViewAction::SelectProject => MemoryViewAction::SelectProject,
        }
    }
}

/// What comes of an action in the list.
pub enum MemoryViewOutcome<S = String> {
    Emit(MemoryViewEvent<S>),
    ShowError(S),
    Redraw,
}

pub type OutcomeModel = MemoryViewOutcome<Seq<char>>;

impl View for MemoryViewOutcome<String> {
    type V = OutcomeModel;

    open spec fn view(&self) -> OutcomeModel {
        match self {
            MemoryViewOutcome::Emit(MemoryViewEvent::Add(scope)) => MemoryViewOutcome::Emit(
                MemoryViewEvent::Add(scope@),
            ),
            MemoryViewOutcome::Emit(MemoryViewEvent::Edit(memory)) => MemoryViewOutcome::Emit(
                MemoryViewEvent::Edit(memory@),
            ),
            MemoryViewOutcome::ShowError(message) => MemoryViewOutcome::ShowError(message@),
            MemoryViewOutcome::Redraw => MemoryViewOutcome::Redraw,
        }
    }
}

/// The list: the memories last read, the projects, and what is selected.
pub struct MemoryView {
    pub memories: Vec<LocalMemoryRecord>,
    pub project_roots: Vec<String>,
    pub load_error: Option<String>,
    pub current_scope: MemoryScopeTab,
}

#[verifier::ext_equal]
pub struct MemoryListModel {
    pub memories: Seq<local_memory::MemoryModel>,
    pub project_roots: Seq<Seq<char>>,
    pub load_error: Option<Seq<char>>,
    pub current_scope: MemoryScopeTab,
}

impl View for MemoryView {
    type V = MemoryListModel;

    open spec fn view(&self) -> MemoryListModel {
        MemoryListModel {
            memories: local_memory::memory_models(self.memories@),
            project_roots: text::texts(self.project_roots@),
            load_error: text::text_opt(self.load_error),
            current_scope: self.current_scope,
        }
    }
}

/// Whether a memory is listed under a tab.
pub open spec fn under_tab(tab: MemoryScopeTab, scope: local_memory::ScopeModel) -> bool {
    match tab {
        MemoryScopeTab::Global => scope is Global,
        MemoryScopeTab::Project => scope is Project,
    }
}

/// Whether a memory holds what is searched for, in any case.
pub open spec fn holds(memory: local_memory::MemoryModel, needle: Seq<char>) -> bool {
    ||| needle.len() == 0
    ||| text::occurs_in(needle, text::text_lowercase(memory.title))
    ||| text::occurs_in(needle, text::text_lowercase(memory.content))
    ||| text::occurs_in(needle, text::text_lowercase(local_memory::scope_name(memory.scope)))
}

pub open spec fn shown_under(tab: MemoryScopeTab, needle: Seq<char>) -> spec_fn(
    local_memory::MemoryModel,
) -> bool {
    |memory: local_memory::MemoryModel| under_tab(tab, memory.scope) && holds(memory, needle)
}

/// Whether a memory may stand before another: the one that was updated last
/// first, then by title, then by identifier.
pub open spec fn shown_at_most(
    a: local_memory::MemoryModel,
    b: local_memory::MemoryModel,
) -> bool {
    if a.updated_at != b.updated_at {
        a.updated_at > b.updated_at
    } else if a.title != b.title {
        text::text_at_most(a.title, b.title)
    } else {
        a.id <= b.id
    }
}

pub open spec fn shown_order() -> spec_fn(
    local_memory::MemoryModel,
    local_memory::MemoryModel,
) -> bool {
    |a: local_memory::MemoryModel, b: local_memory::MemoryModel| shown_at_most(a, b)
}

/// The memories that are shown under a tab for a search, in order.
pub open spec fn shown(
    memories: Seq<local_memory::MemoryModel>,
    tab: MemoryScopeTab,
    search: Seq<char>,
) -> Seq<local_memory::MemoryModel> {
    let needle = text::text_lowercase(text::trimmed(search));
    order::sorted_by(memories.filter(shown_under(tab, needle)), shown_order())
}

/// What comes of an action.
pub open spec fn outcome(m: MemoryListModel, action: ActionModel) -> OutcomeModel {
    match action {
        MemoryViewAction::AddGlobal => MemoryViewOutcome::Emit(
            MemoryViewEvent::Add(LocalMemoryScope::Global),
        ),
        MemoryViewAction::AddProject(root) => MemoryViewOutcome::Emit(
            MemoryViewEvent::Add(LocalMemoryScope::Project { root }),
        ),
        MemoryViewAction::Edit(id) => match local_memory::memory_of(m.memories, id) {
            Some(memory) => MemoryViewOutcome::Emit(MemoryViewEvent::Edit(memory)),
            None => MemoryViewOutcome::ShowError(
                "Local memory changed; reopen it and try again"@,
            ),
        },
        _ => MemoryViewOutcome::Redraw,
    }
}

/// The list after an action.
pub open spec fn after(m: MemoryListModel, action: ActionModel) -> MemoryListModel {
    match action {
        MemoryViewAction::SelectGlobal => MemoryListModel {
            current_scope: MemoryScopeTab::Global,
            ..m
        },
        MemoryViewAction::SelectProject => MemoryListModel {
            current_scope: MemoryScopeTab::Project,
            ..m
        },
        _ => m,
    }
}

/// A memory in the order of the list.
struct ShownMemory(LocalMemoryRecord);

impl Ordered for ShownMemory {
    closed spec fn at_most(&self, other: &Self) -> bool {
        shown_at_most(self.0@, other.0@)
    }

    proof fn order_total(a: &Self, b: &Self) {
        text::lemma_text_total(a.0@.title, b.0@.title);
    }

    proof fn order_transitive(a: &Self, b: &Self, c: &Self) {
        let (x, y, z) = (a.0@, b.0@, c.0@);
        if x.updated_at == y.updated_at && y.updated_at == z.updated_at {
            if x.title != y.title && y.title != z.title {
                text::lemma_text_transitive(x.title, y.title, z.title);
                if x.title == z.title {
                    text::lemma_text_antisymmetric(x.title, y.title);
                }
            }
        }
    }

    fn is_at_most(&self, other: &Self) -> (r: bool) {
        if self.0.updated_at != other.0.updated_at {
            self.0.updated_at > other.0.updated_at
        } else if !text::same_text(self.0.title.as_str(), other.0.title.as_str()) {
            text::is_text_at_most(self.0.title.as_str(), other.0.title.as_str())
        } else {
            self.0.id <= other.0.id
        }
    }
}

spec fn shown_view() -> spec_fn(ShownMemory) -> local_memory::MemoryModel {
    |memory: ShownMemory| memory.0@
}

fn memory_holds(memory: &LocalMemoryRecord, needle: &str) -> (r: bool)
    ensures
        r == holds(memory@, needle@),
{
    text::char_count(needle) == 0 || text::str_contains(
        text::lowercase_text(memory.title.as_str()).as_str(),
        needle,
    ) || text::str_contains(text::lowercase_text(memory.content.as_str()).as_str(), needle)
        || text::str_contains(
        text::lowercase_text(memory.scope.display_name().as_str()).as_str(),
        needle,
    )
}

impl MemoryView {
    /// The list as it starts, where `listing` is what was read and
    /// `startup_error` why the storage is missing, if it is.
    pub fn new(
        listing: Result<Vec<LocalMemoryRecord>, LocalMemoryError>,
        startup_error: Option<String>,
        project_roots: Vec<String>,
    ) -> (r: Self)
        ensures
            r@ == (MemoryListModel {
                memories: match listing {
                    Ok(memories) => local_memory::memory_models(memories@),
                    Err(_) => Seq::empty(),
                },
                project_roots: text::texts(project_roots@),
                load_error: match listing {
                    Ok(_) => text::text_opt(startup_error),
                    Err(error) => Some(local_memory::error_text(error@)),
                },
                current_scope: MemoryScopeTab::Global,
            }),
    {
        match listing {
            Ok(memories) => MemoryView {
                memories,
                project_roots,
                load_error: startup_error,
                current_scope: MemoryScopeTab::Global,
            },
            Err(error) => {
                let memories: Vec<LocalMemoryRecord> = Vec::new();
                assert(local_memory::memory_models(memories@) =~= Seq::empty());
                MemoryView {
                    memories,
                    project_roots,
                    load_error: Some(error.message()),
                    current_scope: MemoryScopeTab::Global,
                }
            },
        }
    }

    /// Takes what was read after the memories changed; a failure keeps those
    /// that were read before.
    pub fn memories_changed(&mut self, listing: Result<Vec<LocalMemoryRecord>, LocalMemoryError>)
        ensures
            final(self)@ == match listing {
                Ok(memories) => MemoryListModel {
                    memories: local_memory::memory_models(memories@),
                    load_error: None,
                    ..old(self)@
                },
                Err(error) => MemoryListModel {
                    load_error: Some(local_memory::error_text(error@)),
                    ..old(self)@
                },
            },
    {
        match listing {
            Ok(memories) => {
                self.memories = memories;
                self.load_error = None;
            },
            Err(error) => {
                self.load_error = Some(error.message());
            },
        }
    }

    /// Takes the projects that are indexed now.
    pub fn projects_indexed(&mut self, project_roots: Vec<String>)
        ensures
            final(self)@ == (MemoryListModel {
                project_roots: text::texts(project_roots@),
                ..old(self)@
            }),
    {
        self.project_roots = project_roots;
    }

    /// The memories to show for what is searched for.
    pub fn filtered_memories(&self, search: &str) -> (r: Vec<LocalMemoryRecord>)
        ensures
            local_memory::memory_models(r@) == shown(self@.memories, self@.current_scope, search@),
    {
        let needle = text::lowercase_text(text::trim(search).as_str());
        let ghost all = self@.memories;
        let ghost keep = shown_under(self@.current_scope, needle@);
        let mut kept: Vec<ShownMemory> = Vec::new();
        let mut i: usize = 0;
        proof {
            reveal(Seq::filter);
            assert(all.subrange(0, 0) =~= Seq::<local_memory::MemoryModel>::empty());
            assert(kept@.map_values(shown_view()) =~= all.subrange(0, 0).filter(keep));
        }
        while i < self.memories.len()
            invariant
                i <= self.memories.len(),
                all == self@.memories,
                all.len() == self.memories.len(),
                keep == shown_under(self@.current_scope, needle@),
                kept@.map_values(shown_view()) == all.subrange(0, i as int).filter(keep),
            decreases self.memories.len() - i,
        {
            let memory = &self.memories[i];
            let ghost part = all.subrange(0, i + 1);
            assert(part.drop_last() =~= all.subrange(0, i as int));
            assert(part.last() == memory@);
            proof {
                reveal(Seq::filter);
            }
            let listed = match (self.current_scope, &memory.scope) {
                (MemoryScopeTab::Global, LocalMemoryScope::Global) => true,
                (MemoryScopeTab::Project, LocalMemoryScope::Project { .. }) => true,
                _ => false,
            };
            if listed && memory_holds(memory, needle.as_str()) {
                assert(keep(memory@));
                let ghost before = kept@.map_values(shown_view());
                kept.push(ShownMemory(memory.clone()));
                assert(kept@.map_values(shown_view()) =~= before.push(memory@));
            }
            i += 1;
        }
        assert(all.subrange(0, all.len() as int) =~= all);
        let ghost unsorted = kept@;
        let sorted = order::sort(kept);
        proof {
            order::lemma_sorted_by(unsorted, shown_view(), shown_order());
        }
        let mut out: Vec<LocalMemoryRecord> = Vec::new();
        let mut k: usize = 0;
        while k < sorted.len()
            invariant
                k <= sorted.len(),
                out.len() == k,
                forall|j: int| 0 <= j < k ==> (#[trigger] out@[j])@ == sorted@[j].0@,
            decreases sorted.len() - k,
        {
            out.push(sorted[k].0.clone());
            k += 1;
        }
        assert(local_memory::memory_models(out@) =~= sorted@.map_values(shown_view()));
        out
    }

    /// The labels of the buttons that add a memory: one for global memories,
    /// or one for each project.
    pub fn add_labels(&self) -> (r: Vec<String>)
        ensures
            text::texts(r@) == match self@.current_scope {
                MemoryScopeTab::Global => seq!["Add"@],
                MemoryScopeTab::Project => Seq::new(
                    self@.project_roots.len(),
                    |i: int| "Add memory ("@ + self@.project_roots[i] + ")"@,
                ),
            },
    {
        let mut labels: Vec<String> = Vec::new();
        match self.current_scope {
            MemoryScopeTab::Global => {
                labels.push("Add".to_owned());
                assert(text::texts(labels@) =~= seq!["Add"@]);
            },
            MemoryScopeTab::Project => {
                let mut i: usize = 0;
                while i < self.project_roots.len()
                    invariant
                        i <= self.project_roots.len(),
                        labels.len() == i,
                        forall|j: int|
                            0 <= j < i ==> (#[trigger] labels@[j])@ == "Add memory ("@
                                + self.project_roots@[j]@ + ")"@,
                    decreases self.project_roots.len() - i,
                {
                    labels.push(
                        text::concat3("Add memory (", self.project_roots[i].as_str(), ")"),
                    );
                    i += 1;
                }
                assert(text::texts(labels@) =~= Seq::new(
                    self@.project_roots.len(),
                    |i: int| "Add memory ("@ + self@.project_roots[i] + ")"@,
                ));
            },
        }
        labels
    }

    /// What is shown where there is no memory to show.
    pub fn zero_state_text(&self) -> (r: &'static str)
        ensures
            r@ == match self@.current_scope {
                MemoryScopeTab::Global =>
                    "Add a global memory to make it available in every local project."@,
                MemoryScopeTab::Project =>
                    "Open an indexed project, then add memory scoped to that project."@,
            },
    {
        match self.current_scope {
            MemoryScopeTab::Global =>
                "Add a global memory to make it available in every local project.",
            MemoryScopeTab::Project =>
                "Open an indexed project, then add memory scoped to that project.",
        }
    }

    fn find(&self, id: u128) -> (r: Option<LocalMemoryRecord>)
        ensures
            match r {
                Some(record) => local_memory::memory_of(self@.memories, id) == Some(record@),
                None => local_memory::memory_of(self@.memories, id) is None,
            },
    {
        let ghost all = self@.memories;
        let mut i: usize = 0;
        while i < self.memories.len()
            invariant
                i <= self.memories.len(),
                all == self@.memories,
                all.len() == self.memories.len(),
                local_memory::memory_at(all, id, 0) == local_memory::memory_at(all, id, i as int),
            decreases self.memories.len() - i,
        {
            assert(all[i as int] == self.memories@[i as int]@);
            if self.memories[i].id == id {
                return Some(self.memories[i].clone());
            }
            i += 1;
        }
        None
    }

    pub fn handle_action(&mut self, action: MemoryViewAction) -> (r: MemoryViewOutcome)
        ensures
            final(self)@ == after(old(self)@, action@),
            r@ == outcome(old(self)@, action@),
    {
        match action {
            MemoryViewAction::AddGlobal => MemoryViewOutcome::Emit(
                MemoryViewEvent::Add(LocalMemoryScope::Global),
            ),
            MemoryViewAction::AddProject(root) => MemoryViewOutcome::Emit(
                MemoryViewEvent::Add(LocalMemoryScope::Project { root }),
            ),
            MemoryViewAction::Edit(id) => match self.find(id) {
                Some(memory) => MemoryViewOutcome::Emit(MemoryViewEvent::Edit(memory)),
                None => MemoryViewOutcome::ShowError(
                    "Local memory changed; reopen it and try again".to_owned(),
                ),
            },
            MemoryViewAction::SelectGlobal => {
                self.current_scope = MemoryScopeTab::Global;
                MemoryViewOutcome::Redraw
            },
            MemoryViewAction::SelectProject => {
                self.current_scope = MemoryScopeTab::Project;
                MemoryViewOutcome::Redraw
            },
        }
    }
}

/// The content of a memory as its row shows it.
pub fn row_content(memory: &LocalMemoryRecord) -> (r: String)
    ensures
        r@ == text::ellipsized(memory@.content, ROW_CONTENT_CHARS as int),
{
    text::ellipsize(memory.content.as_str(), ROW_CONTENT_CHARS)
}

/// Every memory that is shown is one of those read, and under its tab.
pub proof fn law_shown_memories_are_under_their_tab(
    memories: Seq<local_memory::MemoryModel>,
    tab: MemoryScopeTab,
    search: Seq<char>,
    i: int,
)
    requires
        0 <= i < shown(memories, tab, search).len(),
    ensures
        memories.contains(shown(memories, tab, search)[i]),
        under_tab(tab, shown(memories, tab, search)[i].scope),
{
    let needle = text::text_lowercase(text::trimmed(search));
    let keep = shown_under(tab, needle);
    order::lemma_sorted_by_permutes(memories.filter(keep), shown_order());
    let all = shown(memories, tab, search);
    let kept = memories.filter(keep);
    let memory = all[i];
    assert(all.contains(memory));
    vstd::seq_lib::to_multiset_contains(all, memory);
    vstd::seq_lib::to_multiset_contains(kept, memory);
    let k = choose|k: int| 0 <= k < kept.len() && kept[k] == memory;
    order::lemma_filtered(memories, keep, k);
}

/// An opened editor shows what it was opened on.
pub proof fn law_opened_editor_shows_its_target(
    editor: MemoryEditorView,
    memory: LocalMemoryRecord,
    scope: local_memory::ScopeModel,
)
    ensures
        editor@ == MemoryEditorModel::opened(MemoryEditorTarget::Existing(memory@)) ==> {
            &&& editor.title@ == memory.title@
            &&& editor.content@ == memory.content@
            &&& editor.initial_title@ == memory.title@
            &&& editor.initial_content@ == memory.content@
        },
        editor@ == MemoryEditorModel::opened(MemoryEditorTarget::New(scope)) ==> {
            &&& editor.title@.len() == 0
            &&& editor.content@.len() == 0
        },
        target_scope(MemoryEditorTarget::Existing(memory@)) == memory.scope@,
        target_scope(MemoryEditorTarget::New(scope)) == scope,
{
}

/// What is saved is what was typed, for what was opened, and only where both
/// fields hold something.
pub proof fn law_what_was_typed_is_saved(
    editor: MemoryEditorView,
    asked: MemoryEditorViewEvent,
)
    ensures
        editor@.event(MemoryEditorViewAction::Save) is Some <==> editor.target is Some
            && !text::is_blank(editor.title@) && !text::is_blank(editor.content@),
        editor@.event(MemoryEditorViewAction::Save) == Some(asked@) ==> (asked matches
            MemoryEditorViewEvent::Save { target, title, content } && title@ == editor.title@
            && content@ == editor.content@ && target@ == editor.target->0@),
        editor@.after(MemoryEditorViewAction::Save) == editor@,
{
    text::law_blank_texts(editor.title@);
    text::law_blank_texts(editor.content@);
    if !text::is_blank(editor.title@) {
        lemma_not_blank(editor.title@);
    }
    if !text::is_blank(editor.content@) {
        lemma_not_blank(editor.content@);
    }
}

proof fn lemma_not_blank(s: Seq<char>)
    requires
        !text::is_blank(s),
    ensures
        text::trimmed(s).len() > 0,
{
    let a = lemma_first_mark(s);
    let b = lemma_last_mark(s);
    text::law_trimming_takes_what_is_around(s, a, b);
}

proof fn lemma_first_mark(s: Seq<char>) -> (a: int)
    requires
        !text::is_blank(s),
    ensures
        0 <= a < s.len(),
        !text::is_space(s[a]),
        forall|i: int| 0 <= i < a ==> text::is_space(#[trigger] s[i]),
    decreases s.len(),
{
    if text::is_space(s[0]) {
        let rest = s.subrange(1, s.len() as int);
        let k = choose|k: int| 0 <= k < s.len() && !text::is_space(#[trigger] s[k]);
        assert(rest[k - 1] == s[k]);
        let a = lemma_first_mark(rest);
        assert(s[a + 1] == rest[a]);
        assert forall|i: int| 0 <= i < a + 1 implies text::is_space(#[trigger] s[i]) by {
            if i > 0 {
                assert(rest[i - 1] == s[i]);
            }
        }
        a + 1
    } else {
        0
    }
}

proof fn lemma_last_mark(s: Seq<char>) -> (b: int)
    requires
        !text::is_blank(s),
    ensures
        0 < b <= s.len(),
        !text::is_space(s[b - 1]),
        forall|i: int| b <= i < s.len() ==> text::is_space(#[trigger] s[i]),
    decreases s.len(),
{
    if text::is_space(s.last()) {
        let init = s.drop_last();
        let k = choose|k: int| 0 <= k < s.len() && !text::is_space(#[trigger] s[k]);
        assert(init[k] == s[k]);
        let b = lemma_last_mark(init);
        assert(s[b - 1] == init[b - 1]);
        assert forall|i: int| b <= i < s.len() implies text::is_space(#[trigger] s[i]) by {
            if i < init.len() {
                assert(init[i] == s[i]);
            }
        }
        b
    } else {
        s.len() as int
    }
}

/// A confirmed deletion deletes the memory that was opened; nothing else is
/// deleted, and no other action changes what was typed.
pub proof fn law_what_was_opened_is_deleted(m: MemoryEditorModel, action: MemoryEditorViewAction)
    ensures
        m.target matches Some(MemoryEditorTarget::Existing(memory)) ==> m.event(
            MemoryEditorViewAction::ConfirmDelete,
        ) == Some(EditorEventModel::Delete { memory }),
        !(m.target matches Some(MemoryEditorTarget::Existing(_))) ==> m.event(
            MemoryEditorViewAction::ConfirmDelete,
        ) is None,
        m.event(action) matches Some(event) ==> (event is Delete ==> action is ConfirmDelete) && (
        event is Save ==> action is Save),
        m.after(action).title == m.title,
        m.after(action).content == m.content,
        m.after(action).target == m.target,
        m.after(action).initial_title == m.initial_title,
        m.after(action).initial_content == m.initial_content,
        m.dirty() <==> m.title != m.initial_title || m.content != m.initial_content,
{
}

/// The list is complete: every memory under the tab that holds what is searched
/// for is shown, and they are shown the one updated last first.
pub proof fn law_list_shows_what_is_searched_for(
    memories: Seq<local_memory::MemoryModel>,
    tab: MemoryScopeTab,
    search: Seq<char>,
    i: int,
    a: int,
    b: int,
)
    ensures
        ({
            let needle = text::text_lowercase(text::trimmed(search));
            let all = shown(memories, tab, search);
            &&& 0 <= i < memories.len() && (tab is Global <==> memories[i].scope is Global) && (
            needle.len() == 0 || text::occurs_in(needle, text::text_lowercase(memories[i].title))
                || text::occurs_in(needle, text::text_lowercase(memories[i].content))
                || text::occurs_in(
                needle,
                text::text_lowercase(local_memory::scope_name(memories[i].scope)),
            )) ==> all.contains(memories[i])
            &&& 0 <= a < b < all.len() ==> all[a].updated_at >= all[b].updated_at
            &&& 0 <= a < b < all.len() && all[a].updated_at == all[b].updated_at
                ==> text::text_at_most(all[a].title, all[b].title)
            &&& 0 <= a < all.len() && needle.len() > 0 ==> text::occurs_in(
                needle,
                text::text_lowercase(all[a].title),
            ) || text::occurs_in(needle, text::text_lowercase(all[a].content)) || text::occurs_in(
                needle,
                text::text_lowercase(local_memory::scope_name(all[a].scope)),
            )
        }),
{
    broadcast use vstd::seq_lib::group_to_multiset_ensures;

    let needle = text::text_lowercase(text::trimmed(search));
    let keep = shown_under(tab, needle);
    let kept = memories.filter(keep);
    let all = shown(memories, tab, search);
    order::lemma_sorted_by_permutes(kept, shown_order());
    lemma_shown_preorder();
    order::lemma_sorted_by_in_order(kept, shown_order());
    if 0 <= i < memories.len() && keep(memories[i]) {
        memories.lemma_filter_contains(keep, i);
        assert(kept.to_multiset().count(memories[i]) > 0);
        assert(all.to_multiset().count(memories[i]) > 0);
        assert(all.contains(memories[i]));
    }
    if 0 <= a < b < all.len() {
        assert(shown_order()(all[a], all[b]));
        if all[a].title == all[b].title {
            text::lemma_text_total(all[a].title, all[b].title);
        }
    }
    if 0 <= a < all.len() {
        assert(all.contains(all[a]));
        assert(all.to_multiset().count(all[a]) > 0);
        assert(kept.contains(all[a]));
        let k = choose|k: int| 0 <= k < kept.len() && kept[k] == all[a];
        order::lemma_filtered(memories, keep, k);
    }
}

proof fn lemma_shown_preorder()
    ensures
        order::is_preorder(shown_order()),
{
    let r = shown_order();
    assert forall|a: local_memory::MemoryModel, b: local_memory::MemoryModel| #[trigger]
        r(a, b) || r(b, a) by {
        text::lemma_text_total(a.title, b.title);
    }
    assert forall|
        a: local_memory::MemoryModel,
        b: local_memory::MemoryModel,
        c: local_memory::MemoryModel,
    |
        #![trigger r(a, b), r(b, c)]
        r(a, b) && r(b, c) implies r(a, c) by {
        if a.updated_at == b.updated_at && b.updated_at == c.updated_at {
            if a.title != b.title && b.title != c.title {
                text::lemma_text_transitive(a.title, b.title, c.title);
                if a.title == c.title {
                    text::lemma_text_antisymmetric(a.title, b.title);
                }
            }
        }
    }
}

/// Adding asks for a memory in the scope that was chosen, and editing for the
/// memory of that identifier, or tells that it is gone.
pub proof fn law_actions_in_the_list(m: MemoryListModel, root: Seq<char>, id: u128, k: int)
    ensures
        outcome(m, MemoryViewAction::AddGlobal) == OutcomeModel::Emit(
            MemoryViewEvent::Add(LocalMemoryScope::Global),
        ),
        outcome(m, MemoryViewAction::AddProject(root)) == OutcomeModel::Emit(
            MemoryViewEvent::Add(LocalMemoryScope::Project { root }),
        ),
        0 <= k < m.memories.len() && m.memories[k].id == id && (forall|j: int|
            0 <= j < k ==> (#[trigger] m.memories[j]).id != id) ==> outcome(
            m,
            MemoryViewAction::Edit(id),
        ) == OutcomeModel::Emit(MemoryViewEvent::Edit(m.memories[k])),
        (forall|j: int| 0 <= j < m.memories.len() ==> (#[trigger] m.memories[j]).id != id)
            ==> outcome(m, MemoryViewAction::Edit(id)) is ShowError,
        after(m, MemoryViewAction::SelectGlobal).current_scope is Global,
        after(m, MemoryViewAction::SelectProject).current_scope is Project,
        after(m, MemoryViewAction::SelectGlobal).memories == m.memories,
        after(m, MemoryViewAction::SelectProject).memories == m.memories,
        after(m, MemoryViewAction::AddGlobal) == m,
        after(m, MemoryViewAction::AddProject(root)) == m,
        after(m, MemoryViewAction::Edit(id)) == m,
{
    lemma_first_memory(m.memories, id, 0);
    let at = local_memory::memory_at(m.memories, id, 0);
    if 0 <= k < m.memories.len() && m.memories[k].id == id && (forall|j: int|
        0 <= j < k ==> (#[trigger] m.memories[j]).id != id) {
        if at < k {
            assert(m.memories[at].id != id);
        }
        if k < at {
            assert(m.memories[k].id != id);
        }
    }
}

proof fn lemma_first_memory(memories: Seq<local_memory::MemoryModel>, id: u128, from: int)
    requires
        0 <= from <= memories.len(),
    ensures
        from <= local_memory::memory_at(memories, id, from) <= memories.len(),
        local_memory::memory_at(memories, id, from) < memories.len()
            ==> memories[local_memory::memory_at(memories, id, from)].id == id,
        forall|j: int|
            from <= j < local_memory::memory_at(memories, id, from) ==> (
            #[trigger] memories[j]).id != id,
    decreases memories.len() - from,
{
    if from < memories.len() && memories[from].id != id {
        lemma_first_memory(memories, id, from + 1);
    }
}

} // verus!
