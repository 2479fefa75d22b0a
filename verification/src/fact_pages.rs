//! The pages of the knowledge pane and the ways between them.

use crate::fact_manager::{AIFactManager, AIFactManagerEvent};
use crate::ids;
use crate::local_memory;
use crate::local_memory::LocalMemoryError;
use crate::memory_views;
use crate::memory_views::{
    MemoryEditorTarget, MemoryEditorView, MemoryEditorViewEvent, MemoryViewEvent,
};
use crate::rule_views;
use crate::rule_views::{
    RuleEditorTarget, RuleEditorView, RuleEditorViewEvent, RuleRequest, RuleTarget, RuleViewEvent,
};
use crate::text;
use vstd::prelude::*;

verus! {

/// The title of the pane.
pub const HEADER_TEXT: &'static str = "Knowledge";

/// What the pane says of itself.
pub const OFFLINE_TEXT: &'static str =
    "Local rules and memory remain available without a provider or network.";

/// A page of the pane.
#[derive(Debug, PartialEq, Eq)]
pub enum AIFactPage<S = String> {
    Rules,
    RuleEditor { target: RuleEditorTarget<S> },
    Memory,
    MemoryEditor { target: MemoryEditorTarget<S> },
}

pub type PageModel = AIFactPage<Seq<char>>;

impl View for AIFactPage<String> {
    type V = PageModel;

    open spec fn view(&self) -> PageModel {
        match self {
            AIFactPage::Rules => AIFactPage::Rules,
            AIFactPage::RuleEditor { target } => AIFactPage::RuleEditor { target: target@ },
            AIFactPage::Memory => AIFactPage::Memory,
            AIFactPage::MemoryEditor { target } => AIFactPage::MemoryEditor { target: target@ },
        }
    }
}

impl Clone for AIFactPage<String> {
    fn clone(&self) -> (r: Self)
        ensures
            r@ == self@,
    {
        match self {
            AIFactPage::Rules => AIFactPage::Rules,
            AIFactPage::RuleEditor { target } => AIFactPage::RuleEditor {
                target: target.clone(),
            },
            AIFactPage::Memory => AIFactPage::Memory,
            AIFactPage::MemoryEditor { target } => AIFactPage::MemoryEditor {
                target: target.clone(),
            },
        }
    }
}

impl Default for AIFactPage<String> {
    fn default() -> (r: Self)
        ensures
            r@ == PageModel::Rules,
    {
        AIFactPage::Rules
    }
}

impl AIFactPage {
    /// The name of the page.
    pub fn name(&self) -> (r: &'static str)
        ensures
            r@ == match self@ {
                AIFactPage::Rules => "Rules"@,
                AIFactPage::RuleEditor { .. } => "Rule Editor"@,
                AIFactPage::Memory => "Memory"@,
                AIFactPage::MemoryEditor { .. } => "Memory Editor"@,
            },
    {
        match self {
            AIFactPage::Rules => "Rules",
            AIFactPage::RuleEditor { .. } => "Rule Editor",
            AIFactPage::Memory => "Memory",
            AIFactPage::MemoryEditor { .. } => "Memory Editor",
        }
    }

    /// Whether the page shows the tabs; editors do not.
    pub fn shows_tabs(&self) -> (r: bool)
        ensures
            r == (self@ is Rules || self@ is Memory),
    {
        match self {
            AIFactPage::Rules | AIFactPage::Memory => true,
            _ => false,
        }
    }
}

/// What a pane tells the window.
#[derive(Clone, Copy, Debug, PartialEq, Eq, Structural)]
pub enum PaneEvent {
    Close,
}

/// What the knowledge pane tells the window.
#[derive(Clone, Debug)]
pub enum AIFactViewEvent<S = String> {
    Pane(PaneEvent),
    OpenSettings,
    OpenFile(S),
    InitializeProject(S),
}

pub type ViewEventModel = AIFactViewEvent<Seq<char>>;

impl View for AIFactViewEvent<String> {
    type V = ViewEventModel;

    open spec fn view(&self) -> ViewEventModel {
        match self {
            AIFactViewEvent::Pane(event) => AIFactViewEvent::Pane(*event),
            AIFactViewEvent::OpenSettings => AIFactViewEvent::OpenSettings,
            AIFactViewEvent::OpenFile(path) => AIFactViewEvent::OpenFile(path@),
            AIFactViewEvent::InitializeProject(path) => AIFactViewEvent::InitializeProject(path@),
        }
    }
}

pub open spec fn view_event_opt(event: Option<AIFactViewEvent>) -> Option<ViewEventModel> {
    match event {
        Some(event) => Some(event@),
        None => None,
    }
}

/// What the user does to the pane.
#[derive(Debug)]
pub enum AIFactViewAction<S = String> {
    AddRule,
    UpdatePage(AIFactPage<S>),
}

impl Clone for AIFactViewAction<String> {
    fn clone(&self) -> (r: Self)
        ensures
            match *self {
                AIFactViewAction::AddRule => r is AddRule,
                AIFactViewAction::UpdatePage(page) => r matches AIFactViewAction::UpdatePage(copy)
                    && copy@ == page@,
            },
    {
        match self {
            AIFactViewAction::AddRule => AIFactViewAction::AddRule,
            AIFactViewAction::UpdatePage(page) => AIFactViewAction::UpdatePage(page.clone()),
        }
    }
}

/// The part of the pane that takes the keys.
#[derive(Clone, Copy, Debug, PartialEq, Eq, Structural)]
pub enum FocusedPart {
    RuleList,
    RuleEditor,
    MemoryList,
    MemoryEditor,
}

/// The pane: its page and its two editors.
pub struct AIFactView {
    pub current_page: AIFactPage,
    pub rule_editor: RuleEditorView,
    pub memory_editor: MemoryEditorView,
}

#[verifier::ext_equal]
pub struct PaneModel {
    pub page: PageModel,
    pub rule_editor: rule_views::RuleEditorModel,
    pub memory_editor: memory_views::MemoryEditorModel,
}

impl View for AIFactView {
    type V = PaneModel;

    open spec fn view(&self) -> PaneModel {
        PaneModel {
            page: self.current_page@,
            rule_editor: self.rule_editor@,
            memory_editor: self.memory_editor@,
        }
    }
}

impl PaneModel {
    /// The pane on another page: an editor opens what the page is about.
    pub open spec fn on(self, page: PageModel) -> PaneModel {
        PaneModel {
            page,
            rule_editor: match page {
                AIFactPage::RuleEditor { target } => rule_views::RuleEditorModel::opened(target),
                _ => self.rule_editor,
            },
            memory_editor: match page {
                AIFactPage::MemoryEditor { target } => memory_views::MemoryEditorModel::opened(
                    target,
                ),
                _ => self.memory_editor,
            },
        }
    }

    /// The pane after something the list of rules asked for.
    pub open spec fn after_rule_event(self, event: rule_views::RuleEventModel) -> PaneModel {
        match event {
            RuleViewEvent::AddRule(target) => self.on(
                AIFactPage::RuleEditor { target: RuleEditorTarget::New(target) },
            ),
            RuleViewEvent::Edit(rule) => self.on(
                AIFactPage::RuleEditor { target: RuleEditorTarget::Existing(rule) },
            ),
            _ => self,
        }
    }
}

/// What the window hears of something the list of rules asked for.
pub open spec fn passed_on(event: rule_views::RuleEventModel) -> Option<ViewEventModel> {
    match event {
        RuleViewEvent::OpenSettings => Some(AIFactViewEvent::OpenSettings),
        RuleViewEvent::OpenFile(path) => Some(AIFactViewEvent::OpenFile(path)),
        RuleViewEvent::InitializeProject(path) => Some(AIFactViewEvent::InitializeProject(path)),
        _ => None,
    }
}

/// What saving or deleting in an editor of rules asks of the files.
pub open spec fn asked_of_files(event: rule_views::RuleEditorEventModel) -> Option<
    rule_views::RequestModel,
> {
    match event {
        RuleEditorViewEvent::Back => None,
        RuleEditorViewEvent::Save { target, content } => Some(
            rule_views::save_request(target, content),
        ),
        RuleEditorViewEvent::Delete { rule } => Some(
            RuleRequest::Delete { path: rule.path, revision: rule.revision },
        ),
    }
}

pub open spec fn request_opt(request: Option<RuleRequest>) -> Option<rule_views::RequestModel> {
    match request {
        Some(request) => Some(request@),
        None => None,
    }
}

/// What came of saving or deleting a memory.
pub enum MemoryChange {
    /// Nothing was asked for.
    Left,
    /// The memories changed.
    Changed(AIFactManagerEvent),
    /// The change was refused, with this text.
    Refused(String),
}

impl AIFactView {
    pub fn new() -> (r: Self)
        ensures
            r@ == (PaneModel {
                page: PageModel::Rules,
                rule_editor: rule_views::RuleEditorModel::fresh(),
                memory_editor: memory_views::MemoryEditorModel::fresh(),
            }),
    {
        AIFactView {
            current_page: AIFactPage::default(),
            rule_editor: RuleEditorView::new(),
            memory_editor: MemoryEditorView::new(),
        }
    }

    pub fn current_page(&self) -> (r: AIFactPage)
        ensures
            r@ == self@.page,
    {
        self.current_page.clone()
    }

    /// The part that takes the keys on the current page.
    pub fn focus(&self) -> (r: FocusedPart)
        ensures
            r == match self@.page {
                AIFactPage::Rules => FocusedPart::RuleList,
                AIFactPage::RuleEditor { .. } => FocusedPart::RuleEditor,
                AIFactPage::Memory => FocusedPart::MemoryList,
                AIFactPage::MemoryEditor { .. } => FocusedPart::MemoryEditor,
            },
    {
        match &self.current_page {
            AIFactPage::Rules => FocusedPart::RuleList,
            AIFactPage::RuleEditor { .. } => FocusedPart::RuleEditor,
            AIFactPage::Memory => FocusedPart::MemoryList,
            AIFactPage::MemoryEditor { .. } => FocusedPart::MemoryEditor,
        }
    }

    /// Goes to a page.
    pub fn update_page(&mut self, page: AIFactPage)
        ensures
            final(self)@ == old(self)@.on(page@),
    {
        if let AIFactPage::RuleEditor { target } = &page {
            self.rule_editor.set_target(target.clone());
        }
        if let AIFactPage::MemoryEditor { target } = &page {
            self.memory_editor.set_target(target.clone());
        }
        self.current_page = page;
    }

    pub fn handle_action(&mut self, action: AIFactViewAction)
        ensures
            final(self)@ == match action {
                AIFactViewAction::AddRule => old(self)@.on(
                    AIFactPage::RuleEditor { target: RuleEditorTarget::New(RuleTarget::Global) },
                ),
                AIFactViewAction::UpdatePage(page) => old(self)@.on(page@),
            },
    {
        match action {
            AIFactViewAction::AddRule => self.update_page(
                AIFactPage::RuleEditor { target: RuleEditorTarget::New(RuleTarget::Global) },
            ),
            AIFactViewAction::UpdatePage(page) => self.update_page(page),
        }
    }

    /// What closing the pane tells the window.
    pub fn close(&self) -> (r: AIFactViewEvent)
        ensures
            r@ == ViewEventModel::Pane(PaneEvent::Close),
    {
        AIFactViewEvent::Pane(PaneEvent::Close)
    }

    /// Takes what the list of rules asked for.
    pub fn handle_rule_view_event(&mut self, event: RuleViewEvent) -> (r: Option<AIFactViewEvent>)
        ensures
            final(self)@ == old(self)@.after_rule_event(event@),
            view_event_opt(r) == passed_on(event@),
    {
        match event {
            RuleViewEvent::AddRule(target) => {
                self.update_page(AIFactPage::RuleEditor { target: RuleEditorTarget::New(target) });
                None
            },
            RuleViewEvent::Edit(rule) => {
                self.update_page(
                    AIFactPage::RuleEditor { target: RuleEditorTarget::Existing(rule) },
                );
                None
            },
            RuleViewEvent::OpenSettings => Some(AIFactViewEvent::OpenSettings),
            RuleViewEvent::OpenFile(path) => Some(AIFactViewEvent::OpenFile(path)),
            RuleViewEvent::InitializeProject(path) => Some(
                AIFactViewEvent::InitializeProject(path),
            ),
        }
    }

    /// Takes what the editor of rules asked for: leaving goes back to the list,
    /// anything else is first asked of the files.
    pub fn handle_rule_editor_view_event(&mut self, event: RuleEditorViewEvent) -> (r: Option<
        RuleRequest,
    >)
        ensures
            request_opt(r) == asked_of_files(event@),
            final(self)@ == if event@ is Back {
                old(self)@.on(AIFactPage::Rules)
            } else {
                old(self)@
            },
    {
        match event {
            RuleEditorViewEvent::Back => {
                self.update_page(AIFactPage::Rules);
                None
            },
            RuleEditorViewEvent::Save { target, content } => Some(
                rule_views::save_local_rule(&target, content.as_str()),
            ),
            RuleEditorViewEvent::Delete { rule } => Some(rule_views::delete_local_rule(&rule)),
        }
    }

    /// Takes what the files answered: only a change that was made leads back to
    /// the list, and a refusal is to be shown.
    pub fn finish_rule_request(&mut self, answer: Result<(), String>) -> (r: Option<String>)
        ensures
            text::text_opt(r) == match answer {
                Ok(_) => None,
                Err(message) => Some(message@),
            },
            final(self)@ == if answer is Ok {
                old(self)@.on(AIFactPage::Rules)
            } else {
                old(self)@
            },
    {
        match answer {
            Ok(_) => {
                self.update_page(AIFactPage::Rules);
                None
            },
            Err(message) => Some(message),
        }
    }

    /// Takes what the list of memories asked for.
    pub fn handle_memory_view_event(&mut self, event: MemoryViewEvent)
        ensures
            final(self)@ == old(self)@.on(
                AIFactPage::MemoryEditor {
                    target: match event {
                        MemoryViewEvent::Add(scope) => MemoryEditorTarget::New(scope@),
                        MemoryViewEvent::Edit(memory) => MemoryEditorTarget::Existing(memory@),
                    },
                },
            ),
    {
        let target = match event {
            MemoryViewEvent::Add(scope) => MemoryEditorTarget::New(scope),
            MemoryViewEvent::Edit(memory) => MemoryEditorTarget::Existing(memory),
        };
        self.update_page(AIFactPage::MemoryEditor { target });
    }

    /// Takes what the editor of memories asked for: only leaving, or a change
    /// that was made, leads back to the list. `resolved` is what the root of the
    /// target's project resolved to.
    pub fn handle_memory_editor_view_event<V>(
        &mut self,
        event: MemoryEditorViewEvent,
        manager: &mut AIFactManager<V>,
        resolved: Option<String>,
        now: i64,
    ) -> (r: MemoryChange)
        requires
            old(manager).wf(),
        ensures
            final(manager).wf(),
            final(manager)@.panes == old(manager)@.panes,
            r is Refused ==> final(self)@ == old(self)@ && final(manager)@ == old(manager)@,
            r is Left ==> final(manager)@ == old(manager)@,
            r !is Refused ==> final(self)@ == old(self)@.on(AIFactPage::Memory),
            r is Left <==> event@ is Back,
            r matches MemoryChange::Changed(change) ==> change
                == AIFactManagerEvent::MemoriesChanged,
            match event@ {
                MemoryEditorViewEvent::Back => r is Left,
                MemoryEditorViewEvent::Save { target: MemoryEditorTarget::New(scope), title, content } =>
                    match r {
                        MemoryChange::Changed(_) => exists|id: u128|
                            ids::is_v4(id) && #[trigger] old(manager)@.memories.create_problem(
                                scope,
                                text::text_opt(resolved),
                                title,
                                content,
                                id,
                            ) is None && final(manager)@.memories
                                == local_memory::RepositoryModel::Available(
                                old(manager)@.memories->Available_0.with_created(
                                    local_memory::StoreModel::new_memory(
                                        scope,
                                        text::text_opt(resolved),
                                        title,
                                        content,
                                        id,
                                        now,
                                    ),
                                ),
                            ),
                        MemoryChange::Refused(message) => exists|id: u128|
                            {
                                let problem = #[trigger] old(manager)@.memories.create_problem(
                                    scope,
                                    text::text_opt(resolved),
                                    title,
                                    content,
                                    id,
                                );
                                ids::is_v4(id) && problem is Some && message@
                                    == local_memory::error_text(problem->0)
                            },
                        MemoryChange::Left => false,
                    },
                MemoryEditorViewEvent::Save {
                    target: MemoryEditorTarget::Existing(memory),
                    title,
                    content,
                } => {
                    let problem = old(manager)@.memories.update_problem(
                        memory.id,
                        memory.revision,
                        memory.scope,
                        text::text_opt(resolved),
                        title,
                        content,
                    );
                    match r {
                        MemoryChange::Changed(_) => problem is None && final(manager)@.memories
                            == local_memory::RepositoryModel::Available(
                            old(manager)@.memories->Available_0.with_updated(
                                old(manager)@.memories->Available_0.updated_memory(
                                    memory.id,
                                    memory.scope,
                                    text::text_opt(resolved),
                                    title,
                                    content,
                                    now,
                                ),
                            ),
                        ),
                        MemoryChange::Refused(message) => problem is Some && message@
                            == local_memory::error_text(problem->0),
                        MemoryChange::Left => false,
                    }
                },
                MemoryEditorViewEvent::Delete { memory } => {
                    let problem = old(manager)@.memories.delete_problem(
                        memory.id,
                        memory.revision,
                    );
                    match r {
                        MemoryChange::Changed(_) => problem is None && final(manager)@.memories
                            == local_memory::RepositoryModel::Available(
                            old(manager)@.memories->Available_0.with_deleted(memory.id, now),
                        ),
                        MemoryChange::Refused(message) => problem is Some && message@
                            == local_memory::error_text(problem->0),
                        MemoryChange::Left => false,
                    }
                },
            },
    {
        let done: Result<AIFactManagerEvent, LocalMemoryError> = match event {
            MemoryEditorViewEvent::Back => {
                self.update_page(AIFactPage::Memory);
                return MemoryChange::Left;
            },
            MemoryEditorViewEvent::Save { target, title, content } => match target {
                MemoryEditorTarget::New(scope) => {
                    match manager.create_memory(
                        scope,
                        resolved,
                        title.as_str(),
                        content.as_str(),
                        now,
                    ) {
                        Ok((_, change)) => Ok(change),
                        Err(error) => Err(error),
                    }
                },
                MemoryEditorTarget::Existing(memory) => {
                    match manager.update_memory(
                        memory.id,
                        memory.revision,
                        memory.scope,
                        resolved,
                        title.as_str(),
                        content.as_str(),
                        now,
                    ) {
                        Ok((_, change)) => Ok(change),
                        Err(error) => Err(error),
                    }
                },
            },
            MemoryEditorViewEvent::Delete { memory } => manager.delete_memory(
                memory.id,
                memory.revision,
                now,
            ),
        };
        match done {
            Ok(change) => {
                self.update_page(AIFactPage::Memory);
                MemoryChange::Changed(change)
            },
            Err(error) => MemoryChange::Refused(error.message()),
        }
    }
}

/// A page opens its editor clean, and leaves the other editor as it was.
pub proof fn law_page_opens_its_editor(m: PaneModel, page: PageModel)
    ensures
        m.on(page).page == page,
        page matches AIFactPage::RuleEditor { target } ==> !m.on(page).rule_editor.dirty()
            && m.on(page).rule_editor.target == Some(target) && m.on(page).memory_editor
            == m.memory_editor,
        page matches AIFactPage::MemoryEditor { target } ==> !m.on(page).memory_editor.dirty()
            && m.on(page).memory_editor.target == Some(target) && m.on(page).rule_editor
            == m.rule_editor,
{
}

/// A rule to add or to edit opens its editor; anything else is told to the
/// window as it is.
pub proof fn law_rule_events(m: PaneModel, event: rule_views::RuleEventModel, path: Seq<char>)
    ensures
        event matches RuleViewEvent::AddRule(target) ==> m.after_rule_event(event).page == (
        PageModel::RuleEditor { target: RuleEditorTarget::New(target) }) && m.after_rule_event(
            event,
        ).rule_editor.target == Some(
            RuleEditorTarget::<Seq<char>>::New(target),
        ) && passed_on(event) is None,
        event matches RuleViewEvent::Edit(rule) ==> m.after_rule_event(event).page == (
        PageModel::RuleEditor { target: RuleEditorTarget::Existing(rule) }) && m.after_rule_event(
            event,
        ).rule_editor.content == rule.content && passed_on(event) is None,
        !(event is AddRule) && !(event is Edit) ==> m.after_rule_event(event) == m && passed_on(
            event,
        ) is Some,
        passed_on(RuleViewEvent::OpenFile(path)) == Some(ViewEventModel::OpenFile(path)),
        passed_on(RuleViewEvent::InitializeProject(path)) == Some(
            ViewEventModel::InitializeProject(path),
        ),
        passed_on(RuleViewEvent::OpenSettings) == Some(ViewEventModel::OpenSettings),
{
}

/// Of the files is asked what the editor asked for: leaving asks nothing, and a
/// deletion names the path and the revision that were opened.
pub proof fn law_files_are_asked_for_changes(
    target: rule_views::EditorTargetModel,
    content: Seq<char>,
    rule: rule_views::RuleModel,
)
    ensures
        asked_of_files(RuleEditorViewEvent::Back) is None,
        asked_of_files(RuleEditorViewEvent::Save { target, content }) == Some(
            rule_views::save_request(target, content),
        ),
        asked_of_files(RuleEditorViewEvent::Delete { rule }) == Some(
            rule_views::RequestModel::Delete { path: rule.path, revision: rule.revision },
        ),
{
}

/// The lists leave both editors as they are.
pub proof fn law_lists_leave_the_editors(m: PaneModel)
    ensures
        m.on(AIFactPage::Rules).rule_editor == m.rule_editor,
        m.on(AIFactPage::Rules).memory_editor == m.memory_editor,
        m.on(AIFactPage::Memory).rule_editor == m.rule_editor,
        m.on(AIFactPage::Memory).memory_editor == m.memory_editor,
{
}

} // verus!
