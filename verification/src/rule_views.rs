//! The list of rules and the editor of one, without their looks.

use crate::memory_views::DeleteControl;
use crate::order;
use crate::order::Ordered;
use crate::paths;
use crate::text;
use vstd::prelude::*;

verus! {

/// The title of the list.
pub const HEADER_TEXT: &'static str = "Rules";

// ---------------------------------------------------------------------------
// Rules and where they go.

/// The files in which a project keeps its rules.
#[derive(Clone, Copy, Debug, PartialEq, Eq, Structural)]
pub enum ProjectRuleFile {
    Warp,
    Agents,
}

pub open spec fn rule_file_name(file: ProjectRuleFile) -> Seq<char> {
    match file {
        ProjectRuleFile::Warp => "WARP.md"@,
        ProjectRuleFile::Agents => "AGENTS.md"@,
    }
}

impl ProjectRuleFile {
    pub fn file_name(self) -> (r: &'static str)
        ensures
            r@ == rule_file_name(self),
    {
        match self {
            ProjectRuleFile::Warp => "WARP.md",
            ProjectRuleFile::Agents => "AGENTS.md",
        }
    }
}

/// A rule as it was read from its file.
#[derive(Debug, PartialEq, Eq)]
pub struct LocalRule<S = String> {
    pub path: S,
    pub content: S,
    pub revision: S,
    pub writable: bool,
}

pub type RuleModel = LocalRule<Seq<char>>;

impl View for LocalRule<String> {
    type V = RuleModel;

    open spec fn view(&self) -> RuleModel {
        LocalRule {
            path: self.path@,
            content: self.content@,
            revision: self.revision@,
            writable: self.writable,
        }
    }
}

impl Clone for LocalRule<String> {
    fn clone(&self) -> (r: Self)
        ensures
            r@ == self@,
    {
        LocalRule {
            path: self.path.clone(),
            content: self.content.clone(),
            revision: self.revision.clone(),
            writable: self.writable,
        }
    }
}

/// Which rules are listed.
#[derive(Clone, Copy, Debug, PartialEq, Eq, Structural)]
pub enum RuleScope {
    Global,
    ProjectBased,
}

/// Where a new rule goes.
#[derive(Debug, PartialEq, Eq)]
pub enum RuleTarget<S = String> {
    Global,
    Project { root: S, file: ProjectRuleFile },
}

pub type RuleTargetModel = RuleTarget<Seq<char>>;

impl View for RuleTarget<String> {
    type V = RuleTargetModel;

    open spec fn view(&self) -> RuleTargetModel {
        match self {
            RuleTarget::Global => RuleTarget::Global,
            RuleTarget::Project { root, file } => RuleTarget::Project { root: root@, file: *file },
        }
    }
}

impl Clone for RuleTarget<String> {
    fn clone(&self) -> (r: Self)
        ensures
            r@ == self@,
    {
        match self {
            RuleTarget::Global => RuleTarget::Global,
            RuleTarget::Project { root, file } => RuleTarget::Project {
                root: root.clone(),
                file: *file,
            },
        }
    }
}

/// The file of a target, where `home` is the home directory if it is known.
pub open spec fn target_path(target: RuleTargetModel, home: Option<Seq<char>>) -> Seq<char> {
    match target {
        RuleTarget::Global => paths::join(
            match home {
                Some(home) => home,
                None => "~"@,
            },
            ".agents/AGENTS.md"@,
        ),
        RuleTarget::Project { root, file } => paths::join(root, rule_file_name(file)),
    }
}

impl RuleTarget {
    /// The file of the target.
    pub fn display_path(&self, home: &Option<String>) -> (r: String)
        ensures
            r@ == target_path(self@, text::text_opt(*home)),
    {
        match self {
            RuleTarget::Global => match home {
                Some(home) => paths::join_path(home.as_str(), ".agents/AGENTS.md"),
                None => paths::join_path("~", ".agents/AGENTS.md"),
            },
            RuleTarget::Project { root, file } => paths::join_path(
                root.as_str(),
                file.file_name(),
            ),
        }
    }
}

// ---------------------------------------------------------------------------
// The list.

/// A file in the list: its rule, or why it cannot be read.
#[derive(Debug)]
pub struct FileBackedRow<S = String> {
    pub path: S,
    pub rule: Option<LocalRule<S>>,
    pub error: Option<S>,
}

pub type RowModel = FileBackedRow<Seq<char>>;

pub open spec fn rule_opt(rule: Option<LocalRule>) -> Option<RuleModel> {
    match rule {
        Some(rule) => Some(rule@),
        None => None,
    }
}

impl View for FileBackedRow<String> {
    type V = RowModel;

    open spec fn view(&self) -> RowModel {
        FileBackedRow {
            path: self.path@,
            rule: rule_opt(self.rule),
            error: text::text_opt(self.error),
        }
    }
}

impl Clone for FileBackedRow<String> {
    fn clone(&self) -> (r: Self)
        ensures
            r@ == self@,
    {
        FileBackedRow {
            path: self.path.clone(),
            rule: match &self.rule {
                Some(rule) => Some(rule.clone()),
                None => None,
            },
            error: text::clone_opt(&self.error),
        }
    }
}

pub open spec fn row_models(rows: Seq<FileBackedRow>) -> Seq<RowModel> {
    Seq::new(rows.len(), |i: int| rows[i]@)
}

/// Whether a row holds a text, in any case.
pub open spec fn row_holds(row: RowModel, needle: Seq<char>) -> bool {
    ||| text::occurs_in(needle, text::text_lowercase(row.path))
    ||| match row.rule {
        Some(rule) => text::occurs_in(needle, text::text_lowercase(rule.content)),
        None => false,
    }
    ||| match row.error {
        Some(error) => text::occurs_in(needle, text::text_lowercase(error)),
        None => false,
    }
}

impl FileBackedRow {
    pub fn matches_search_term(&self, search_term: &str) -> (r: bool)
        ensures
            r == row_holds(self@, search_term@),
    {
        if text::str_contains(text::lowercase_text(self.path.as_str()).as_str(), search_term) {
            return true;
        }
        if let Some(rule) = &self.rule {
            if text::str_contains(
                text::lowercase_text(rule.content.as_str()).as_str(),
                search_term,
            ) {
                return true;
            }
        }
        match &self.error {
            Some(error) => text::str_contains(
                text::lowercase_text(error.as_str()).as_str(),
                search_term,
            ),
            None => false,
        }
    }
}

/// What came of reading a file that may hold rules.
pub enum ReadOutcome<S = String> {
    Read(LocalRule<S>),
    Missing,
    Failed(S),
}

/// A file that may hold rules, and what came of reading it.
pub struct RuleReading {
    pub path: String,
    pub is_global: bool,
    pub outcome: ReadOutcome,
}

/// The row of a file, unless the file is missing.
pub open spec fn row_of(reading: RuleReading) -> Option<RowModel> {
    match reading.outcome {
        ReadOutcome::Read(rule) => Some(
            FileBackedRow { path: reading.path@, rule: Some(rule@), error: None },
        ),
        ReadOutcome::Missing => None,
        ReadOutcome::Failed(error) => Some(
            FileBackedRow { path: reading.path@, rule: None, error: Some(error@) },
        ),
    }
}

/// The rows of the global files, or of the others, in the order of the files.
pub open spec fn rows_of(readings: Seq<RuleReading>, global: bool) -> Seq<RowModel>
    decreases readings.len(),
{
    if readings.len() == 0 {
        Seq::empty()
    } else {
        let init = rows_of(readings.drop_last(), global);
        match row_of(readings.last()) {
            Some(row) if readings.last().is_global == global => init.push(row),
            _ => init,
        }
    }
}

/// The rows of the global files and those of the others.
pub fn load_rows(readings: Vec<RuleReading>) -> (r: (Vec<FileBackedRow>, Vec<FileBackedRow>))
    ensures
        row_models(r.0@) == rows_of(readings@, true),
        row_models(r.1@) == rows_of(readings@, false),
{
    let ghost all = readings@;
    let mut global: Vec<FileBackedRow> = Vec::new();
    let mut project: Vec<FileBackedRow> = Vec::new();
    let mut i: usize = 0;
    proof {
        assert(all.subrange(0, 0) =~= Seq::<RuleReading>::empty());
        assert(row_models(global@) =~= Seq::<RowModel>::empty());
        assert(row_models(project@) =~= Seq::<RowModel>::empty());
    }
    while i < readings.len()
        invariant
            i <= readings.len(),
            all == readings@,
            row_models(global@) == rows_of(all.subrange(0, i as int), true),
            row_models(project@) == rows_of(all.subrange(0, i as int), false),
        decreases readings.len() - i,
    {
        let ghost part = all.subrange(0, i + 1);
        assert(part.drop_last() =~= all.subrange(0, i as int));
        assert(part.last() == readings@[i as int]);
        let reading = &readings[i];
        let row = match &reading.outcome {
            ReadOutcome::Read(rule) => Some(
                FileBackedRow {
                    path: reading.path.clone(),
                    rule: Some(rule.clone()),
                    error: None,
                },
            ),
            ReadOutcome::Missing => None,
            ReadOutcome::Failed(error) => Some(
                FileBackedRow {
                    path: reading.path.clone(),
                    rule: None,
                    error: Some(error.clone()),
                },
            ),
        };
        if let Some(row) = row {
            let ghost model = row@;
            assert(row_of(all[i as int]) == Some(model));
            if reading.is_global {
                let ghost before = row_models(global@);
                global.push(row);
                assert(row_models(global@) =~= before.push(model));
            } else {
                let ghost before = row_models(project@);
                project.push(row);
                assert(row_models(project@) =~= before.push(model));
            }
        }
        i += 1;
    }
    assert(all.subrange(0, all.len() as int) =~= all);
    (global, project)
}

/// What the list asks for.
#[derive(Debug)]
pub enum RuleViewEvent<S = String> {
    AddRule(RuleTarget<S>),
    Edit(LocalRule<S>),
    OpenSettings,
    OpenFile(S),
    InitializeProject(S),
}

pub type RuleEventModel = RuleViewEvent<Seq<char>>;

impl Clone for RuleViewEvent<String> {
    fn clone(&self) -> (r: Self)
        ensures
            r@ == self@,
    {
        match self {
            RuleViewEvent::AddRule(target) => RuleViewEvent::AddRule(target.clone()),
            RuleViewEvent::Edit(rule) => RuleViewEvent::Edit(rule.clone()),
            RuleViewEvent::OpenSettings => RuleViewEvent::OpenSettings,
            RuleViewEvent::OpenFile(path) => RuleViewEvent::OpenFile(path.clone()),
            RuleViewEvent::InitializeProject(path) => RuleViewEvent::InitializeProject(
                path.clone(),
            ),
        }
    }
}

impl View for RuleViewEvent<String> {
    type V = RuleEventModel;

    open spec fn view(&self) -> RuleEventModel {
        match self {
            RuleViewEvent::AddRule(target) => RuleViewEvent::AddRule(target@),
            RuleViewEvent::Edit(rule) => RuleViewEvent::Edit(rule@),
            RuleViewEvent::OpenSettings => RuleViewEvent::OpenSettings,
            RuleViewEvent::OpenFile(path) => RuleViewEvent::OpenFile(path@),
            RuleViewEvent::InitializeProject(path) => RuleViewEvent::InitializeProject(path@),
        }
    }
}

/// What the user does in the list.
#[derive(Clone, Debug)]
pub enum RuleViewAction<S = String> {
    AddRule,
    AddProject { root: S, file: ProjectRuleFile },
    InitializeProject,
    Edit(S),
    OpenSettings,
    SelectScope(RuleScope),
    OpenFile(S),
}

pub type RuleActionModel = RuleViewAction<Seq<char>>;

impl View for RuleViewAction<String> {
    type V = RuleActionModel;

    open spec fn view(&self) -> RuleActionModel {
        match self {
            RuleViewAction::AddRule => RuleViewAction::AddRule,
            RuleViewAction::AddProject { root, file } => RuleViewAction::AddProject {
                root: root@,
                file: *file,
            },
            RuleViewAction::InitializeProject => RuleViewAction::InitializeProject,
            RuleViewAction::Edit(path) => RuleViewAction::Edit(path@),
            RuleViewAction::OpenSettings => RuleViewAction::OpenSettings,
            RuleViewAction::SelectScope(scope) => RuleViewAction::SelectScope(*scope),
            RuleViewAction::OpenFile(path) => RuleViewAction::OpenFile(path@),
        }
    }
}

/// What is known of the files when an action is taken: whether there is no
/// global rule file, whether the project's file of the action is missing, and
/// what came of reading the file of the action.
pub struct RuleFacts {
    pub global_target_missing: bool,
    pub project_target_missing: bool,
    pub reading: Result<LocalRule, String>,
}

/// What comes of an action in the list.
pub enum RuleViewOutcome<S = String> {
    Emit(RuleViewEvent<S>),
    ShowError(S),
    PickProject,
    Redraw,
    Nothing,
}

pub type RuleOutcomeModel = RuleViewOutcome<Seq<char>>;

impl View for RuleViewOutcome<String> {
    type V = RuleOutcomeModel;

    open spec fn view(&self) -> RuleOutcomeModel {
        match self {
            RuleViewOutcome::Emit(event) => RuleViewOutcome::Emit(event@),
            RuleViewOutcome::ShowError(message) => RuleViewOutcome::ShowError(message@),
            RuleViewOutcome::PickProject => RuleViewOutcome::PickProject,
            RuleViewOutcome::Redraw => RuleViewOutcome::Redraw,
            RuleViewOutcome::Nothing => RuleViewOutcome::Nothing,
        }
    }
}

/// What comes of an action while a scope is selected.
pub open spec fn outcome(scope: RuleScope, action: RuleActionModel, facts: RuleFacts) ->
    RuleOutcomeModel {
    match action {
        RuleViewAction::AddRule => if scope == RuleScope::Global && facts.global_target_missing {
            RuleViewOutcome::Emit(RuleViewEvent::AddRule(RuleTarget::Global))
        } else {
            RuleViewOutcome::Nothing
        },
        RuleViewAction::AddProject { root, file } => if facts.project_target_missing {
            RuleViewOutcome::Emit(RuleViewEvent::AddRule(RuleTarget::Project { root, file }))
        } else {
            RuleViewOutcome::Nothing
        },
        RuleViewAction::InitializeProject => RuleViewOutcome::PickProject,
        RuleViewAction::Edit(_) => match facts.reading {
            Ok(rule) => RuleViewOutcome::Emit(RuleViewEvent::Edit(rule@)),
            Err(message) => RuleViewOutcome::ShowError(message@),
        },
        RuleViewAction::OpenSettings => RuleViewOutcome::Emit(RuleViewEvent::OpenSettings),
        RuleViewAction::SelectScope(_) => RuleViewOutcome::Redraw,
        RuleViewAction::OpenFile(path) => RuleViewOutcome::Emit(RuleViewEvent::OpenFile(path)),
    }
}

/// The list: the rows last read, the projects, and the scope that is selected.
pub struct RuleView {
    pub global_rules: Vec<FileBackedRow>,
    pub project_rules: Vec<FileBackedRow>,
    pub project_roots: Vec<String>,
    pub current_scope: RuleScope,
}

#[verifier::ext_equal]
pub struct RuleListModel {
    pub global_rules: Seq<RowModel>,
    pub project_rules: Seq<RowModel>,
    pub project_roots: Seq<Seq<char>>,
    pub current_scope: RuleScope,
}

impl View for RuleView {
    type V = RuleListModel;

    open spec fn view(&self) -> RuleListModel {
        RuleListModel {
            global_rules: row_models(self.global_rules@),
            project_rules: row_models(self.project_rules@),
            project_roots: text::texts(self.project_roots@),
            current_scope: self.current_scope,
        }
    }
}

impl RuleListModel {
    /// The rows of the scope that is selected.
    pub open spec fn selected(self) -> Seq<RowModel> {
        match self.current_scope {
            RuleScope::Global => self.global_rules,
            RuleScope::ProjectBased => self.project_rules,
        }
    }
}

pub open spec fn holding(needle: Seq<char>) -> spec_fn(RowModel) -> bool {
    |row: RowModel| needle.len() == 0 || row_holds(row, needle)
}

pub open spec fn row_order() -> spec_fn(RowModel, RowModel) -> bool {
    |a: RowModel, b: RowModel| paths::path_at_most(a.path, b.path)
}

/// The rows that are shown for a search, by path.
pub open spec fn shown_rows(rows: Seq<RowModel>, search: Seq<char>) -> Seq<RowModel> {
    order::sorted_by(rows.filter(holding(text::text_lowercase(search))), row_order())
}

impl Ordered for FileBackedRow<String> {
    open spec fn at_most(&self, other: &Self) -> bool {
        paths::path_at_most(self@.path, other@.path)
    }

    proof fn order_total(a: &Self, b: &Self) {
        paths::lemma_path_total(a@.path, b@.path);
    }

    proof fn order_transitive(a: &Self, b: &Self, c: &Self) {
        paths::lemma_path_transitive(a@.path, b@.path, c@.path);
    }

    fn is_at_most(&self, other: &Self) -> (r: bool) {
        paths::is_path_at_most(self.path.as_str(), other.path.as_str())
    }
}

pub open spec fn row_view() -> spec_fn(FileBackedRow) -> RowModel {
    |row: FileBackedRow| row@
}

/// A button that adds rules.
pub enum AddButton<S = String> {
    Global,
    OpenProject,
    Project { root: S, file: ProjectRuleFile, label: S },
}

pub type ButtonModel = AddButton<Seq<char>>;

impl View for AddButton<String> {
    type V = ButtonModel;

    open spec fn view(&self) -> ButtonModel {
        match self {
            AddButton::Global => AddButton::Global,
            AddButton::OpenProject => AddButton::OpenProject,
            AddButton::Project { root, file, label } => AddButton::Project {
                root: root@,
                file: *file,
                label: label@,
            },
        }
    }
}

pub open spec fn button_models(buttons: Seq<AddButton>) -> Seq<ButtonModel> {
    Seq::new(buttons.len(), |i: int| buttons[i]@)
}

/// A project, and which of its rule files are missing.
pub struct ProjectTargets {
    pub root: String,
    pub warp_missing: bool,
    pub agents_missing: bool,
}

pub open spec fn project_button(root: Seq<char>, file: ProjectRuleFile) -> ButtonModel {
    AddButton::Project {
        root,
        file,
        label: "Add "@ + rule_file_name(file) + " ("@ + root + ")"@,
    }
}

/// One button for each rule file that a project lacks.
pub open spec fn project_buttons(projects: Seq<ProjectTargets>) -> Seq<ButtonModel>
    decreases projects.len(),
{
    if projects.len() == 0 {
        Seq::empty()
    } else {
        let init = project_buttons(projects.drop_last());
        let project = projects.last();
        let with_warp = if project.warp_missing {
            init.push(project_button(project.root@, ProjectRuleFile::Warp))
        } else {
            init
        };
        if project.agents_missing {
            with_warp.push(project_button(project.root@, ProjectRuleFile::Agents))
        } else {
            with_warp
        }
    }
}

/// The buttons that add rules under a scope.
pub open spec fn add_buttons_of(
    scope: RuleScope,
    global_target_missing: bool,
    projects: Seq<ProjectTargets>,
) -> Seq<ButtonModel> {
    match scope {
        RuleScope::Global => if global_target_missing {
            seq![AddButton::Global]
        } else {
            Seq::empty()
        },
        RuleScope::ProjectBased => if projects.len() == 0 {
            seq![AddButton::OpenProject]
        } else {
            project_buttons(projects)
        },
    }
}

fn button_for(root: &String, file: ProjectRuleFile) -> (r: AddButton)
    ensures
        r@ == project_button(root@, file),
{
    AddButton::Project {
        root: root.clone(),
        file,
        label: text::concat5("Add ", file.file_name(), " (", root.as_str(), ")"),
    }
}

impl RuleView {
    /// The list as it starts.
    pub fn new(readings: Vec<RuleReading>, project_roots: Vec<String>) -> (r: Self)
        ensures
            r@ == (RuleListModel {
                global_rules: rows_of(readings@, true),
                project_rules: rows_of(readings@, false),
                project_roots: text::texts(project_roots@),
                current_scope: RuleScope::Global,
            }),
    {
        let (global_rules, project_rules) = load_rows(readings);
        RuleView { global_rules, project_rules, project_roots, current_scope: RuleScope::Global }
    }

    /// Takes what was read after files or projects changed.
    pub fn refresh_local_rules(&mut self, readings: Vec<RuleReading>, project_roots: Vec<String>)
        ensures
            final(self)@ == (RuleListModel {
                global_rules: rows_of(readings@, true),
                project_rules: rows_of(readings@, false),
                project_roots: text::texts(project_roots@),
                current_scope: old(self)@.current_scope,
            }),
    {
        self.reload_rows(readings);
        self.project_roots = project_roots;
    }

    /// Takes what was read after a rule was saved or deleted.
    pub fn reload_rows(&mut self, readings: Vec<RuleReading>)
        ensures
            final(self)@ == (RuleListModel {
                global_rules: rows_of(readings@, true),
                project_rules: rows_of(readings@, false),
                ..old(self)@
            }),
    {
        let (global_rules, project_rules) = load_rows(readings);
        self.global_rules = global_rules;
        self.project_rules = project_rules;
    }

    /// The rows of the scope that is selected.
    pub fn filtered_rules(&self) -> (r: &Vec<FileBackedRow>)
        ensures
            row_models(r@) == self@.selected(),
    {
        match self.current_scope {
            RuleScope::Global => &self.global_rules,
            RuleScope::ProjectBased => &self.project_rules,
        }
    }

    /// The rows to show for what is searched for.
    pub fn visible_rows(&self, search: &str) -> (r: Vec<FileBackedRow>)
        ensures
            row_models(r@) == shown_rows(self@.selected(), search@),
    {
        let needle = text::lowercase_text(search);
        let everything = text::char_count(needle.as_str()) == 0;
        let rows = self.filtered_rules();
        let ghost all = row_models(rows@);
        let ghost keep = holding(needle@);
        let mut kept: Vec<FileBackedRow> = Vec::new();
        let mut i: usize = 0;
        proof {
            reveal(Seq::filter);
            assert(all.subrange(0, 0) =~= Seq::<RowModel>::empty());
            assert(kept@.map_values(row_view()) =~= all.subrange(0, 0).filter(keep));
        }
        while i < rows.len()
            invariant
                i <= rows.len(),
                all == row_models(rows@),
                keep == holding(needle@),
                everything == (needle@.len() == 0),
                kept@.map_values(row_view()) == all.subrange(0, i as int).filter(keep),
            decreases rows.len() - i,
        {
            let row = &rows[i];
            let ghost part = all.subrange(0, i + 1);
            assert(part.drop_last() =~= all.subrange(0, i as int));
            assert(part.last() == row@);
            proof {
                reveal(Seq::filter);
            }
            if everything || row.matches_search_term(needle.as_str()) {
                assert(keep(row@));
                let ghost before = kept@.map_values(row_view());
                kept.push(row.clone());
                assert(kept@.map_values(row_view()) =~= before.push(row@));
            }
            i += 1;
        }
        assert(all.subrange(0, all.len() as int) =~= all);
        let ghost unsorted = kept@;
        let sorted = order::sort(kept);
        proof {
            order::lemma_sorted_by(unsorted, row_view(), row_order());
            assert(row_models(sorted@) =~= sorted@.map_values(row_view()));
        }
        sorted
    }

    /// The buttons that add rules, where `projects` tells of each project in
    /// turn.
    pub fn add_buttons(
        &self,
        global_target_missing: bool,
        projects: &Vec<ProjectTargets>,
    ) -> (r: Vec<AddButton>)
        ensures
            button_models(r@) == add_buttons_of(
                self@.current_scope,
                global_target_missing,
                projects@,
            ),
    {
        let mut buttons: Vec<AddButton> = Vec::new();
        assert(button_models(buttons@) =~= Seq::<ButtonModel>::empty());
        match self.current_scope {
            RuleScope::Global => {
                if global_target_missing {
                    buttons.push(AddButton::Global);
                    assert(button_models(buttons@) =~= seq![ButtonModel::Global]);
                }
            },
            RuleScope::ProjectBased => {
                if projects.len() == 0 {
                    buttons.push(AddButton::OpenProject);
                    assert(button_models(buttons@) =~= seq![ButtonModel::OpenProject]);
                }
                let mut i: usize = 0;
                assert(projects@.subrange(0, 0) =~= Seq::<ProjectTargets>::empty());
                while i < projects.len()
                    invariant
                        i <= projects.len(),
                        projects.len() > 0 ==> button_models(buttons@) == project_buttons(
                            projects@.subrange(0, i as int),
                        ),
                        projects.len() == 0 ==> button_models(buttons@)
                            == seq![ButtonModel::OpenProject],
                    decreases projects.len() - i,
                {
                    let ghost part = projects@.subrange(0, i + 1);
                    assert(part.drop_last() =~= projects@.subrange(0, i as int));
                    assert(part.last() == projects@[i as int]);
                    if projects[i].warp_missing {
                        let ghost before = button_models(buttons@);
                        let button = button_for(&projects[i].root, ProjectRuleFile::Warp);
                        let ghost model = button@;
                        buttons.push(button);
                        assert(button_models(buttons@) =~= before.push(model));
                    }
                    if projects[i].agents_missing {
                        let ghost before = button_models(buttons@);
                        let button = button_for(&projects[i].root, ProjectRuleFile::Agents);
                        let ghost model = button@;
                        buttons.push(button);
                        assert(button_models(buttons@) =~= before.push(model));
                    }
                    i += 1;
                }
                assert(projects@.subrange(0, projects@.len() as int) =~= projects@);
            },
        }
        buttons
    }

    /// What is shown where there is no rule to show.
    pub fn zero_state_text(&self) -> (r: &'static str)
        ensures
            r@ == match self@.current_scope {
                RuleScope::Global =>
                    "Add a rule above, or create ~/.agents/AGENTS.md to apply it across every project."@,
                RuleScope::ProjectBased =>
                    "Add a WARP.md rule to an indexed project, or open a project to index its rules."@,
            },
    {
        match self.current_scope {
            RuleScope::Global =>
                "Add a rule above, or create ~/.agents/AGENTS.md to apply it across every project.",
            RuleScope::ProjectBased =>
                "Add a WARP.md rule to an indexed project, or open a project to index its rules.",
        }
    }

    pub fn handle_action(&mut self, action: RuleViewAction, facts: RuleFacts) -> (r:
        RuleViewOutcome)
        ensures
            r@ == outcome(old(self)@.current_scope, action@, facts),
            final(self)@ == match action@ {
                RuleViewAction::SelectScope(scope) => RuleListModel {
                    current_scope: scope,
                    ..old(self)@
                },
                _ => old(self)@,
            },
    {
        match action {
            RuleViewAction::AddRule => {
                if self.current_scope == RuleScope::Global && facts.global_target_missing {
                    RuleViewOutcome::Emit(RuleViewEvent::AddRule(RuleTarget::Global))
                } else {
                    RuleViewOutcome::Nothing
                }
            },
            RuleViewAction::AddProject { root, file } => {
                if facts.project_target_missing {
                    RuleViewOutcome::Emit(
                        RuleViewEvent::AddRule(RuleTarget::Project { root, file }),
                    )
                } else {
                    RuleViewOutcome::Nothing
                }
            },
            RuleViewAction::InitializeProject => RuleViewOutcome::PickProject,
            RuleViewAction::Edit(_) => match facts.reading {
                Ok(rule) => RuleViewOutcome::Emit(RuleViewEvent::Edit(rule)),
                Err(message) => RuleViewOutcome::ShowError(message),
            },
            RuleViewAction::OpenSettings => RuleViewOutcome::Emit(RuleViewEvent::OpenSettings),
            RuleViewAction::SelectScope(scope) => {
                self.current_scope = scope;
                RuleViewOutcome::Redraw
            },
            RuleViewAction::OpenFile(path) => RuleViewOutcome::Emit(RuleViewEvent::OpenFile(path)),
        }
    }
}

/// What comes of picking a project: the first path that was picked is opened.
pub fn project_picked(picked: Result<Vec<String>, String>) -> (r: RuleViewOutcome)
    ensures
        r@ == match picked {
            Ok(paths) => if paths@.len() > 0 {
                RuleViewOutcome::Emit(RuleViewEvent::InitializeProject(paths@[0]@))
            } else {
                RuleOutcomeModel::Nothing
            },
            Err(message) => RuleViewOutcome::ShowError(message@),
        },
{
    match picked {
        Ok(paths) => {
            if paths.len() > 0 {
                RuleViewOutcome::Emit(RuleViewEvent::InitializeProject(paths[0].clone()))
            } else {
                RuleViewOutcome::Nothing
            }
        },
        Err(message) => RuleViewOutcome::ShowError(message),
    }
}

/// Whether a row offers editing: its rule was read and may be written.
pub fn row_is_editable(row: &FileBackedRow) -> (r: bool)
    ensures
        r == match row@.rule {
            Some(rule) => rule.writable,
            None => false,
        },
{
    match &row.rule {
        Some(rule) => rule.writable,
        None => false,
    }
}

// ---------------------------------------------------------------------------
// The editor.

/// What is edited: a rule to come, or one that is there.
#[derive(Debug, PartialEq, Eq)]
pub enum RuleEditorTarget<S = String> {
    New(RuleTarget<S>),
    Existing(LocalRule<S>),
}

pub type EditorTargetModel = RuleEditorTarget<Seq<char>>;

impl View for RuleEditorTarget<String> {
    type V = EditorTargetModel;

    open spec fn view(&self) -> EditorTargetModel {
        match self {
            RuleEditorTarget::New(target) => RuleEditorTarget::New(target@),
            RuleEditorTarget::Existing(rule) => RuleEditorTarget::Existing(rule@),
        }
    }
}

impl Clone for RuleEditorTarget<String> {
    fn clone(&self) -> (r: Self)
        ensures
            r@ == self@,
    {
        match self {
            RuleEditorTarget::New(target) => RuleEditorTarget::New(target.clone()),
            RuleEditorTarget::Existing(rule) => RuleEditorTarget::Existing(rule.clone()),
        }
    }
}

pub open spec fn editor_target_opt(target: Option<RuleEditorTarget>) -> Option<EditorTargetModel> {
    match target {
        Some(target) => Some(target@),
        None => None,
    }
}

/// What the editor asks for.
#[derive(Debug)]
pub enum RuleEditorViewEvent<S = String> {
    Back,
    Save { target: RuleEditorTarget<S>, content: S },
    Delete { rule: LocalRule<S> },
}

pub type RuleEditorEventModel = RuleEditorViewEvent<Seq<char>>;

impl Clone for RuleEditorViewEvent<String> {
    fn clone(&self) -> (r: Self)
        ensures
            r@ == self@,
    {
        match self {
            RuleEditorViewEvent::Back => RuleEditorViewEvent::Back,
            RuleEditorViewEvent::Save { target, content } => RuleEditorViewEvent::Save {
                target: target.clone(),
                content: content.clone(),
            },
            RuleEditorViewEvent::Delete { rule } => RuleEditorViewEvent::Delete {
                rule: rule.clone(),
            },
        }
    }
}

impl View for RuleEditorViewEvent<String> {
    type V = RuleEditorEventModel;

    open spec fn view(&self) -> RuleEditorEventModel {
        match self {
            RuleEditorViewEvent::Back => RuleEditorViewEvent::Back,
            RuleEditorViewEvent::Save { target, content } => RuleEditorViewEvent::Save {
                target: target@,
                content: content@,
            },
            RuleEditorViewEvent::Delete { rule } => RuleEditorViewEvent::Delete { rule: rule@ },
        }
    }
}

pub open spec fn rule_editor_event_opt(event: Option<RuleEditorViewEvent>) -> Option<
    RuleEditorEventModel,
> {
    match event {
        Some(event) => Some(event@),
        None => None,
    }
}

/// What the user does in the editor.
#[derive(Clone, Copy, Debug, PartialEq, Eq, Structural)]
pub enum RuleEditorViewAction {
    Back,
    Save,
    Delete,
    ConfirmDelete,
    ConfirmDiscard,
}

/// The editor: its target, what it started from, and what it holds now.
pub struct RuleEditorView {
    pub target: Option<RuleEditorTarget>,
    pub initial_content: String,
    pub content: String,
    pub confirm_delete: bool,
    pub confirm_discard: bool,
}

#[verifier::ext_equal]
pub struct RuleEditorModel {
    pub target: Option<EditorTargetModel>,
    pub initial_content: Seq<char>,
    pub content: Seq<char>,
    pub confirm_delete: bool,
    pub confirm_discard: bool,
}

impl View for RuleEditorView {
    type V = RuleEditorModel;

    open spec fn view(&self) -> RuleEditorModel {
        RuleEditorModel {
            target: editor_target_opt(self.target),
            initial_content: self.initial_content@,
            content: self.content@,
            confirm_delete: self.confirm_delete,
            confirm_discard: self.confirm_discard,
        }
    }
}

/// The content that a target starts with.
pub open spec fn editor_content(target: EditorTargetModel) -> Seq<char> {
    match target {
        RuleEditorTarget::New(_) => Seq::empty(),
        RuleEditorTarget::Existing(rule) => rule.content,
    }
}

impl RuleEditorModel {
    /// The editor before anything was opened.
    pub open spec fn fresh() -> RuleEditorModel {
        RuleEditorModel {
            target: None,
            initial_content: Seq::empty(),
            content: Seq::empty(),
            confirm_delete: false,
            confirm_discard: false,
        }
    }

    /// The editor just opened on a target.
    pub open spec fn opened(target: EditorTargetModel) -> RuleEditorModel {
        RuleEditorModel {
            target: Some(target),
            initial_content: editor_content(target),
            content: editor_content(target),
            confirm_delete: false,
            confirm_discard: false,
        }
    }

    /// Whether there is something to lose.
    pub open spec fn dirty(self) -> bool {
        self.content != self.initial_content
    }

    /// Whether there is something to save.
    pub open spec fn savable(self) -> bool {
        text::trimmed(self.content).len() > 0 && self.dirty()
    }

    /// The editor after an action.
    pub open spec fn after(self, action: RuleEditorViewAction) -> RuleEditorModel {
        match action {
            RuleEditorViewAction::Back => if self.dirty() {
                RuleEditorModel { confirm_discard: true, ..self }
            } else {
                self
            },
            RuleEditorViewAction::Delete => RuleEditorModel { confirm_delete: true, ..self },
            _ => self,
        }
    }

    /// What an action asks for.
    pub open spec fn event(self, action: RuleEditorViewAction) -> Option<RuleEditorEventModel> {
        match action {
            RuleEditorViewAction::Back => if self.dirty() {
                None
            } else {
                Some(RuleEditorViewEvent::Back)
            },
            RuleEditorViewAction::ConfirmDiscard => Some(RuleEditorViewEvent::Back),
            RuleEditorViewAction::Save => match self.target {
                Some(target) => if self.savable() {
                    Some(RuleEditorViewEvent::Save { target, content: self.content })
                } else {
                    None
                },
                None => None,
            },
            RuleEditorViewAction::Delete => None,
            RuleEditorViewAction::ConfirmDelete => match self.target {
                Some(RuleEditorTarget::Existing(rule)) => Some(
                    RuleEditorViewEvent::Delete { rule },
                ),
                _ => None,
            },
        }
    }
}

impl RuleEditorView {
    /// An editor without a target.
    pub fn new() -> (r: Self)
        ensures
            r@ == RuleEditorModel::fresh(),
    {
        RuleEditorView {
            target: None,
            initial_content: String::new(),
            content: String::new(),
            confirm_delete: false,
            confirm_discard: false,
        }
    }

    /// Opens a target.
    pub fn set_target(&mut self, target: RuleEditorTarget)
        ensures
            final(self)@ == RuleEditorModel::opened(target@),
    {
        self.initial_content = match &target {
            RuleEditorTarget::New(_) => String::new(),
            RuleEditorTarget::Existing(rule) => rule.content.clone(),
        };
        self.content = self.initial_content.clone();
        self.target = Some(target);
        self.confirm_delete = false;
        self.confirm_discard = false;
    }

    /// Takes what the field holds now.
    pub fn edit_content(&mut self, content: String)
        ensures
            final(self)@ == (RuleEditorModel { content: content@, ..old(self)@ }),
    {
        self.content = content;
    }

    /// Whether saving is out of the question: the field is blank, or nothing
    /// changed.
    pub fn save_disabled(&self) -> (r: bool)
        ensures
            r == !self@.savable(),
    {
        text::char_count(text::trim(self.content.as_str()).as_str()) == 0 || !self.is_dirty()
    }

    /// Whether there is something to lose.
    pub fn is_dirty(&self) -> (r: bool)
        ensures
            r == self@.dirty(),
    {
        !text::same_text(self.content.as_str(), self.initial_content.as_str())
    }

    pub fn header(&self) -> (r: &'static str)
        ensures
            r@ == match self@.target {
                Some(RuleEditorTarget::New(_)) => "Add local rule"@,
                Some(RuleEditorTarget::Existing(_)) => "Edit local rule"@,
                None => "Local rule"@,
            },
    {
        match &self.target {
            Some(RuleEditorTarget::New(_)) => "Add local rule",
            Some(RuleEditorTarget::Existing(_)) => "Edit local rule",
            None => "Local rule",
        }
    }

    /// The file of what is edited, or that there is none.
    pub fn path_label(&self, home: &Option<String>) -> (r: String)
        ensures
            r@ == match self@.target {
                Some(RuleEditorTarget::New(target)) => target_path(target, text::text_opt(*home)),
                Some(RuleEditorTarget::Existing(rule)) => rule.path,
                None => "No rule selected"@,
            },
    {
        match &self.target {
            Some(RuleEditorTarget::New(target)) => target.display_path(home),
            Some(RuleEditorTarget::Existing(rule)) => rule.path.clone(),
            None => "No rule selected".to_owned(),
        }
    }

    /// Only a file that is there and may be written can be deleted, and only
    /// after a confirmation.
    pub fn delete_control(&self) -> (r: DeleteControl)
        ensures
            r == match self@.target {
                Some(RuleEditorTarget::Existing(rule)) => if !rule.writable {
                    DeleteControl::Hidden
                } else if self@.confirm_delete {
                    DeleteControl::Confirm
                } else {
                    DeleteControl::Offer
                },
                _ => DeleteControl::Hidden,
            },
    {
        match &self.target {
            Some(RuleEditorTarget::Existing(rule)) => {
                if !rule.writable {
                    DeleteControl::Hidden
                } else if self.confirm_delete {
                    DeleteControl::Confirm
                } else {
                    DeleteControl::Offer
                }
            },
            _ => DeleteControl::Hidden,
        }
    }

    pub fn handle_action(&mut self, action: RuleEditorViewAction) -> (r: Option<
        RuleEditorViewEvent,
    >)
        ensures
            final(self)@ == old(self)@.after(action),
            rule_editor_event_opt(r) == old(self)@.event(action),
    {
        match action {
            RuleEditorViewAction::Back => {
                if self.is_dirty() {
                    self.confirm_discard = true;
                    None
                } else {
                    Some(RuleEditorViewEvent::Back)
                }
            },
            RuleEditorViewAction::ConfirmDiscard => Some(RuleEditorViewEvent::Back),
            RuleEditorViewAction::Save => {
                if self.save_disabled() {
                    return None;
                }
                match &self.target {
                    Some(target) => Some(
                        RuleEditorViewEvent::Save {
                            target: target.clone(),
                            content: self.content.clone(),
                        },
                    ),
                    None => None,
                }
            },
            RuleEditorViewAction::Delete => {
                self.confirm_delete = true;
                None
            },
            RuleEditorViewAction::ConfirmDelete => match &self.target {
                Some(RuleEditorTarget::Existing(rule)) => Some(
                    RuleEditorViewEvent::Delete { rule: rule.clone() },
                ),
                _ => None,
            },
        }
    }
}

/// What is asked of the files.
pub enum RuleRequest<S = String> {
    CreateGlobal { content: S },
    CreateProject { root: S, file: ProjectRuleFile, content: S },
    Update { path: S, revision: S, content: S },
    Delete { path: S, revision: S },
}

pub type RequestModel = RuleRequest<Seq<char>>;

impl View for RuleRequest<String> {
    type V = RequestModel;

    open spec fn view(&self) -> RequestModel {
        match self {
            RuleRequest::CreateGlobal { content } => RuleRequest::CreateGlobal {
                content: content@,
            },
            RuleRequest::CreateProject { root, file, content } => RuleRequest::CreateProject {
                root: root@,
                file: *file,
                content: content@,
            },
            RuleRequest::Update { path, revision, content } => RuleRequest::Update {
                path: path@,
                revision: revision@,
                content: content@,
            },
            RuleRequest::Delete { path, revision } => RuleRequest::Delete {
                path: path@,
                revision: revision@,
            },
        }
    }
}

/// What saving a target asks of the files: a rule that is there is only
/// replaced if it still has the revision that was opened.
pub open spec fn save_request(target: EditorTargetModel, content: Seq<char>) -> RequestModel {
    match target {
        RuleEditorTarget::New(RuleTarget::Global) => RuleRequest::CreateGlobal { content },
        RuleEditorTarget::New(
            RuleTarget::Project { root, file },
        ) => RuleRequest::CreateProject { root, file, content },
        RuleEditorTarget::Existing(rule) => RuleRequest::Update {
            path: rule.path,
            revision: rule.revision,
            content,
        },
    }
}

/// Asks for a rule to be saved.
pub fn save_local_rule(target: &RuleEditorTarget, content: &str) -> (r: RuleRequest)
    ensures
        r@ == save_request(target@, content@),
{
    match target {
        RuleEditorTarget::New(RuleTarget::Global) => RuleRequest::CreateGlobal {
            content: content.to_owned(),
        },
        RuleEditorTarget::New(
            RuleTarget::Project { root, file },
        ) => RuleRequest::CreateProject {
            root: root.clone(),
            file: *file,
            content: content.to_owned(),
        },
        RuleEditorTarget::Existing(rule) => RuleRequest::Update {
            path: rule.path.clone(),
            revision: rule.revision.clone(),
            content: content.to_owned(),
        },
    }
}

/// Asks for a rule to be deleted, if it still has the revision that was opened.
pub fn delete_local_rule(rule: &LocalRule) -> (r: RuleRequest)
    ensures
        r@ == (RequestModel::Delete { path: rule@.path, revision: rule@.revision }),
{
    RuleRequest::Delete { path: rule.path.clone(), revision: rule.revision.clone() }
}

/// Unsaved changes are not given up without a confirmation, and a confirmation
/// gives them up.
pub proof fn law_unsaved_changes_need_a_confirmation(m: RuleEditorModel)
    requires
        m.dirty(),
    ensures
        m.event(RuleEditorViewAction::Back) is None,
        m.after(RuleEditorViewAction::Back).confirm_discard,
        m.after(RuleEditorViewAction::Back).content == m.content,
        m.after(RuleEditorViewAction::Back).event(RuleEditorViewAction::ConfirmDiscard) == Some(
            RuleEditorEventModel::Back,
        ),
{
}

/// An editor that was just opened holds nothing to lose or to save, and can be
/// left at once.
pub proof fn law_opened_editor_is_clean(target: EditorTargetModel)
    ensures
        !RuleEditorModel::opened(target).dirty(),
        !RuleEditorModel::opened(target).savable(),
        RuleEditorModel::opened(target).event(RuleEditorViewAction::Back) == Some(
            RuleEditorEventModel::Back,
        ),
        !RuleEditorModel::opened(target).confirm_delete,
        !RuleEditorModel::opened(target).confirm_discard,
{
}

/// An edit of a rule that is there names the path and the revision that were
/// opened, whatever was typed.
pub proof fn law_edits_are_tied_to_what_was_opened(rule: RuleModel, typed: Seq<char>)
    requires
        text::trimmed(typed).len() > 0,
        typed != rule.content,
    ensures
        ({
            let opened = RuleEditorModel::opened(RuleEditorTarget::Existing(rule));
            let edited = RuleEditorModel { content: typed, ..opened };
            &&& edited.event(RuleEditorViewAction::Save) == Some(
                RuleEditorEventModel::Save {
                    target: RuleEditorTarget::Existing(rule),
                    content: typed,
                },
            )
            &&& save_request(RuleEditorTarget::Existing(rule), typed) == (RequestModel::Update {
                path: rule.path,
                revision: rule.revision,
                content: typed,
            })
        }),
{
}

/// Every file that is there has a row in its list; that of a file that cannot
/// be read names the file and says why.
pub proof fn law_every_file_has_its_row(readings: Seq<RuleReading>, i: int)
    requires
        0 <= i < readings.len(),
        row_of(readings[i]) is Some,
    ensures
        rows_of(readings, readings[i].is_global).contains(row_of(readings[i])->0),
        readings[i].outcome is Failed ==> row_of(readings[i])->0.path == readings[i].path@
            && row_of(readings[i])->0.error is Some,
    decreases readings.len(),
{
    let global = readings[i].is_global;
    let row = row_of(readings[i])->0;
    let rows = rows_of(readings, global);
    let init = rows_of(readings.drop_last(), global);
    if i == readings.len() - 1 {
        assert(rows[rows.len() - 1] == row);
    } else {
        law_every_file_has_its_row(readings.drop_last(), i);
        let k = choose|k: int| 0 <= k < init.len() && init[k] == row;
        assert(rows[k] == row);
    }
}

/// The rule file of a target: the global one below the home directory, a
/// project's below its root.
pub proof fn law_files_of_targets(root: Seq<char>, home: Seq<char>)
    ensures
        target_path(RuleTarget::Global, Some(home)) == paths::join(home, ".agents/AGENTS.md"@),
        target_path(RuleTarget::Global, None) == paths::join("~"@, ".agents/AGENTS.md"@),
        target_path(
            RuleTarget::Project { root, file: ProjectRuleFile::Warp },
            Some(home),
        ) == paths::join(root, "WARP.md"@),
        target_path(
            RuleTarget::Project { root, file: ProjectRuleFile::Agents },
            Some(home),
        ) == paths::join(root, "AGENTS.md"@),
{
}

/// A row holds what its path, its content or its error holds, in any case.
pub proof fn law_rows_hold_what_they_show(row: FileBackedRow, needle: Seq<char>)
    ensures
        row_holds(row@, needle) <==> text::occurs_in(needle, text::text_lowercase(row.path@)) || (
        row.rule is Some && text::occurs_in(needle, text::text_lowercase(row.rule->0.content@)))
            || (row.error is Some && text::occurs_in(
            needle,
            text::text_lowercase(row.error->0@),
        )),
{
}

/// A row tells its file, and what was read or why nothing could be.
pub proof fn law_rows_tell_their_file(reading: RuleReading, row: FileBackedRow)
    ensures
        row_of(reading) is None <==> reading.outcome is Missing,
        row_of(reading) == Some(row@) ==> row.path@ == reading.path@,
        row_of(reading) == Some(row@) && reading.outcome is Read ==> row.rule is Some
            && row.rule->0@ == reading.outcome->Read_0@ && row.error is None,
        row_of(reading) == Some(row@) && reading.outcome is Failed ==> row.rule is None
            && row.error is Some && row.error->0@ == reading.outcome->Failed_0@,
{
    if row_of(reading) == Some(row@) {
        assert(rule_opt(row.rule) == row@.rule);
        assert(text::text_opt(row.error) == row@.error);
    }
}

/// A list holds only rows of its own files.
pub proof fn law_lists_hold_their_own_rows(readings: Seq<RuleReading>, global: bool, k: int)
    requires
        0 <= k < rows_of(readings, global).len(),
    ensures
        exists|i: int|
            0 <= i < readings.len() && (#[trigger] readings[i]).is_global == global && row_of(
                readings[i],
            ) == Some(rows_of(readings, global)[k]),
    decreases readings.len(),
{
    if readings.len() > 0 {
        let init = rows_of(readings.drop_last(), global);
        if k < init.len() {
            law_lists_hold_their_own_rows(readings.drop_last(), global, k);
            let head = readings.drop_last();
            let i = choose|i: int|
                0 <= i < head.len() && (#[trigger] head[i]).is_global == global && row_of(head[i])
                    == Some(init[k]);
            assert(readings[i] == head[i]);
            assert(rows_of(readings, global)[k] == init[k]);
        } else {
            assert(readings[readings.len() - 1] == readings.last());
        }
    }
}

/// A search shows every row that holds what is searched for, by path, and no
/// other.
pub proof fn law_search_shows_what_holds(rows: Seq<RowModel>, search: Seq<char>, i: int)
    ensures
        ({
            let needle = text::text_lowercase(search);
            let all = shown_rows(rows, search);
            &&& 0 <= i < rows.len() && (needle.len() == 0 || row_holds(rows[i], needle))
                ==> all.contains(rows[i])
            &&& 0 <= i < all.len() ==> rows.contains(all[i]) && (needle.len() == 0 || row_holds(
                all[i],
                needle,
            ))
        }),
{
    broadcast use vstd::seq_lib::group_to_multiset_ensures;

    let needle = text::text_lowercase(search);
    let keep = holding(needle);
    let kept = rows.filter(keep);
    let all = shown_rows(rows, search);
    order::lemma_sorted_by_permutes(kept, row_order());
    if 0 <= i < rows.len() && keep(rows[i]) {
        rows.lemma_filter_contains(keep, i);
        assert(kept.to_multiset().count(rows[i]) > 0);
        assert(all.to_multiset().count(rows[i]) > 0);
    }
    if 0 <= i < all.len() {
        assert(all.contains(all[i]));
        assert(all.to_multiset().count(all[i]) > 0);
        assert(kept.contains(all[i]));
        let k = choose|k: int| 0 <= k < kept.len() && kept[k] == all[i];
        order::lemma_filtered(rows, keep, k);
    }
}

/// The selected scope shows its own rows.
pub proof fn law_scopes_show_their_rows(list: RuleView)
    ensures
        list.current_scope is Global ==> list@.selected() == row_models(list.global_rules@),
        list.current_scope is ProjectBased ==> list@.selected() == row_models(
            list.project_rules@,
        ),
{
}

/// Adding is offered for files that are missing alone, and editing opens what
/// was just read or tells why it could not be.
pub proof fn law_actions_in_the_list(
    scope: RuleScope,
    facts: RuleFacts,
    root: Seq<char>,
    file: ProjectRuleFile,
    path: Seq<char>,
)
    ensures
        outcome(scope, RuleViewAction::AddRule, facts) == (if scope is Global
            && facts.global_target_missing {
            RuleOutcomeModel::Emit(RuleViewEvent::AddRule(RuleTarget::Global))
        } else {
            RuleOutcomeModel::Nothing
        }),
        outcome(scope, RuleViewAction::AddProject { root, file }, facts) == (
        if facts.project_target_missing {
            RuleOutcomeModel::Emit(RuleViewEvent::AddRule(RuleTarget::Project { root, file }))
        } else {
            RuleOutcomeModel::Nothing
        }),
        facts.reading is Ok ==> outcome(scope, RuleViewAction::Edit(path), facts)
            == RuleOutcomeModel::Emit(RuleViewEvent::Edit(facts.reading->Ok_0@)),
        facts.reading is Err ==> outcome(scope, RuleViewAction::Edit(path), facts)
            == RuleOutcomeModel::ShowError(facts.reading->Err_0@),
        outcome(scope, RuleViewAction::OpenFile(path), facts) == RuleOutcomeModel::Emit(
            RuleViewEvent::OpenFile(path),
        ),
        outcome(scope, RuleViewAction::OpenSettings, facts) == RuleOutcomeModel::Emit(
            RuleViewEvent::OpenSettings,
        ),
        outcome(scope, RuleViewAction::InitializeProject, facts) is PickProject,
{
}

/// There is a button for each rule file that a project lacks, and for no other.
pub proof fn law_buttons_add_what_is_missing(
    projects: Seq<ProjectTargets>,
    i: int,
    b: int,
)
    ensures
        0 <= i < projects.len() && projects[i].warp_missing ==> project_buttons(projects).contains(
            AddButton::Project {
                root: projects[i].root@,
                file: ProjectRuleFile::Warp,
                label: "Add "@ + "WARP.md"@ + " ("@ + projects[i].root@ + ")"@,
            },
        ),
        0 <= i < projects.len() && projects[i].agents_missing ==> project_buttons(
            projects,
        ).contains(
            AddButton::Project {
                root: projects[i].root@,
                file: ProjectRuleFile::Agents,
                label: "Add "@ + "AGENTS.md"@ + " ("@ + projects[i].root@ + ")"@,
            },
        ),
        0 <= b < project_buttons(projects).len() ==> exists|k: int|
            0 <= k < projects.len() && (#[trigger] projects[k]).root@
                == project_buttons(projects)[b]->root && (project_buttons(projects)[b]->file
                is Warp ==> projects[k].warp_missing) && (project_buttons(projects)[b]->file
                is Agents ==> projects[k].agents_missing),
    decreases projects.len(),
{
    if projects.len() > 0 {
        let head = projects.drop_last();
        let last = projects.last();
        let init = project_buttons(head);
        let out = project_buttons(projects);
        law_buttons_add_what_is_missing(head, i, b);
        let warp = project_button(last.root@, ProjectRuleFile::Warp);
        let agents = project_button(last.root@, ProjectRuleFile::Agents);
        if 0 <= i < head.len() {
            assert(head[i] == projects[i]);
            let first = project_button(head[i].root@, ProjectRuleFile::Warp);
            let second = project_button(head[i].root@, ProjectRuleFile::Agents);
            if init.contains(first) {
                let k = choose|k: int| 0 <= k < init.len() && init[k] == first;
                assert(out[k] == first);
            }
            if init.contains(second) {
                let k = choose|k: int| 0 <= k < init.len() && init[k] == second;
                assert(out[k] == second);
            }
        }
        if last.warp_missing {
            assert(out[init.len() as int] == warp);
        }
        if last.agents_missing {
            assert(out[out.len() - 1] == agents);
        }
        if 0 <= b < out.len() {
            if b < init.len() {
                assert(out[b] == init[b]);
                let k = choose|k: int|
                    0 <= k < head.len() && (#[trigger] head[k]).root@ == init[b]->root && (
                    init[b]->file is Warp ==> head[k].warp_missing) && (init[b]->file is Agents
                        ==> head[k].agents_missing);
                assert(projects[k] == head[k]);
            } else {
                assert(projects[projects.len() - 1] == last);
            }
        }
    }
}

/// Global rules can be added where they are missing; without a project one can
/// be opened.
pub proof fn law_buttons_of_a_scope(missing: bool, projects: Seq<ProjectTargets>)
    ensures
        add_buttons_of(RuleScope::Global, missing, projects).len() == (if missing {
            1nat
        } else {
            0nat
        }),
        missing ==> add_buttons_of(RuleScope::Global, missing, projects)[0] is Global,
        projects.len() == 0 ==> add_buttons_of(RuleScope::ProjectBased, missing, projects) == seq![
            ButtonModel::OpenProject,
        ],
        projects.len() > 0 ==> add_buttons_of(RuleScope::ProjectBased, missing, projects)
            == project_buttons(projects),
{
}

/// What is saved is what was typed, where it holds something and something has
/// changed; what is deleted is what was opened.
pub proof fn law_what_was_typed_is_saved(m: RuleEditorModel, action: RuleEditorViewAction)
    ensures
        m.event(RuleEditorViewAction::Save) is Some <==> m.target is Some && text::trimmed(
            m.content,
        ).len() > 0 && m.content != m.initial_content,
        m.event(RuleEditorViewAction::Save) is Some ==> m.event(RuleEditorViewAction::Save)
            == Some(RuleEditorEventModel::Save { target: m.target->0, content: m.content }),
        m.target matches Some(RuleEditorTarget::Existing(rule)) ==> m.event(
            RuleEditorViewAction::ConfirmDelete,
        ) == Some(RuleEditorEventModel::Delete { rule }),
        !(m.target matches Some(RuleEditorTarget::Existing(_))) ==> m.event(
            RuleEditorViewAction::ConfirmDelete,
        ) is None,
        m.event(RuleEditorViewAction::Delete) is None,
        m.after(RuleEditorViewAction::Delete).confirm_delete,
        m.after(action).content == m.content,
        m.after(action).target == m.target,
        m.after(action).initial_content == m.initial_content,
{
}

/// An opened editor shows what it was opened on.
pub proof fn law_opened_editor_shows_its_target(
    editor: RuleEditorView,
    rule: LocalRule,
    target: RuleTargetModel,
)
    ensures
        editor@ == RuleEditorModel::opened(RuleEditorTarget::Existing(rule@)) ==> editor.content@
            == rule.content@ && editor.initial_content@ == rule.content@,
        editor@ == RuleEditorModel::opened(RuleEditorTarget::New(target)) ==> editor.content@.len()
            == 0,
{
}

/// A rule to come is created where it was to be, with what was typed.
pub proof fn law_new_rules_are_created(
    request: RuleRequest,
    root: Seq<char>,
    file: ProjectRuleFile,
    content: Seq<char>,
)
    ensures
        request@ == save_request(RuleEditorTarget::New(RuleTarget::Global), content) ==> (request
            matches RuleRequest::CreateGlobal { content: c } && c@ == content),
        request@ == save_request(
            RuleEditorTarget::New(RuleTarget::Project { root, file }),
            content,
        ) ==> (request matches RuleRequest::CreateProject { root: r, file: f, content: c } && r@
            == root && f == file && c@ == content),
{
}

} // verus!
