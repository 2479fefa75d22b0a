//! Execution profiles: what the agent may do and which models it uses, by
//! default and for each terminal.

use crate::id_map::IdMap;
use crate::ids;
use crate::ids::EntityId;
use crate::json_text;
use crate::llms;
use crate::llms::LLMId;
use crate::text;
use vstd::prelude::*;

verus! {

/// The key under which the profiles are kept in the user's preferences.
pub const LOCAL_PROFILES_PREF_KEY: &'static str = "LocalAIExecutionProfiles";

/// Whether an action needs the user's consent.
#[derive(Clone, Copy, Debug, PartialEq, Eq, Hash, Structural)]
pub enum ActionPermission {
    AgentDecides,
    AlwaysAllow,
    AlwaysAsk,
    Unknown,
}

/// Whether writing to a running command needs the user's consent.
#[derive(Clone, Copy, Debug, PartialEq, Eq, Hash, Structural)]
pub enum WriteToPtyPermission {
    AlwaysAllow,
    AlwaysAsk,
    AskOnFirstWrite,
    Unknown,
}

/// Whether the agent may use the computer.
#[derive(Clone, Copy, Debug, PartialEq, Eq, Hash, Structural)]
pub enum ComputerUsePermission {
    Never,
    AlwaysAsk,
    AlwaysAllow,
    Unknown,
}

/// Whether the agent may ask the user questions.
#[derive(Clone, Copy, Debug, PartialEq, Eq, Hash, Structural)]
pub enum AskUserQuestionPermission {
    Never,
    AskExceptInAutoApprove,
    AlwaysAsk,
    Unknown,
}

/// The identity of a profile that outlives the process.
#[derive(Clone, Copy, Debug, PartialEq, Eq, Hash, Structural)]
pub struct SyncId(pub u128);

/// The identity of a profile within the process.
#[derive(Clone, Copy, Debug, PartialEq, Eq, Hash, Structural, PartialOrd, Ord)]
pub struct ClientProfileId(pub usize);

/// Hands out profile identities, each once. The models of a process share one.
pub struct ProfileIdSource {
    pub next: usize,
}

/// Whether a source handed out an identity.
pub open spec fn drew(before: nat, id: ClientProfileId, after: nat) -> bool {
    id.0 == before && after == before + 1
}

impl ClientProfileId {
    /// The next identity.
    pub fn new(source: &mut ProfileIdSource) -> (r: ClientProfileId)
        requires
            old(source).next < usize::MAX,
        ensures
            drew(old(source).next as nat, r, final(source).next as nat),
    {
        let raw: usize = source.next;
        source.next = raw + 1;
        ClientProfileId(raw)
    }

    /// The identity in decimal digits.
    pub fn text(&self) -> (r: String)
        ensures
            r@ == text::decimal(self.0 as nat),
    {
        text::decimal_usize(self.0)
    }
}

/// What the agent may do, and which models it uses.
#[derive(Debug, PartialEq)]
pub struct AIExecutionProfile {
    pub name: String,
    pub is_default_profile: bool,
    pub autosync_plans_to_warp_drive: bool,
    pub base_model: Option<LLMId>,
    pub coding_model: Option<LLMId>,
    pub cli_agent_model: Option<LLMId>,
    pub computer_use_model: Option<LLMId>,
    pub context_window_limit: Option<u32>,
    pub apply_code_diffs: ActionPermission,
    pub read_files: ActionPermission,
    pub execute_commands: ActionPermission,
    pub write_to_pty: WriteToPtyPermission,
    pub mcp_permissions: ActionPermission,
    pub computer_use: ComputerUsePermission,
    pub ask_user_question: AskUserQuestionPermission,
    pub web_search_enabled: bool,
    /// Patterns of commands.
    pub command_allowlist: Vec<String>,
    pub command_denylist: Vec<String>,
    /// Paths of directories.
    pub directory_allowlist: Vec<String>,
    /// Identities of MCP servers.
    pub mcp_allowlist: Vec<u128>,
    pub mcp_denylist: Vec<u128>,
}

/// What a profile says.
#[verifier::ext_equal]
pub struct ProfileModel {
    pub name: Seq<char>,
    pub is_default_profile: bool,
    pub autosync_plans_to_warp_drive: bool,
    pub base_model: Option<Seq<char>>,
    pub coding_model: Option<Seq<char>>,
    pub cli_agent_model: Option<Seq<char>>,
    pub computer_use_model: Option<Seq<char>>,
    pub context_window_limit: Option<u32>,
    pub apply_code_diffs: ActionPermission,
    pub read_files: ActionPermission,
    pub execute_commands: ActionPermission,
    pub write_to_pty: WriteToPtyPermission,
    pub mcp_permissions: ActionPermission,
    pub computer_use: ComputerUsePermission,
    pub ask_user_question: AskUserQuestionPermission,
    pub web_search_enabled: bool,
    pub command_allowlist: Seq<Seq<char>>,
    pub command_denylist: Seq<Seq<char>>,
    pub directory_allowlist: Seq<Seq<char>>,
    pub mcp_allowlist: Seq<u128>,
    pub mcp_denylist: Seq<u128>,
}

impl View for AIExecutionProfile {
    type V = ProfileModel;

    open spec fn view(&self) -> ProfileModel {
        ProfileModel {
            name: self.name@,
            is_default_profile: self.is_default_profile,
            autosync_plans_to_warp_drive: self.autosync_plans_to_warp_drive,
            base_model: llms::id_opt(self.base_model),
            coding_model: llms::id_opt(self.coding_model),
            cli_agent_model: llms::id_opt(self.cli_agent_model),
            computer_use_model: llms::id_opt(self.computer_use_model),
            context_window_limit: self.context_window_limit,
            apply_code_diffs: self.apply_code_diffs,
            read_files: self.read_files,
            execute_commands: self.execute_commands,
            write_to_pty: self.write_to_pty,
            mcp_permissions: self.mcp_permissions,
            computer_use: self.computer_use,
            ask_user_question: self.ask_user_question,
            web_search_enabled: self.web_search_enabled,
            command_allowlist: text::texts(self.command_allowlist@),
            command_denylist: text::texts(self.command_denylist@),
            directory_allowlist: text::texts(self.directory_allowlist@),
            mcp_allowlist: self.mcp_allowlist@,
            mcp_denylist: self.mcp_denylist@,
        }
    }
}

/// The profile with which everything starts: the agent decides, and what it
/// may not decide it asks for.
pub open spec fn fresh_profile() -> ProfileModel {
    ProfileModel {
        name: Seq::empty(),
        is_default_profile: false,
        autosync_plans_to_warp_drive: false,
        base_model: None,
        coding_model: None,
        cli_agent_model: None,
        computer_use_model: None,
        context_window_limit: None,
        apply_code_diffs: ActionPermission::AgentDecides,
        read_files: ActionPermission::AgentDecides,
        execute_commands: ActionPermission::AgentDecides,
        write_to_pty: WriteToPtyPermission::AskOnFirstWrite,
        mcp_permissions: ActionPermission::AgentDecides,
        computer_use: ComputerUsePermission::Never,
        ask_user_question: AskUserQuestionPermission::AskExceptInAutoApprove,
        web_search_enabled: true,
        command_allowlist: Seq::empty(),
        command_denylist: Seq::empty(),
        directory_allowlist: Seq::empty(),
        mcp_allowlist: Seq::empty(),
        mcp_denylist: Seq::empty(),
    }
}

impl Default for AIExecutionProfile {
    fn default() -> (r: Self)
        ensures
            r@ == fresh_profile(),
    {
        let r = AIExecutionProfile {
            name: String::new(),
            is_default_profile: false,
            autosync_plans_to_warp_drive: false,
            base_model: None,
            coding_model: None,
            cli_agent_model: None,
            computer_use_model: None,
            context_window_limit: None,
            apply_code_diffs: ActionPermission::AgentDecides,
            read_files: ActionPermission::AgentDecides,
            execute_commands: ActionPermission::AgentDecides,
            write_to_pty: WriteToPtyPermission::AskOnFirstWrite,
            mcp_permissions: ActionPermission::AgentDecides,
            computer_use: ComputerUsePermission::Never,
            ask_user_question: AskUserQuestionPermission::AskExceptInAutoApprove,
            web_search_enabled: true,
            command_allowlist: Vec::new(),
            command_denylist: Vec::new(),
            directory_allowlist: Vec::new(),
            mcp_allowlist: Vec::new(),
            mcp_denylist: Vec::new(),
        };
        assert(r@ =~= fresh_profile());
        r
    }
}

fn clone_u128s(v: &Vec<u128>) -> (r: Vec<u128>)
    ensures
        r@ == v@,
{
    let mut out: Vec<u128> = Vec::new();
    let mut i: usize = 0;
    while i < v.len()
        invariant
            i <= v.len(),
            out@ == v@.subrange(0, i as int),
        decreases v.len() - i,
    {
        out.push(v[i]);
        i += 1;
        assert(v@.subrange(0, i as int) =~= v@.subrange(0, i - 1).push(v@[i - 1]));
    }
    assert(v@.subrange(0, v@.len() as int) =~= v@);
    out
}

impl Clone for AIExecutionProfile {
    fn clone(&self) -> (r: Self)
        ensures
            r@ == self@,
    {
        AIExecutionProfile {
            name: self.name.clone(),
            is_default_profile: self.is_default_profile,
            autosync_plans_to_warp_drive: self.autosync_plans_to_warp_drive,
            base_model: llms::clone_id_opt(&self.base_model),
            coding_model: llms::clone_id_opt(&self.coding_model),
            cli_agent_model: llms::clone_id_opt(&self.cli_agent_model),
            computer_use_model: llms::clone_id_opt(&self.computer_use_model),
            context_window_limit: self.context_window_limit,
            apply_code_diffs: self.apply_code_diffs,
            read_files: self.read_files,
            execute_commands: self.execute_commands,
            write_to_pty: self.write_to_pty,
            mcp_permissions: self.mcp_permissions,
            computer_use: self.computer_use,
            ask_user_question: self.ask_user_question,
            web_search_enabled: self.web_search_enabled,
            command_allowlist: text::clone_strings(&self.command_allowlist),
            command_denylist: text::clone_strings(&self.command_denylist),
            directory_allowlist: text::clone_strings(&self.directory_allowlist),
            mcp_allowlist: clone_u128s(&self.mcp_allowlist),
            mcp_denylist: clone_u128s(&self.mcp_denylist),
        }
    }
}

// ---------------------------------------------------------------------------
// Edits.

/// A change of a profile.
pub enum ProfileEdit<I = LLMId, S = String, V = Vec<u128>> {
    BaseModel(Option<I>),
    CodingModel(Option<I>),
    CliAgentModel(Option<I>),
    ComputerUseModel(Option<I>),
    ContextWindowLimit(Option<u32>),
    ApplyCodeDiffs(ActionPermission),
    ReadFiles(ActionPermission),
    ExecuteCommands(ActionPermission),
    WriteToPty(WriteToPtyPermission),
    McpPermissions(ActionPermission),
    ComputerUse(ComputerUsePermission),
    AskUserQuestion(AskUserQuestionPermission),
    WebSearchEnabled(bool),
    Name(S),
    AllowCommand(S),
    UnallowCommand(S),
    DenyCommand(S),
    UndenyCommand(S),
    AllowDirectory(S),
    UnallowDirectory(S),
    AllowMcp(u128),
    UnallowMcp(u128),
    DenyMcp(u128),
    UndenyMcp(u128),
    /// Only the given servers are left.
    KeepMcpServers(V),
}

pub type EditModel = ProfileEdit<Seq<char>, Seq<char>, Seq<u128>>;

impl View for ProfileEdit<LLMId, String, Vec<u128>> {
    type V = EditModel;

    open spec fn view(&self) -> EditModel {
        match self {
            ProfileEdit::BaseModel(id) => ProfileEdit::BaseModel(llms::id_opt(*id)),
            ProfileEdit::CodingModel(id) => ProfileEdit::CodingModel(llms::id_opt(*id)),
            ProfileEdit::CliAgentModel(id) => ProfileEdit::CliAgentModel(llms::id_opt(*id)),
            ProfileEdit::ComputerUseModel(id) => ProfileEdit::ComputerUseModel(llms::id_opt(*id)),
            ProfileEdit::ContextWindowLimit(limit) => ProfileEdit::ContextWindowLimit(*limit),
            ProfileEdit::ApplyCodeDiffs(p) => ProfileEdit::ApplyCodeDiffs(*p),
            ProfileEdit::ReadFiles(p) => ProfileEdit::ReadFiles(*p),
            ProfileEdit::ExecuteCommands(p) => ProfileEdit::ExecuteCommands(*p),
            ProfileEdit::WriteToPty(p) => ProfileEdit::WriteToPty(*p),
            ProfileEdit::McpPermissions(p) => ProfileEdit::McpPermissions(*p),
            ProfileEdit::ComputerUse(p) => ProfileEdit::ComputerUse(*p),
            ProfileEdit::AskUserQuestion(p) => ProfileEdit::AskUserQuestion(*p),
            ProfileEdit::WebSearchEnabled(on) => ProfileEdit::WebSearchEnabled(*on),
            ProfileEdit::Name(s) => ProfileEdit::Name(s@),
            ProfileEdit::AllowCommand(s) => ProfileEdit::AllowCommand(s@),
            ProfileEdit::UnallowCommand(s) => ProfileEdit::UnallowCommand(s@),
            ProfileEdit::DenyCommand(s) => ProfileEdit::DenyCommand(s@),
            ProfileEdit::UndenyCommand(s) => ProfileEdit::UndenyCommand(s@),
            ProfileEdit::AllowDirectory(s) => ProfileEdit::AllowDirectory(s@),
            ProfileEdit::UnallowDirectory(s) => ProfileEdit::UnallowDirectory(s@),
            ProfileEdit::AllowMcp(id) => ProfileEdit::AllowMcp(*id),
            ProfileEdit::UnallowMcp(id) => ProfileEdit::UnallowMcp(*id),
            ProfileEdit::DenyMcp(id) => ProfileEdit::DenyMcp(*id),
            ProfileEdit::UndenyMcp(id) => ProfileEdit::UndenyMcp(*id),
            ProfileEdit::KeepMcpServers(v) => ProfileEdit::KeepMcpServers(v@),
        }
    }
}

/// A list with an item at its end, unless it is in the list.
pub open spec fn with_item<T>(s: Seq<T>, item: T) -> Seq<T> {
    if s.contains(item) {
        s
    } else {
        s.push(item)
    }
}

/// A list without an item.
pub open spec fn without_item<T>(s: Seq<T>, item: T) -> Seq<T>
    decreases s.len(),
{
    if s.len() == 0 {
        s
    } else if s.last() == item {
        without_item(s.drop_last(), item)
    } else {
        without_item(s.drop_last(), item).push(s.last())
    }
}

/// The items of a list that are also in another.
pub open spec fn only_items<T>(s: Seq<T>, kept: Seq<T>) -> Seq<T>
    decreases s.len(),
{
    if s.len() == 0 {
        s
    } else if kept.contains(s.last()) {
        only_items(s.drop_last(), kept).push(s.last())
    } else {
        only_items(s.drop_last(), kept)
    }
}

/// A profile after a change. To always allow MCP calls empties the list of
/// allowed servers, to always ask empties that of denied ones.
pub open spec fn edited(p: ProfileModel, edit: EditModel) -> ProfileModel {
    match edit {
        ProfileEdit::BaseModel(id) => ProfileModel { base_model: id, ..p },
        ProfileEdit::CodingModel(id) => ProfileModel { coding_model: id, ..p },
        ProfileEdit::CliAgentModel(id) => ProfileModel { cli_agent_model: id, ..p },
        ProfileEdit::ComputerUseModel(id) => ProfileModel { computer_use_model: id, ..p },
        ProfileEdit::ContextWindowLimit(limit) => ProfileModel {
            context_window_limit: limit,
            ..p
        },
        ProfileEdit::ApplyCodeDiffs(v) => ProfileModel { apply_code_diffs: v, ..p },
        ProfileEdit::ReadFiles(v) => ProfileModel { read_files: v, ..p },
        ProfileEdit::ExecuteCommands(v) => ProfileModel { execute_commands: v, ..p },
        ProfileEdit::WriteToPty(v) => ProfileModel { write_to_pty: v, ..p },
        ProfileEdit::McpPermissions(v) => if p.mcp_permissions == v {
            p
        } else {
            ProfileModel {
                mcp_permissions: v,
                mcp_allowlist: if v is AlwaysAllow {
                    Seq::empty()
                } else {
                    p.mcp_allowlist
                },
                mcp_denylist: if v is AlwaysAsk {
                    Seq::empty()
                } else {
                    p.mcp_denylist
                },
                ..p
            }
        },
        ProfileEdit::ComputerUse(v) => ProfileModel { computer_use: v, ..p },
        ProfileEdit::AskUserQuestion(v) => ProfileModel { ask_user_question: v, ..p },
        ProfileEdit::WebSearchEnabled(on) => ProfileModel { web_search_enabled: on, ..p },
        ProfileEdit::Name(name) => ProfileModel { name, ..p },
        ProfileEdit::AllowCommand(s) => ProfileModel {
            command_allowlist: with_item(p.command_allowlist, s),
            ..p
        },
        ProfileEdit::UnallowCommand(s) => ProfileModel {
            command_allowlist: without_item(p.command_allowlist, s),
            ..p
        },
        ProfileEdit::DenyCommand(s) => ProfileModel {
            command_denylist: with_item(p.command_denylist, s),
            ..p
        },
        ProfileEdit::UndenyCommand(s) => ProfileModel {
            command_denylist: without_item(p.command_denylist, s),
            ..p
        },
        ProfileEdit::AllowDirectory(s) => ProfileModel {
            directory_allowlist: with_item(p.directory_allowlist, s),
            ..p
        },
        ProfileEdit::UnallowDirectory(s) => ProfileModel {
            directory_allowlist: without_item(p.directory_allowlist, s),
            ..p
        },
        ProfileEdit::AllowMcp(id) => ProfileModel {
            mcp_allowlist: with_item(p.mcp_allowlist, id),
            ..p
        },
        ProfileEdit::UnallowMcp(id) => ProfileModel {
            mcp_allowlist: without_item(p.mcp_allowlist, id),
            ..p
        },
        ProfileEdit::DenyMcp(id) => ProfileModel {
            mcp_denylist: with_item(p.mcp_denylist, id),
            ..p
        },
        ProfileEdit::UndenyMcp(id) => ProfileModel {
            mcp_denylist: without_item(p.mcp_denylist, id),
            ..p
        },
        ProfileEdit::KeepMcpServers(kept) => ProfileModel {
            mcp_allowlist: only_items(p.mcp_allowlist, kept),
            mcp_denylist: only_items(p.mcp_denylist, kept),
            ..p
        },
    }
}

fn add_text(list: &mut Vec<String>, item: String) -> (changed: bool)
    ensures
        text::texts(final(list)@) == with_item(text::texts(old(list)@), item@),
        changed == (text::texts(final(list)@) != text::texts(old(list)@)),
{
    let ghost before = text::texts(list@);
    if text::strings_contain(list, item.as_str()) {
        return false;
    }
    let ghost added = item@;
    list.push(item);
    assert(text::texts(list@) =~= before.push(added));
    assert(text::texts(list@).len() == before.len() + 1);
    true
}

proof fn lemma_without_len<T>(s: Seq<T>, item: T)
    ensures
        without_item(s, item).len() <= s.len(),
        without_item(s, item).len() == s.len() ==> without_item(s, item) == s,
    decreases s.len(),
{
    if s.len() > 0 {
        lemma_without_len(s.drop_last(), item);
        if s.last() != item && without_item(s, item).len() == s.len() {
            assert(without_item(s, item) =~= s);
        }
    }
}

proof fn lemma_only_len<T>(s: Seq<T>, kept: Seq<T>)
    ensures
        only_items(s, kept).len() <= s.len(),
        only_items(s, kept).len() == s.len() ==> only_items(s, kept) == s,
    decreases s.len(),
{
    if s.len() > 0 {
        lemma_only_len(s.drop_last(), kept);
        if kept.contains(s.last()) && only_items(s, kept).len() == s.len() {
            assert(only_items(s, kept) =~= s);
        }
    }
}

fn remove_text(list: &mut Vec<String>, item: &str) -> (changed: bool)
    ensures
        text::texts(final(list)@) == without_item(text::texts(old(list)@), item@),
        changed == (text::texts(final(list)@) != text::texts(old(list)@)),
{
    let ghost before = text::texts(list@);
    let mut out: Vec<String> = Vec::new();
    let mut i: usize = 0;
    assert(before.subrange(0, 0) =~= Seq::<Seq<char>>::empty());
    assert(text::texts(out@) =~= Seq::<Seq<char>>::empty());
    while i < list.len()
        invariant
            i <= list.len(),
            before == text::texts(list@),
            text::texts(out@) == without_item(before.subrange(0, i as int), item@),
        decreases list.len() - i,
    {
        let ghost part = before.subrange(0, i + 1);
        let ghost old_out = text::texts(out@);
        assert(part.drop_last() =~= before.subrange(0, i as int));
        assert(part.last() == list@[i as int]@);
        if !text::same_text(list[i].as_str(), item) {
            out.push(list[i].clone());
            assert(text::texts(out@) =~= old_out.push(list@[i as int]@));
        }
        i += 1;
    }
    assert(before.subrange(0, before.len() as int) =~= before);
    let changed = out.len() != list.len();
    proof {
        lemma_without_len(before, item@);
        assert(text::texts(out@).len() == out.len());
        assert(before.len() == list.len());
    }
    *list = out;
    changed
}

fn ids_contain(list: &Vec<u128>, id: u128) -> (r: bool)
    ensures
        r == list@.contains(id),
{
    let mut i: usize = 0;
    while i < list.len()
        invariant
            i <= list.len(),
            forall|j: int| 0 <= j < i ==> #[trigger] list@[j] != id,
        decreases list.len() - i,
    {
        if list[i] == id {
            return true;
        }
        i += 1;
    }
    false
}

fn add_id(list: &mut Vec<u128>, id: u128) -> (changed: bool)
    ensures
        final(list)@ == with_item(old(list)@, id),
        changed == (final(list)@ != old(list)@),
{
    if ids_contain(list, id) {
        return false;
    }
    list.push(id);
    assert(list@.len() == old(list)@.len() + 1);
    true
}

fn remove_id(list: &mut Vec<u128>, id: u128) -> (changed: bool)
    ensures
        final(list)@ == without_item(old(list)@, id),
        changed == (final(list)@ != old(list)@),
{
    let ghost before = list@;
    let mut out: Vec<u128> = Vec::new();
    let mut i: usize = 0;
    assert(before.subrange(0, 0) =~= Seq::<u128>::empty());
    while i < list.len()
        invariant
            i <= list.len(),
            before == list@,
            out@ == without_item(before.subrange(0, i as int), id),
        decreases list.len() - i,
    {
        assert(before.subrange(0, i + 1).drop_last() =~= before.subrange(0, i as int));
        if list[i] != id {
            out.push(list[i]);
        }
        i += 1;
    }
    assert(before.subrange(0, before.len() as int) =~= before);
    let changed = out.len() != list.len();
    proof {
        lemma_without_len(before, id);
    }
    *list = out;
    changed
}

fn keep_ids(list: &mut Vec<u128>, kept: &Vec<u128>) -> (changed: bool)
    ensures
        final(list)@ == only_items(old(list)@, kept@),
        changed == (final(list)@ != old(list)@),
{
    let ghost before = list@;
    let mut out: Vec<u128> = Vec::new();
    let mut i: usize = 0;
    assert(before.subrange(0, 0) =~= Seq::<u128>::empty());
    while i < list.len()
        invariant
            i <= list.len(),
            before == list@,
            out@ == only_items(before.subrange(0, i as int), kept@),
        decreases list.len() - i,
    {
        assert(before.subrange(0, i + 1).drop_last() =~= before.subrange(0, i as int));
        if ids_contain(kept, list[i]) {
            out.push(list[i]);
        }
        i += 1;
    }
    assert(before.subrange(0, before.len() as int) =~= before);
    let changed = out.len() != list.len();
    proof {
        lemma_only_len(before, kept@);
    }
    *list = out;
    changed
}

fn set_id(slot: &mut Option<LLMId>, id: &Option<LLMId>) -> (changed: bool)
    ensures
        llms::id_opt(*final(slot)) == llms::id_opt(*id),
        changed == (llms::id_opt(*final(slot)) != llms::id_opt(*old(slot))),
{
    if llms::same_id_opt(slot, id) {
        return false;
    }
    *slot = llms::clone_id_opt(id);
    true
}

impl AIExecutionProfile {
    /// Changes a model choice.
    fn edit_model_choice(&mut self, edit: &ProfileEdit) -> (changed: bool)
        requires
            edit@ is BaseModel || edit@ is CodingModel || edit@ is CliAgentModel
                || edit@ is ComputerUseModel,
        ensures
            final(self)@ == edited(old(self)@, edit@),
            changed == (edited(old(self)@, edit@) != old(self)@),
    {
        let ghost before = self@;
        match edit {
            ProfileEdit::BaseModel(id) => {
                let changed = set_id(&mut self.base_model, id);
                assert(self@ =~= edited(before, edit@));
                changed
            },
            ProfileEdit::CodingModel(id) => {
                let changed = set_id(&mut self.coding_model, id);
                assert(self@ =~= edited(before, edit@));
                changed
            },
            ProfileEdit::CliAgentModel(id) => {
                let changed = set_id(&mut self.cli_agent_model, id);
                assert(self@ =~= edited(before, edit@));
                changed
            },
            ProfileEdit::ComputerUseModel(id) => {
                let changed = set_id(&mut self.computer_use_model, id);
                assert(self@ =~= edited(before, edit@));
                changed
            },
            _ => false,
        }
    }

    /// Changes a setting.
    fn edit_setting(&mut self, edit: &ProfileEdit) -> (changed: bool)
        requires
            edit@ is ContextWindowLimit || edit@ is Name || edit@ is WebSearchEnabled,
        ensures
            final(self)@ == edited(old(self)@, edit@),
            changed == (edited(old(self)@, edit@) != old(self)@),
    {
        let ghost before = self@;
        match edit {
            ProfileEdit::ContextWindowLimit(limit) => {
                let same = match (self.context_window_limit, *limit) {
                    (Some(a), Some(b)) => a == b,
                    (None, None) => true,
                    _ => false,
                };
                self.context_window_limit = *limit;
                assert(self@ =~= edited(before, edit@));
                !same
            },
            ProfileEdit::Name(name) => {
                if text::same_text(self.name.as_str(), name.as_str()) {
                    assert(self@ =~= edited(before, edit@));
                    return false;
                }
                self.name = name.clone();
                assert(self@ =~= edited(before, edit@));
                true
            },
            ProfileEdit::WebSearchEnabled(v) => {
                let changed = self.web_search_enabled != *v;
                self.web_search_enabled = *v;
                assert(self@ =~= edited(before, edit@));
                changed
            },
            _ => false,
        }
    }

    /// Changes a permission.
    fn edit_permission(&mut self, edit: &ProfileEdit) -> (changed: bool)
        requires
            edit@ is ApplyCodeDiffs || edit@ is ReadFiles || edit@ is ExecuteCommands
                || edit@ is WriteToPty,
        ensures
            final(self)@ == edited(old(self)@, edit@),
            changed == (edited(old(self)@, edit@) != old(self)@),
    {
        let ghost before = self@;
        match edit {
            ProfileEdit::ApplyCodeDiffs(v) => {
                let changed = self.apply_code_diffs != *v;
                self.apply_code_diffs = *v;
                assert(self@ =~= edited(before, edit@));
                changed
            },
            ProfileEdit::ReadFiles(v) => {
                let changed = self.read_files != *v;
                self.read_files = *v;
                assert(self@ =~= edited(before, edit@));
                changed
            },
            ProfileEdit::ExecuteCommands(v) => {
                let changed = self.execute_commands != *v;
                self.execute_commands = *v;
                assert(self@ =~= edited(before, edit@));
                changed
            },
            ProfileEdit::WriteToPty(v) => {
                let changed = self.write_to_pty != *v;
                self.write_to_pty = *v;
                assert(self@ =~= edited(before, edit@));
                changed
            },
            _ => false,
        }
    }

    /// Changes a further permission.
    fn edit_further_permission(&mut self, edit: &ProfileEdit) -> (changed: bool)
        requires
            edit@ is McpPermissions || edit@ is ComputerUse || edit@ is AskUserQuestion,
        ensures
            final(self)@ == edited(old(self)@, edit@),
            changed == (edited(old(self)@, edit@) != old(self)@),
    {
        let ghost before = self@;
        match edit {
            ProfileEdit::McpPermissions(v) => {
                if self.mcp_permissions == *v {
                    return false;
                }
                if *v == ActionPermission::AlwaysAllow {
                    self.mcp_allowlist = Vec::new();
                } else if *v == ActionPermission::AlwaysAsk {
                    self.mcp_denylist = Vec::new();
                }
                self.mcp_permissions = *v;
                assert(self@ =~= edited(before, edit@));
                true
            },
            ProfileEdit::ComputerUse(v) => {
                let changed = self.computer_use != *v;
                self.computer_use = *v;
                assert(self@ =~= edited(before, edit@));
                changed
            },
            ProfileEdit::AskUserQuestion(v) => {
                let changed = self.ask_user_question != *v;
                self.ask_user_question = *v;
                assert(self@ =~= edited(before, edit@));
                changed
            },
            _ => false,
        }
    }

    /// Changes a command list.
    fn edit_command_list(&mut self, edit: &ProfileEdit) -> (changed: bool)
        requires
            edit@ is AllowCommand || edit@ is UnallowCommand || edit@ is DenyCommand
                || edit@ is UndenyCommand,
        ensures
            final(self)@ == edited(old(self)@, edit@),
            changed == (edited(old(self)@, edit@) != old(self)@),
    {
        let ghost before = self@;
        match edit {
            ProfileEdit::AllowCommand(s) => {
                let changed = add_text(&mut self.command_allowlist, s.clone());
                assert(self@ =~= edited(before, edit@));
                changed
            },
            ProfileEdit::UnallowCommand(s) => {
                let changed = remove_text(&mut self.command_allowlist, s.as_str());
                assert(self@ =~= edited(before, edit@));
                changed
            },
            ProfileEdit::DenyCommand(s) => {
                let changed = add_text(&mut self.command_denylist, s.clone());
                assert(self@ =~= edited(before, edit@));
                changed
            },
            ProfileEdit::UndenyCommand(s) => {
                let changed = remove_text(&mut self.command_denylist, s.as_str());
                assert(self@ =~= edited(before, edit@));
                changed
            },
            _ => false,
        }
    }

    /// Changes a directory list.
    fn edit_directory_list(&mut self, edit: &ProfileEdit) -> (changed: bool)
        requires
            edit@ is AllowDirectory || edit@ is UnallowDirectory,
        ensures
            final(self)@ == edited(old(self)@, edit@),
            changed == (edited(old(self)@, edit@) != old(self)@),
    {
        let ghost before = self@;
        match edit {
            ProfileEdit::AllowDirectory(s) => {
                let changed = add_text(&mut self.directory_allowlist, s.clone());
                assert(self@ =~= edited(before, edit@));
                changed
            },
            ProfileEdit::UnallowDirectory(s) => {
                let changed = remove_text(&mut self.directory_allowlist, s.as_str());
                assert(self@ =~= edited(before, edit@));
                changed
            },
            _ => false,
        }
    }

    /// Changes a server list.
    fn edit_server_list(&mut self, edit: &ProfileEdit) -> (changed: bool)
        requires
            edit@ is AllowMcp || edit@ is UnallowMcp || edit@ is DenyMcp
                || edit@ is UndenyMcp || edit@ is KeepMcpServers,
        ensures
            final(self)@ == edited(old(self)@, edit@),
            changed == (edited(old(self)@, edit@) != old(self)@),
    {
        let ghost before = self@;
        match edit {
            ProfileEdit::AllowMcp(id) => {
                let changed = add_id(&mut self.mcp_allowlist, *id);
                assert(self@ =~= edited(before, edit@));
                changed
            },
            ProfileEdit::UnallowMcp(id) => {
                let changed = remove_id(&mut self.mcp_allowlist, *id);
                assert(self@ =~= edited(before, edit@));
                changed
            },
            ProfileEdit::DenyMcp(id) => {
                let changed = add_id(&mut self.mcp_denylist, *id);
                assert(self@ =~= edited(before, edit@));
                changed
            },
            ProfileEdit::UndenyMcp(id) => {
                let changed = remove_id(&mut self.mcp_denylist, *id);
                assert(self@ =~= edited(before, edit@));
                changed
            },
            ProfileEdit::KeepMcpServers(kept) => {
                let first = keep_ids(&mut self.mcp_allowlist, kept);
                let second = keep_ids(&mut self.mcp_denylist, kept);
                assert(self@ =~= edited(before, edit@));
                first || second
            },
            _ => false,
        }
    }

    /// Makes a change and says whether it changed anything.
    pub fn edit(&mut self, edit: &ProfileEdit) -> (changed: bool)
        ensures
            final(self)@ == edited(old(self)@, edit@),
            changed == (edited(old(self)@, edit@) != old(self)@),
    {
        match edit {
            ProfileEdit::BaseModel(_) => self.edit_model_choice(edit),
            ProfileEdit::CodingModel(_) => self.edit_model_choice(edit),
            ProfileEdit::CliAgentModel(_) => self.edit_model_choice(edit),
            ProfileEdit::ComputerUseModel(_) => self.edit_model_choice(edit),
            ProfileEdit::ContextWindowLimit(_) => self.edit_setting(edit),
            ProfileEdit::Name(_) => self.edit_setting(edit),
            ProfileEdit::WebSearchEnabled(_) => self.edit_setting(edit),
            ProfileEdit::ApplyCodeDiffs(_) => self.edit_permission(edit),
            ProfileEdit::ReadFiles(_) => self.edit_permission(edit),
            ProfileEdit::ExecuteCommands(_) => self.edit_permission(edit),
            ProfileEdit::WriteToPty(_) => self.edit_permission(edit),
            ProfileEdit::McpPermissions(_) => self.edit_further_permission(edit),
            ProfileEdit::ComputerUse(_) => self.edit_further_permission(edit),
            ProfileEdit::AskUserQuestion(_) => self.edit_further_permission(edit),
            ProfileEdit::AllowCommand(_) => self.edit_command_list(edit),
            ProfileEdit::UnallowCommand(_) => self.edit_command_list(edit),
            ProfileEdit::DenyCommand(_) => self.edit_command_list(edit),
            ProfileEdit::UndenyCommand(_) => self.edit_command_list(edit),
            ProfileEdit::AllowDirectory(_) => self.edit_directory_list(edit),
            ProfileEdit::UnallowDirectory(_) => self.edit_directory_list(edit),
            ProfileEdit::AllowMcp(_) => self.edit_server_list(edit),
            ProfileEdit::UnallowMcp(_) => self.edit_server_list(edit),
            ProfileEdit::DenyMcp(_) => self.edit_server_list(edit),
            ProfileEdit::UndenyMcp(_) => self.edit_server_list(edit),
            ProfileEdit::KeepMcpServers(_) => self.edit_server_list(edit),
        }
    }
}

// ---------------------------------------------------------------------------
// The profiles.

/// A profile with its identities.
#[derive(Clone, Debug)]
pub struct AIExecutionProfileInfo {
    id: ClientProfileId,
    sync_id: Option<SyncId>,
    data: AIExecutionProfile,
}

/// What is known of a profile.
#[verifier::ext_equal]
pub struct InfoModel {
    pub id: ClientProfileId,
    pub sync_id: Option<SyncId>,
    pub data: ProfileModel,
}

impl View for AIExecutionProfileInfo {
    type V = InfoModel;

    closed spec fn view(&self) -> InfoModel {
        InfoModel { id: self.id, sync_id: self.sync_id, data: self.data@ }
    }
}

impl AIExecutionProfileInfo {
    pub fn id(&self) -> (r: &ClientProfileId)
        ensures
            *r == self@.id,
    {
        &self.id
    }

    /// The identity that outlives the process, if the profile has been saved.
    pub fn sync_id(&self) -> (r: Option<SyncId>)
        ensures
            r == self@.sync_id,
    {
        self.sync_id
    }

    pub fn data(&self) -> (r: &AIExecutionProfile)
        ensures
            r@ == self@.data,
    {
        &self.data
    }
}

/// The profile that serves where no other is chosen.
#[derive(Clone, Debug)]
pub enum DefaultProfileState<P = AIExecutionProfile> {
    Local { id: ClientProfileId, sync_id: Option<SyncId>, profile: P },
    /// The profile of a command-line run: it is neither changed nor saved.
    Cli { id: ClientProfileId, profile: P },
}

pub type DefaultModel = DefaultProfileState<ProfileModel>;

impl View for DefaultProfileState<AIExecutionProfile> {
    type V = DefaultModel;

    open spec fn view(&self) -> DefaultModel {
        match self {
            DefaultProfileState::Local { id, sync_id, profile } => DefaultProfileState::Local {
                id: *id,
                sync_id: *sync_id,
                profile: profile@,
            },
            DefaultProfileState::Cli { id, profile } => DefaultProfileState::Cli {
                id: *id,
                profile: profile@,
            },
        }
    }
}

pub open spec fn default_id(state: DefaultModel) -> ClientProfileId {
    match state {
        DefaultProfileState::Local { id, .. } => id,
        DefaultProfileState::Cli { id, .. } => id,
    }
}

pub open spec fn default_info(state: DefaultModel) -> InfoModel {
    match state {
        DefaultProfileState::Local { id, sync_id, profile } => InfoModel {
            id,
            sync_id,
            data: profile,
        },
        DefaultProfileState::Cli { id, profile } => InfoModel { id, sync_id: None, data: profile },
    }
}

/// The state in a word.
pub open spec fn state_name(state: DefaultModel) -> Seq<char> {
    match state {
        DefaultProfileState::Local { sync_id, .. } => if sync_id is Some {
            "LocalSaved"@
        } else {
            "LocalUnsaved"@
        },
        DefaultProfileState::Cli { .. } => "CLI"@,
    }
}

impl DefaultProfileState {
    pub fn id(&self) -> (r: ClientProfileId)
        ensures
            r == default_id(self@),
    {
        match self {
            DefaultProfileState::Local { id, .. } => *id,
            DefaultProfileState::Cli { id, .. } => *id,
        }
    }

    /// The state in a word.
    pub fn text(&self) -> (r: &'static str)
        ensures
            r@ == state_name(self@),
    {
        match self {
            DefaultProfileState::Local { sync_id, .. } => if sync_id.is_some() {
                "LocalSaved"
            } else {
                "LocalUnsaved"
            },
            DefaultProfileState::Cli { .. } => "CLI",
        }
    }

    fn info(&self) -> (r: AIExecutionProfileInfo)
        ensures
            r@ == default_info(self@),
    {
        match self {
            DefaultProfileState::Local { id, sync_id, profile } => AIExecutionProfileInfo {
                id: *id,
                sync_id: *sync_id,
                data: profile.clone(),
            },
            DefaultProfileState::Cli { id, profile } => AIExecutionProfileInfo {
                id: *id,
                sync_id: None,
                data: profile.clone(),
            },
        }
    }
}

/// A profile that was saved, with the identity that outlives the process.
#[derive(Clone, Debug)]
pub struct PersistedAIExecutionProfile {
    pub id: SyncId,
    pub profile: AIExecutionProfile,
}

/// What a saved profile says.
#[verifier::ext_equal]
pub struct SavedModel {
    pub id: SyncId,
    pub profile: ProfileModel,
}

impl View for PersistedAIExecutionProfile {
    type V = SavedModel;

    open spec fn view(&self) -> SavedModel {
        SavedModel { id: self.id, profile: self.profile@ }
    }
}

/// All the saved profiles.
#[derive(Clone, Debug)]
pub struct PersistedAIExecutionProfiles {
    pub default_profile: PersistedAIExecutionProfile,
    pub profiles: Vec<PersistedAIExecutionProfile>,
}

/// The profiles, and which one each terminal uses.
pub struct AIExecutionProfilesModel {
    default_profile_state: DefaultProfileState,
    profiles: IdMap<PersistedAIExecutionProfile>,
    active_profiles_per_session: IdMap<ClientProfileId>,
    bound: usize,
}

/// What there is of profiles.
#[verifier::ext_equal]
pub struct ProfilesModel {
    pub default: DefaultModel,
    /// The other profiles by their identities within the process.
    pub profiles: Map<usize, SavedModel>,
    /// The profile that each terminal uses, where one was chosen.
    pub active: Map<usize, ClientProfileId>,
    /// Every identity here is below this.
    pub next: nat,
}

/// What was saved, by identity.
pub open spec fn saved_models(m: Map<usize, PersistedAIExecutionProfile>) -> Map<
    usize,
    SavedModel,
> {
    m.map_values(|p: PersistedAIExecutionProfile| p@)
}

impl View for AIExecutionProfilesModel {
    type V = ProfilesModel;

    closed spec fn view(&self) -> ProfilesModel {
        ProfilesModel {
            default: self.default_profile_state@,
            profiles: saved_models(self.profiles@),
            active: self.active_profiles_per_session@,
            next: self.bound as nat,
        }
    }
}

impl ProfilesModel {
    /// Every identity was handed out, and the default one is no other's. Where
    /// there are others, a default profile that can be saved is.
    pub open spec fn valid(self) -> bool {
        &&& default_id(self.default).0 < self.next
        &&& forall|id: usize| #[trigger] self.profiles.contains_key(id) ==> id < self.next
        &&& !self.profiles.contains_key(default_id(self.default).0)
        &&& forall|id: usize| #[trigger]
            self.profiles.contains_key(id) ==> self.default is Cli || is_saved(self.default)
    }

    /// The profile of an identity.
    pub open spec fn profile(self, id: ClientProfileId) -> Option<InfoModel> {
        if id == default_id(self.default) {
            Some(default_info(self.default))
        } else if self.profiles.contains_key(id.0) {
            Some(
                InfoModel {
                    id,
                    sync_id: Some(self.profiles[id.0].id),
                    data: self.profiles[id.0].profile,
                },
            )
        } else {
            None
        }
    }

    /// The profile that a terminal uses.
    pub open spec fn active_profile(self, view: Option<EntityId>) -> InfoModel {
        match view {
            Some(view) => if self.active.contains_key(view.0) {
                match self.profile(self.active[view.0]) {
                    Some(info) => info,
                    None => default_info(self.default),
                }
            } else {
                default_info(self.default)
            },
            None => default_info(self.default),
        }
    }

    /// Whether a profile may be changed: that of a command-line run may not.
    pub open spec fn editable(self, id: ClientProfileId) -> bool {
        !(self.default is Cli && id == default_id(self.default))
    }

    /// Whether a change of a profile changes anything.
    pub open spec fn changes(self, id: ClientProfileId, edit: EditModel) -> bool {
        match self.profile(id) {
            None => false,
            Some(info) => self.editable(id) && edited(info.data, edit) != info.data,
        }
    }

    /// The profiles after a change of one. With the first change the default
    /// profile gets an identity that outlives the process, so that all of them
    /// are saved.
    pub open spec fn edit(self, id: ClientProfileId, edit: EditModel, fresh: SyncId) -> ProfilesModel {
        if !self.changes(id, edit) {
            self
        } else if id == default_id(self.default) {
            ProfilesModel {
                default: match lasting(self.default, fresh) {
                    DefaultProfileState::Local { id, sync_id, profile } =>
                        DefaultProfileState::Local {
                        id,
                        sync_id,
                        profile: edited(profile, edit),
                    },
                    DefaultProfileState::Cli { id, profile } => DefaultProfileState::Cli {
                        id,
                        profile,
                    },
                },
                ..self
            }
        } else {
            ProfilesModel {
                default: lasting(self.default, fresh),
                profiles: self.profiles.insert(
                    id.0,
                    SavedModel {
                        id: self.profiles[id.0].id,
                        profile: edited(self.profiles[id.0].profile, edit),
                    },
                ),
                ..self
            }
        }
    }

    /// The profiles with one more: a copy of the default one without a name,
    /// under the identity `at`. The default one gets a lasting identity, so
    /// that the new one is saved.
    pub open spec fn create(self, at: usize, fresh: SyncId, for_default: SyncId) -> ProfilesModel {
        ProfilesModel {
            default: lasting(self.default, for_default),
            profiles: self.profiles.insert(
                at,
                SavedModel {
                    id: fresh,
                    profile: ProfileModel {
                        name: Seq::empty(),
                        is_default_profile: false,
                        autosync_plans_to_warp_drive: false,
                        ..default_info(self.default).data
                    },
                },
            ),
            next: (at + 1) as nat,
            ..self
        }
    }

    /// Whether a profile can be deleted: the default one cannot.
    pub open spec fn deletable(self, id: ClientProfileId) -> bool {
        id != default_id(self.default) && self.profiles.contains_key(id.0)
    }

    /// The profiles without one. No terminal uses it any more.
    pub open spec fn delete(self, id: ClientProfileId) -> ProfilesModel {
        if self.deletable(id) {
            ProfilesModel {
                profiles: self.profiles.remove(id.0),
                active: without_profile(self.active, id),
                ..self
            }
        } else {
            self
        }
    }
}

/// The choices of the terminals that use another profile.
pub open spec fn without_profile(active: Map<usize, ClientProfileId>, id: ClientProfileId) -> Map<
    usize,
    ClientProfileId,
> {
    Map::new(
        |view: usize| active.contains_key(view) && active[view] != id,
        |view: usize| active[view],
    )
}

/// What has happened to the profiles.
#[derive(Clone, Copy, Debug, PartialEq, Eq, Structural)]
pub enum AIExecutionProfilesModelEvent {
    ProfileUpdated(ClientProfileId),
    ProfileCreated,
    ProfileDeleted,
    UpdatedActiveProfile { terminal_view_id: EntityId },
}

/// Whether the default profile has an identity that outlives the process, so
/// that the profiles are saved.
pub open spec fn is_saved(state: DefaultModel) -> bool {
    state matches DefaultProfileState::Local { sync_id: Some(_), .. }
}

/// The default profile with an identity that outlives the process: its own, or
/// the given one where it has none. That of a command-line run gets none.
pub open spec fn lasting(state: DefaultModel, fresh: SyncId) -> DefaultModel {
    match state {
        DefaultProfileState::Local { id, sync_id, profile } => DefaultProfileState::Local {
            id,
            sync_id: match sync_id {
                Some(s) => Some(s),
                None => Some(fresh),
            },
            profile,
        },
        DefaultProfileState::Cli { .. } => state,
    }
}

fn clear_flag(profile: AIExecutionProfile, is_default: bool) -> (r: AIExecutionProfile)
    ensures
        r@ == (ProfileModel { is_default_profile: is_default, ..profile@ }),
{
    let mut profile = profile;
    profile.is_default_profile = is_default;
    profile
}

/// The profiles that were saved, the first with the identity `from`.
pub open spec fn loaded(saved: Seq<PersistedAIExecutionProfile>, from: nat, n: int) -> Map<
    usize,
    SavedModel,
>
    decreases n,
{
    if n <= 0 {
        Map::empty()
    } else {
        loaded(saved, from, n - 1).insert(
            (from + n - 1) as usize,
            SavedModel {
                id: saved[n - 1].id,
                profile: ProfileModel { is_default_profile: false, ..saved[n - 1].profile@ },
            },
        )
    }
}

/// Profiles of which only an unsaved default one exists.
pub open spec fn unsaved_profiles(profile: ProfileModel, from: usize) -> ProfilesModel {
    ProfilesModel {
        default: DefaultProfileState::Local { id: ClientProfileId(from), sync_id: None, profile },
        profiles: Map::empty(),
        active: Map::empty(),
        next: (from + 1) as nat,
    }
}

/// The profile of a command-line run.
pub open spec fn command_line_profiles(profile: ProfileModel, from: usize) -> ProfilesModel {
    ProfilesModel {
        default: DefaultProfileState::Cli { id: ClientProfileId(from), profile },
        profiles: Map::empty(),
        active: Map::empty(),
        next: (from + 1) as nat,
    }
}

/// The profiles that were saved.
pub open spec fn saved_profiles(persisted: PersistedAIExecutionProfiles, from: usize) -> ProfilesModel {
    ProfilesModel {
        default: DefaultProfileState::Local {
            id: ClientProfileId(from),
            sync_id: Some(persisted.default_profile.id),
            profile: ProfileModel {
                is_default_profile: true,
                ..persisted.default_profile.profile@
            },
        },
        profiles: loaded(
            persisted.profiles@,
            (from + 1) as nat,
            persisted.profiles@.len() as int,
        ),
        active: Map::empty(),
        next: (from + persisted.profiles@.len() + 1) as nat,
    }
}

/// How the program was started.
#[derive(Clone, Copy, Debug, PartialEq, Eq, Structural)]
pub enum LaunchMode {
    App,
    CommandLine,
}

/// The profiles that the program starts with, under the identities from `from`
/// on. `profile` is the default one where none was saved, and that of a
/// command-line run in any case.
pub open spec fn initial_profiles(
    launch: LaunchMode,
    saved: Option<PersistedAIExecutionProfiles>,
    profile: ProfileModel,
    from: usize,
) -> ProfilesModel {
    match launch {
        LaunchMode::CommandLine => command_line_profiles(profile, from),
        LaunchMode::App => match saved {
            Some(persisted) => saved_profiles(persisted, from),
            None => unsaved_profiles(profile, from),
        },
    }
}

impl AIExecutionProfilesModel {
    pub closed spec fn wf(&self) -> bool {
        &&& self.profiles.wf()
        &&& self.active_profiles_per_session.wf()
        &&& self@.valid()
    }

    /// Profiles of which only an unsaved default one exists.
    pub fn with_default(profile: AIExecutionProfile, ids: &mut ProfileIdSource) -> (r: Self)
        requires
            old(ids).next < usize::MAX,
        ensures
            r.wf(),
            r@ == unsaved_profiles(profile@, old(ids).next),
            final(ids).next == r@.next,
    {
        let id = ClientProfileId::new(ids);
        let r = AIExecutionProfilesModel {
            default_profile_state: DefaultProfileState::Local { id, sync_id: None, profile },
            profiles: IdMap::new(),
            active_profiles_per_session: IdMap::new(),
            bound: ids.next,
        };
        assert(r@.profiles =~= Map::empty());
        r
    }

    /// The profile of a command-line run.
    pub fn for_command_line(profile: AIExecutionProfile, ids: &mut ProfileIdSource) -> (r: Self)
        requires
            old(ids).next < usize::MAX,
        ensures
            r.wf(),
            r@ == command_line_profiles(profile@, old(ids).next),
            final(ids).next == r@.next,
    {
        let id = ClientProfileId::new(ids);
        let r = AIExecutionProfilesModel {
            default_profile_state: DefaultProfileState::Cli { id, profile },
            profiles: IdMap::new(),
            active_profiles_per_session: IdMap::new(),
            bound: ids.next,
        };
        assert(r@.profiles =~= Map::empty());
        r
    }

    /// The profiles that were saved.
    pub fn load_local_profiles(
        persisted: PersistedAIExecutionProfiles,
        ids: &mut ProfileIdSource,
    ) -> (r: Self)
        requires
            old(ids).next + persisted.profiles@.len() < usize::MAX,
        ensures
            r.wf(),
            r@ == saved_profiles(persisted, old(ids).next),
            final(ids).next == r@.next,
    {
        let ghost from = ids.next as nat + 1;
        let default_id = ClientProfileId::new(ids);
        let default_profile_state = DefaultProfileState::Local {
            id: default_id,
            sync_id: Some(persisted.default_profile.id),
            profile: clear_flag(persisted.default_profile.profile, true),
        };
        let saved = persisted.profiles;
        let mut profiles: IdMap<PersistedAIExecutionProfile> = IdMap::new();
        let mut i: usize = 0;
        assert(saved_models(profiles@) =~= Map::empty());
        while i < saved.len()
            invariant
                i <= saved.len(),
                from + saved.len() <= usize::MAX,
                ids.next == from + i,
                profiles.wf(),
                saved_models(profiles@) == loaded(saved@, from, i as int),
                forall|id: usize| #[trigger]
                    saved_models(profiles@).contains_key(id) ==> from <= id < from + i,
            decreases saved.len() - i,
        {
            let id = ClientProfileId::new(ids);
            let ghost before = profiles@;
            let entry = PersistedAIExecutionProfile {
                id: saved[i].id,
                profile: clear_flag(saved[i].profile.clone(), false),
            };
            let ghost added = entry@;
            profiles.insert(id.0, entry);
            assert(saved_models(profiles@) =~= saved_models(before).insert(id.0, added));
            i += 1;
        }
        AIExecutionProfilesModel {
            default_profile_state,
            profiles,
            active_profiles_per_session: IdMap::new(),
            bound: ids.next,
        }
    }

    /// What is to be saved, unless the default profile is not.
    pub fn persisted(&self) -> (r: Option<PersistedAIExecutionProfiles>)
        requires
            self.wf(),
        ensures
            is_what_is_saved(self@, r),
    {
        let default_profile = match &self.default_profile_state {
            DefaultProfileState::Local { sync_id, profile, .. } => match sync_id {
                Some(id) => PersistedAIExecutionProfile { id: *id, profile: profile.clone() },
                None => {
                    return None;
                },
            },
            DefaultProfileState::Cli { .. } => {
                return None;
            },
        };
        let keys = self.profiles.keys();
        let mut profiles: Vec<PersistedAIExecutionProfile> = Vec::new();
        let mut i: usize = 0;
        while i < keys.len()
            invariant
                self.wf(),
                i <= keys.len(),
                profiles.len() == i,
                forall|key: usize| #[trigger]
                    keys@.contains(key) <==> self.profiles@.contains_key(key),
                forall|j: int|
                    0 <= j < i ==> (#[trigger] profiles@[j])@ == self@.profiles[keys@[j]],
            decreases keys.len() - i,
        {
            assert(keys@.contains(keys@[i as int]));
            if let Some(entry) = self.profiles.get(keys[i]) {
                assert(self@.profiles[keys@[i as int]] == entry@);
                profiles.push(
                    PersistedAIExecutionProfile { id: entry.id, profile: entry.profile.clone() },
                );
            }
            i += 1;
        }
        assert(lists_profiles(keys@, profiles@, self@.profiles)) by {
            assert forall|key: usize| #[trigger] keys@.contains(key) <==> self@.profiles.contains_key(
                key,
            ) by {
                assert(keys@.contains(key) <==> self.profiles@.contains_key(key));
            }
        }
        let all = PersistedAIExecutionProfiles { default_profile, profiles };
        assert(lists_profiles(keys@, all.profiles@, self@.profiles));
        assert(is_saved(self@.default));
        Some(all)
    }

    pub fn default_profile_id(&self) -> (r: ClientProfileId)
        ensures
            r == default_id(self@.default),
    {
        self.default_profile_state.id()
    }

    pub fn default_profile(&self) -> (r: AIExecutionProfileInfo)
        ensures
            r@ == default_info(self@.default),
    {
        self.default_profile_state.info()
    }

    pub fn get_profile_by_id(&self, profile_id: ClientProfileId) -> (r: Option<
        AIExecutionProfileInfo,
    >)
        requires
            self.wf(),
        ensures
            match r {
                Some(info) => self@.profile(profile_id) == Some(info@),
                None => self@.profile(profile_id) is None,
            },
    {
        if profile_id == self.default_profile_state.id() {
            return Some(self.default_profile_state.info());
        }
        match self.profiles.get(profile_id.0) {
            Some(entry) => {
                assert(self@.profiles[profile_id.0] == entry@);
                Some(
                    AIExecutionProfileInfo {
                        id: profile_id,
                        sync_id: Some(entry.id),
                        data: entry.profile.clone(),
                    },
                )
            },
            None => None,
        }
    }

    /// The profile that a terminal uses: the one chosen for it, or else the
    /// default one.
    pub fn active_profile(&self, terminal_view_id: Option<EntityId>) -> (r: AIExecutionProfileInfo)
        requires
            self.wf(),
        ensures
            r@ == self@.active_profile(terminal_view_id),
    {
        if let Some(view) = terminal_view_id {
            if let Some(id) = self.active_profiles_per_session.get(view.0) {
                if let Some(info) = self.get_profile_by_id(*id) {
                    return info;
                }
            }
        }
        self.default_profile()
    }

    /// All identities, the default one first.
    pub fn get_all_profile_ids(&self) -> (r: Vec<ClientProfileId>)
        requires
            self.wf(),
        ensures
            r@.len() > 0,
            r@[0] == default_id(self@.default),
            r@.no_duplicates(),
            forall|id: ClientProfileId| #[trigger]
                r@.contains(id) <==> self@.profile(id) is Some,
    {
        let keys = self.profiles.keys();
        let first = self.default_profile_state.id();
        let mut out: Vec<ClientProfileId> = Vec::new();
        out.push(first);
        let mut i: usize = 0;
        while i < keys.len()
            invariant
                i <= keys.len(),
                out.len() == i + 1,
                out@[0] == first,
                forall|j: int| 0 <= j < i ==> #[trigger] out@[j + 1] == ClientProfileId(keys@[j]),
            decreases keys.len() - i,
        {
            out.push(ClientProfileId(keys[i]));
            i += 1;
        }
        proof {
            let ks = keys@;
            assert forall|k: usize| #[trigger] ks.contains(k) implies k != first.0 by {
                assert(self@.profiles.contains_key(k));
            }
            assert forall|a: int, b: int|
                0 <= a < out@.len() && 0 <= b < out@.len() && a != b implies out@[a]
                != out@[b] by {
                if a > 0 {
                    assert(out@[(a - 1) + 1] == ClientProfileId(ks[a - 1]));
                    assert(ks.contains(ks[a - 1]));
                }
                if b > 0 {
                    assert(out@[(b - 1) + 1] == ClientProfileId(ks[b - 1]));
                    assert(ks.contains(ks[b - 1]));
                }
            }
            assert forall|id: ClientProfileId| #[trigger]
                out@.contains(id) <==> self@.profile(id) is Some by {
                if out@.contains(id) {
                    let a = choose|a: int| 0 <= a < out@.len() && out@[a] == id;
                    if a > 0 {
                        assert(out@[(a - 1) + 1] == ClientProfileId(ks[a - 1]));
                        assert(ks.contains(ks[a - 1]));
                        assert(self@.profiles.contains_key(id.0));
                    }
                }
                if self@.profile(id) is Some {
                    if id == first {
                        assert(out@[0] == id);
                    } else {
                        assert(ks.contains(id.0));
                        let k = choose|k: int| 0 <= k < ks.len() && ks[k] == id.0;
                        assert(out@[k + 1] == ClientProfileId(ks[k]));
                    }
                }
            }
        }
        out
    }

    /// A profile that was saved under that identity.
    pub fn get_profile_id_by_sync_id(&self, sync_id: &SyncId) -> (r: Option<ClientProfileId>)
        requires
            self.wf(),
        ensures
            match r {
                Some(id) => self@.profile(id) matches Some(info) && info.sync_id == Some(*sync_id),
                None => forall|id: ClientProfileId|
                    (#[trigger] self@.profile(id)) matches Some(info) ==> info.sync_id != Some(
                        *sync_id,
                    ),
            },
            default_info(self@.default).sync_id == Some(*sync_id) ==> r == Some(
                default_id(self@.default),
            ),
    {
        if let DefaultProfileState::Local { id, sync_id: own, .. } = &self.default_profile_state {
            if let Some(own) = own {
                if *own == *sync_id {
                    return Some(*id);
                }
            }
        }
        let keys = self.profiles.keys();
        let mut i: usize = 0;
        while i < keys.len()
            invariant
                self.wf(),
                i <= keys.len(),
                default_info(self@.default).sync_id != Some(*sync_id),
                forall|key: usize| #[trigger]
                    keys@.contains(key) <==> self.profiles@.contains_key(key),
                forall|j: int|
                    0 <= j < i ==> self@.profiles[#[trigger] keys@[j]].id != *sync_id,
            decreases keys.len() - i,
        {
            assert(keys@.contains(keys@[i as int]));
            if let Some(entry) = self.profiles.get(keys[i]) {
                assert(self@.profiles[keys@[i as int]] == entry@);
                if entry.id == *sync_id {
                    return Some(ClientProfileId(keys[i]));
                }
            }
            i += 1;
        }
        proof {
            assert forall|id: ClientProfileId|
                (#[trigger] self@.profile(id)) matches Some(info) ==> info.sync_id != Some(
                    *sync_id,
                ) by {
                if self@.profiles.contains_key(id.0) {
                    assert(keys@.contains(id.0));
                    let k = choose|k: int| 0 <= k < keys@.len() && keys@[k] == id.0;
                    assert(self@.profiles[keys@[k]].id != *sync_id);
                }
            }
        }
        None
    }

    pub fn has_multiple_profiles(&self) -> (r: bool)
        requires
            self.wf(),
        ensures
            r == (exists|id: usize| #[trigger] self@.profiles.contains_key(id)),
    {
        let r = !self.profiles.is_empty();
        proof {
            if !r {
                assert forall|id: usize| !#[trigger] self@.profiles.contains_key(id) by {
                    assert(!self.profiles@.contains_key(id));
                }
            } else {
                if forall|id: usize| !#[trigger] self@.profiles.contains_key(id) {
                    assert forall|id: usize| !#[trigger] self.profiles@.contains_key(id) by {
                        assert(!self@.profiles.contains_key(id));
                    }
                    assert(self.profiles@ =~= Map::empty());
                }
            }
        }
        r
    }

    /// Gives the default profile a lasting identity, the given one, if it has
    /// none and may have one.
    fn ensure_default_profile_local_id(&mut self, fresh: SyncId)
        requires
            old(self).wf(),
        ensures
            final(self).wf(),
            final(self)@ == (ProfilesModel {
                default: lasting(old(self)@.default, fresh),
                ..old(self)@
            }),
            final(self).profiles == old(self).profiles,
    {
        let ghost before = self@;
        if let DefaultProfileState::Local { id, sync_id: None, profile } =
            &self.default_profile_state {
            let state = DefaultProfileState::Local {
                id: *id,
                sync_id: Some(fresh),
                profile: profile.clone(),
            };
            self.default_profile_state = state;
        }
        assert(self@.default == lasting(before.default, fresh));
        assert(self@ =~= (ProfilesModel { default: lasting(before.default, fresh), ..before }));
    }

    /// Makes a copy of the default profile under the given lasting identity.
    /// `for_default` is the lasting identity that the default profile gets if it
    /// has none.
    pub fn create_profile_as(
        &mut self,
        ids: &mut ProfileIdSource,
        fresh: SyncId,
        for_default: SyncId,
    ) -> (r: (ClientProfileId, AIExecutionProfilesModelEvent))
        requires
            old(self).wf(),
            old(self)@.next <= old(ids).next < usize::MAX,
        ensures
            final(self).wf(),
            final(self)@ == old(self)@.create(old(ids).next, fresh, for_default),
            drew(old(ids).next as nat, r.0, final(ids).next as nat),
            r.1 is ProfileCreated,
    {
        let ghost before = self@;
        self.ensure_default_profile_local_id(for_default);
        let ghost old_profiles = self.profiles@;
        let id = ClientProfileId::new(ids);
        let mut profile = self.default_profile_state.info().data;
        profile.name = String::new();
        profile.is_default_profile = false;
        profile.autosync_plans_to_warp_drive = false;
        let entry = PersistedAIExecutionProfile { id: fresh, profile };
        let ghost added = entry@;
        self.profiles.insert(id.0, entry);
        self.bound = ids.next;
        proof {
            assert(saved_models(self.profiles@) =~= saved_models(old_profiles).insert(
                id.0,
                added,
            ));
            assert(added.profile.name =~= Seq::<char>::empty());
            assert(self@ =~= before.create(id.0, fresh, for_default));
        }
        (id, AIExecutionProfilesModelEvent::ProfileCreated)
    }

    /// Makes a copy of the default profile.
    pub fn create_profile(&mut self, ids: &mut ProfileIdSource) -> (r: (
        ClientProfileId,
        AIExecutionProfilesModelEvent,
    ))
        requires
            old(self).wf(),
            old(self)@.next <= old(ids).next < usize::MAX,
        ensures
            final(self).wf(),
            exists|fresh: SyncId, for_default: SyncId|
                crate::ids::is_v4(fresh.0) && crate::ids::is_v4(for_default.0) && final(self)@
                    == #[trigger] old(self)@.create(old(ids).next, fresh, for_default),
            drew(old(ids).next as nat, r.0, final(ids).next as nat),
            r.1 is ProfileCreated,
    {
        let fresh = SyncId(crate::ids::random_uuid());
        let for_default = SyncId(crate::ids::random_uuid());
        self.create_profile_as(ids, fresh, for_default)
    }

    /// Deletes a profile, unless it is the default one.
    pub fn delete_profile(&mut self, profile_id: ClientProfileId) -> (r: Option<
        AIExecutionProfilesModelEvent,
    >)
        requires
            old(self).wf(),
        ensures
            final(self).wf(),
            final(self)@ == old(self)@.delete(profile_id),
            r == (if old(self)@.deletable(profile_id) {
                Some(AIExecutionProfilesModelEvent::ProfileDeleted)
            } else {
                None
            }),
    {
        let ghost before = self@;
        if profile_id == self.default_profile_state.id() {
            return None;
        }
        let ghost old_profiles = self.profiles@;
        if !self.profiles.contains(profile_id.0) {
            assert(!before.profiles.contains_key(profile_id.0));
            return None;
        }
        let views = self.active_profiles_per_session.keys();
        let ghost active = self.active_profiles_per_session@;
        let mut i: usize = 0;
        assert forall|j: int| 0 <= j < views@.len() implies active.contains_key(
            #[trigger] views@[j],
        ) by {
            assert(views@.contains(views@[j]));
        }
        while i < views.len()
            invariant
                self.active_profiles_per_session.wf(),
                self.profiles == old(self).profiles,
                self.default_profile_state == old(self).default_profile_state,
                self.bound == old(self).bound,
                i <= views.len(),
                views@.no_duplicates(),
                forall|key: usize| #[trigger] views@.contains(key) <==> active.contains_key(key),
                forall|key: usize| #[trigger]
                    self.active_profiles_per_session@.contains_key(key) ==> active.contains_key(key)
                        && self.active_profiles_per_session@[key] == active[key],
                forall|j: int|
                    0 <= j < i ==> (self.active_profiles_per_session@.contains_key(
                        #[trigger] views@[j],
                    ) <==> active[views@[j]] != profile_id),
                forall|j: int|
                    i <= j < views@.len() ==> self.active_profiles_per_session@.contains_key(
                        #[trigger] views@[j],
                    ),
            decreases views.len() - i,
        {
            let view: usize = views[i];
            let uses = match self.active_profiles_per_session.get(view) {
                Some(id) => *id == profile_id,
                None => false,
            };
            if uses {
                let _removed = self.active_profiles_per_session.remove(view);
            }
            i += 1;
        }
        let _removed = self.profiles.remove(profile_id.0);
        proof {
            let now = self.active_profiles_per_session@;
            assert forall|key: usize| #[trigger] now.contains_key(key) <==> (active.contains_key(
                key,
            ) && active[key] != profile_id) by {
                if active.contains_key(key) {
                    assert(views@.contains(key));
                    let j = choose|j: int| 0 <= j < views@.len() && views@[j] == key;
                    assert(now.contains_key(views@[j]) <==> active[views@[j]] != profile_id);
                }
            }
            assert(now =~= without_profile(active, profile_id));
            assert(saved_models(self.profiles@) =~= saved_models(old_profiles).remove(
                profile_id.0,
            ));
            assert(self@ =~= before.delete(profile_id));
        }
        Some(AIExecutionProfilesModelEvent::ProfileDeleted)
    }

    /// Forgets everything.
    pub fn reset(&mut self, ids: &mut ProfileIdSource)
        requires
            old(self).wf(),
            old(ids).next < usize::MAX,
        ensures
            final(self).wf(),
            final(self)@ == unsaved_profiles(
                ProfileModel { is_default_profile: true, ..fresh_profile() },
                old(ids).next,
            ),
            final(ids).next == final(self)@.next,
    {
        let id = ClientProfileId::new(ids);
        let profile = clear_flag(AIExecutionProfile::default(), true);
        self.default_profile_state = DefaultProfileState::Local { id, sync_id: None, profile };
        self.profiles = IdMap::new();
        self.active_profiles_per_session = IdMap::new();
        self.bound = ids.next;
        assert(self@.profiles =~= Map::empty());
    }

    /// Chooses the profile that a terminal uses.
    pub fn set_active_profile(
        &mut self,
        terminal_view_id: EntityId,
        profile_id: ClientProfileId,
    ) -> (r: AIExecutionProfilesModelEvent)
        requires
            old(self).wf(),
        ensures
            final(self).wf(),
            final(self)@ == (ProfilesModel {
                active: old(self)@.active.insert(terminal_view_id.0, profile_id),
                ..old(self)@
            }),
            r == (AIExecutionProfilesModelEvent::UpdatedActiveProfile { terminal_view_id }),
    {
        self.active_profiles_per_session.insert(terminal_view_id.0, profile_id);
        AIExecutionProfilesModelEvent::UpdatedActiveProfile { terminal_view_id }
    }

    /// Changes a profile. `fresh` is the lasting identity that the default
    /// profile gets if it has none.
    pub fn edit_profile_as(
        &mut self,
        profile_id: ClientProfileId,
        edit: &ProfileEdit,
        fresh: SyncId,
    ) -> (r: Option<AIExecutionProfilesModelEvent>)
        requires
            old(self).wf(),
        ensures
            final(self).wf(),
            final(self)@ == old(self)@.edit(profile_id, edit@, fresh),
            r == (if old(self)@.changes(profile_id, edit@) {
                Some(AIExecutionProfilesModelEvent::ProfileUpdated(profile_id))
            } else {
                None
            }),
    {
        let ghost before = self@;
        let updated = AIExecutionProfilesModelEvent::ProfileUpdated(profile_id);
        match &self.default_profile_state {
            DefaultProfileState::Cli { id, .. } => {
                if *id == profile_id {
                    return None;
                }
            },
            DefaultProfileState::Local { id, sync_id, profile } => {
                if *id == profile_id {
                    let mut profile = profile.clone();
                    if !profile.edit(edit) {
                        return None;
                    }
                    let sync_id = match sync_id {
                        Some(s) => Some(*s),
                        None => Some(fresh),
                    };
                    let state = DefaultProfileState::Local { id: *id, sync_id, profile };
                    self.default_profile_state = state;
                    assert(self@ =~= before.edit(profile_id, edit@, fresh));
                    return Some(updated);
                }
            },
        }
        let entry = match self.profiles.get(profile_id.0) {
            None => {
                assert(!before.profiles.contains_key(profile_id.0));
                return None;
            },
            Some(entry) => {
                assert(before.profiles[profile_id.0] == entry@);
                let mut profile = entry.profile.clone();
                if !profile.edit(edit) {
                    return None;
                }
                PersistedAIExecutionProfile { id: entry.id, profile }
            },
        };
        let ghost added = entry@;
        self.ensure_default_profile_local_id(fresh);
        let ghost old_profiles = self.profiles@;
        self.profiles.insert(profile_id.0, entry);
        proof {
            assert(saved_models(self.profiles@) =~= saved_models(old_profiles).insert(
                profile_id.0,
                added,
            ));
            assert(self@ =~= before.edit(profile_id, edit@, fresh));
        }
        Some(updated)
    }

    /// Changes a profile.
    pub fn edit_profile(&mut self, profile_id: ClientProfileId, edit: &ProfileEdit) -> (r: Option<
        AIExecutionProfilesModelEvent,
    >)
        requires
            old(self).wf(),
        ensures
            final(self).wf(),
            edit_happened(old(self)@, final(self)@, profile_id, edit@, r),
    {
        let fresh = SyncId(ids::random_uuid());
        let ghost before = self@;
        let r = self.edit_profile_as(profile_id, edit, fresh);
        assert(ids::is_v4(fresh.0) && self@ == before.edit(profile_id, edit@, fresh));
        r
    }

    pub fn set_base_model(
        &mut self,
        profile_id: ClientProfileId,
        llm_id: Option<LLMId>,
    ) -> (r: Option<AIExecutionProfilesModelEvent>)
        requires
            old(self).wf(),
        ensures
            final(self).wf(),
            edit_happened(
                old(self)@,
                final(self)@,
                profile_id,
                ProfileEdit::BaseModel(llms::id_opt(llm_id)),
                r,
            ),
    {
        self.edit_profile(profile_id, &ProfileEdit::BaseModel(llm_id))
    }

    pub fn set_coding_model(
        &mut self,
        profile_id: ClientProfileId,
        model_id: Option<LLMId>,
    ) -> (r: Option<AIExecutionProfilesModelEvent>)
        requires
            old(self).wf(),
        ensures
            final(self).wf(),
            edit_happened(
                old(self)@,
                final(self)@,
                profile_id,
                ProfileEdit::CodingModel(llms::id_opt(model_id)),
                r,
            ),
    {
        self.edit_profile(profile_id, &ProfileEdit::CodingModel(model_id))
    }

    pub fn set_cli_agent_model(
        &mut self,
        profile_id: ClientProfileId,
        model_id: Option<LLMId>,
    ) -> (r: Option<AIExecutionProfilesModelEvent>)
        requires
            old(self).wf(),
        ensures
            final(self).wf(),
            edit_happened(
                old(self)@,
                final(self)@,
                profile_id,
                ProfileEdit::CliAgentModel(llms::id_opt(model_id)),
                r,
            ),
    {
        self.edit_profile(profile_id, &ProfileEdit::CliAgentModel(model_id))
    }

    pub fn set_computer_use_model(
        &mut self,
        profile_id: ClientProfileId,
        model_id: Option<LLMId>,
    ) -> (r: Option<AIExecutionProfilesModelEvent>)
        requires
            old(self).wf(),
        ensures
            final(self).wf(),
            edit_happened(
                old(self)@,
                final(self)@,
                profile_id,
                ProfileEdit::ComputerUseModel(llms::id_opt(model_id)),
                r,
            ),
    {
        self.edit_profile(profile_id, &ProfileEdit::ComputerUseModel(model_id))
    }

    pub fn set_context_window_limit(
        &mut self,
        profile_id: ClientProfileId,
        limit: Option<u32>,
    ) -> (r: Option<AIExecutionProfilesModelEvent>)
        requires
            old(self).wf(),
        ensures
            final(self).wf(),
            edit_happened(
                old(self)@,
                final(self)@,
                profile_id,
                ProfileEdit::ContextWindowLimit(limit),
                r,
            ),
    {
        self.edit_profile(profile_id, &ProfileEdit::ContextWindowLimit(limit))
    }

    pub fn set_apply_code_diffs(
        &mut self,
        profile_id: ClientProfileId,
        apply_code_diffs: &ActionPermission,
    ) -> (r: Option<AIExecutionProfilesModelEvent>)
        requires
            old(self).wf(),
        ensures
            final(self).wf(),
            edit_happened(
                old(self)@,
                final(self)@,
                profile_id,
                ProfileEdit::ApplyCodeDiffs(*apply_code_diffs),
                r,
            ),
    {
        self.edit_profile(profile_id, &ProfileEdit::ApplyCodeDiffs(*apply_code_diffs))
    }

    pub fn set_read_files(
        &mut self,
        profile_id: ClientProfileId,
        read_files: &ActionPermission,
    ) -> (r: Option<AIExecutionProfilesModelEvent>)
        requires
            old(self).wf(),
        ensures
            final(self).wf(),
            edit_happened(
                old(self)@,
                final(self)@,
                profile_id,
                ProfileEdit::ReadFiles(*read_files),
                r,
            ),
    {
        self.edit_profile(profile_id, &ProfileEdit::ReadFiles(*read_files))
    }

    pub fn set_execute_commands(
        &mut self,
        profile_id: ClientProfileId,
        execute_commands: &ActionPermission,
    ) -> (r: Option<AIExecutionProfilesModelEvent>)
        requires
            old(self).wf(),
        ensures
            final(self).wf(),
            edit_happened(
                old(self)@,
                final(self)@,
                profile_id,
                ProfileEdit::ExecuteCommands(*execute_commands),
                r,
            ),
    {
        self.edit_profile(profile_id, &ProfileEdit::ExecuteCommands(*execute_commands))
    }

    pub fn set_write_to_pty(
        &mut self,
        profile_id: ClientProfileId,
        write_to_pty: &WriteToPtyPermission,
    ) -> (r: Option<AIExecutionProfilesModelEvent>)
        requires
            old(self).wf(),
        ensures
            final(self).wf(),
            edit_happened(
                old(self)@,
                final(self)@,
                profile_id,
                ProfileEdit::WriteToPty(*write_to_pty),
                r,
            ),
    {
        self.edit_profile(profile_id, &ProfileEdit::WriteToPty(*write_to_pty))
    }

    pub fn set_mcp_permissions(
        &mut self,
        profile_id: ClientProfileId,
        mcp_permissions: &ActionPermission,
    ) -> (r: Option<AIExecutionProfilesModelEvent>)
        requires
            old(self).wf(),
        ensures
            final(self).wf(),
            edit_happened(
                old(self)@,
                final(self)@,
                profile_id,
                ProfileEdit::McpPermissions(*mcp_permissions),
                r,
            ),
    {
        self.edit_profile(profile_id, &ProfileEdit::McpPermissions(*mcp_permissions))
    }

    pub fn set_computer_use(
        &mut self,
        profile_id: ClientProfileId,
        permission: &ComputerUsePermission,
    ) -> (r: Option<AIExecutionProfilesModelEvent>)
        requires
            old(self).wf(),
        ensures
            final(self).wf(),
            edit_happened(
                old(self)@,
                final(self)@,
                profile_id,
                ProfileEdit::ComputerUse(*permission),
                r,
            ),
    {
        self.edit_profile(profile_id, &ProfileEdit::ComputerUse(*permission))
    }

    pub fn set_ask_user_question(
        &mut self,
        profile_id: ClientProfileId,
        permission: AskUserQuestionPermission,
    ) -> (r: Option<AIExecutionProfilesModelEvent>)
        requires
            old(self).wf(),
        ensures
            final(self).wf(),
            edit_happened(
                old(self)@,
                final(self)@,
                profile_id,
                ProfileEdit::AskUserQuestion(permission),
                r,
            ),
    {
        self.edit_profile(profile_id, &ProfileEdit::AskUserQuestion(permission))
    }

    pub fn set_web_search_enabled(
        &mut self,
        profile_id: ClientProfileId,
        enabled: bool,
    ) -> (r: Option<AIExecutionProfilesModelEvent>)
        requires
            old(self).wf(),
        ensures
            final(self).wf(),
            edit_happened(
                old(self)@,
                final(self)@,
                profile_id,
                ProfileEdit::WebSearchEnabled(enabled),
                r,
            ),
    {
        self.edit_profile(profile_id, &ProfileEdit::WebSearchEnabled(enabled))
    }

    pub fn set_profile_name(&mut self, profile_id: ClientProfileId, name: &str) -> (r: Option<
        AIExecutionProfilesModelEvent,
    >)
        requires
            old(self).wf(),
        ensures
            final(self).wf(),
            edit_happened(
                old(self)@,
                final(self)@,
                profile_id,
                ProfileEdit::Name(name@),
                r,
            ),
    {
        self.edit_profile(profile_id, &ProfileEdit::Name(name.to_owned()))
    }

    pub fn add_to_command_allowlist(
        &mut self,
        profile_id: ClientProfileId,
        predicate: &str,
    ) -> (r: Option<AIExecutionProfilesModelEvent>)
        requires
            old(self).wf(),
        ensures
            final(self).wf(),
            edit_happened(
                old(self)@,
                final(self)@,
                profile_id,
                ProfileEdit::AllowCommand(predicate@),
                r,
            ),
    {
        self.edit_profile(profile_id, &ProfileEdit::AllowCommand(predicate.to_owned()))
    }

    pub fn remove_from_command_allowlist(
        &mut self,
        profile_id: ClientProfileId,
        predicate: &str,
    ) -> (r: Option<AIExecutionProfilesModelEvent>)
        requires
            old(self).wf(),
        ensures
            final(self).wf(),
            edit_happened(
                old(self)@,
                final(self)@,
                profile_id,
                ProfileEdit::UnallowCommand(predicate@),
                r,
            ),
    {
        self.edit_profile(profile_id, &ProfileEdit::UnallowCommand(predicate.to_owned()))
    }

    pub fn add_to_directory_allowlist(
        &mut self,
        profile_id: ClientProfileId,
        path: &str,
    ) -> (r: Option<AIExecutionProfilesModelEvent>)
        requires
            old(self).wf(),
        ensures
            final(self).wf(),
            edit_happened(
                old(self)@,
                final(self)@,
                profile_id,
                ProfileEdit::AllowDirectory(path@),
                r,
            ),
    {
        self.edit_profile(profile_id, &ProfileEdit::AllowDirectory(path.to_owned()))
    }

    pub fn remove_from_directory_allowlist(
        &mut self,
        profile_id: ClientProfileId,
        path: &str,
    ) -> (r: Option<AIExecutionProfilesModelEvent>)
        requires
            old(self).wf(),
        ensures
            final(self).wf(),
            edit_happened(
                old(self)@,
                final(self)@,
                profile_id,
                ProfileEdit::UnallowDirectory(path@),
                r,
            ),
    {
        self.edit_profile(profile_id, &ProfileEdit::UnallowDirectory(path.to_owned()))
    }

    pub fn add_to_command_denylist(
        &mut self,
        profile_id: ClientProfileId,
        predicate: &str,
    ) -> (r: Option<AIExecutionProfilesModelEvent>)
        requires
            old(self).wf(),
        ensures
            final(self).wf(),
            edit_happened(
                old(self)@,
                final(self)@,
                profile_id,
                ProfileEdit::DenyCommand(predicate@),
                r,
            ),
    {
        self.edit_profile(profile_id, &ProfileEdit::DenyCommand(predicate.to_owned()))
    }

    pub fn remove_from_command_denylist(
        &mut self,
        profile_id: ClientProfileId,
        predicate: &str,
    ) -> (r: Option<AIExecutionProfilesModelEvent>)
        requires
            old(self).wf(),
        ensures
            final(self).wf(),
            edit_happened(
                old(self)@,
                final(self)@,
                profile_id,
                ProfileEdit::UndenyCommand(predicate@),
                r,
            ),
    {
        self.edit_profile(profile_id, &ProfileEdit::UndenyCommand(predicate.to_owned()))
    }

    pub fn add_to_mcp_allowlist(&mut self, profile_id: ClientProfileId, id: &u128) -> (r: Option<
        AIExecutionProfilesModelEvent,
    >)
        requires
            old(self).wf(),
        ensures
            final(self).wf(),
            edit_happened(
                old(self)@,
                final(self)@,
                profile_id,
                ProfileEdit::AllowMcp(*id),
                r,
            ),
    {
        self.edit_profile(profile_id, &ProfileEdit::AllowMcp(*id))
    }

    pub fn remove_from_mcp_allowlist(
        &mut self,
        profile_id: ClientProfileId,
        id: &u128,
    ) -> (r: Option<AIExecutionProfilesModelEvent>)
        requires
            old(self).wf(),
        ensures
            final(self).wf(),
            edit_happened(
                old(self)@,
                final(self)@,
                profile_id,
                ProfileEdit::UnallowMcp(*id),
                r,
            ),
    {
        self.edit_profile(profile_id, &ProfileEdit::UnallowMcp(*id))
    }

    pub fn add_to_mcp_denylist(&mut self, profile_id: ClientProfileId, id: &u128) -> (r: Option<
        AIExecutionProfilesModelEvent,
    >)
        requires
            old(self).wf(),
        ensures
            final(self).wf(),
            edit_happened(
                old(self)@,
                final(self)@,
                profile_id,
                ProfileEdit::DenyMcp(*id),
                r,
            ),
    {
        self.edit_profile(profile_id, &ProfileEdit::DenyMcp(*id))
    }

    pub fn remove_from_mcp_denylist(
        &mut self,
        profile_id: ClientProfileId,
        id: &u128,
    ) -> (r: Option<AIExecutionProfilesModelEvent>)
        requires
            old(self).wf(),
        ensures
            final(self).wf(),
            edit_happened(
                old(self)@,
                final(self)@,
                profile_id,
                ProfileEdit::UndenyMcp(*id),
                r,
            ),
    {
        self.edit_profile(profile_id, &ProfileEdit::UndenyMcp(*id))
    }

    /// Takes servers that no longer exist out of every profile, and returns
    /// what has happened.
    pub fn remove_deleted_mcp_servers(&mut self, valid: &Vec<u128>) -> (r: Vec<
        AIExecutionProfilesModelEvent,
    >)
        requires
            old(self).wf(),
        ensures
            final(self).wf(),
            servers_dropped(old(self)@, final(self)@, valid@),
            forall|id: ClientProfileId| #[trigger]
                r@.contains(AIExecutionProfilesModelEvent::ProfileUpdated(id)) <==> old(
                    self,
                )@.changes(id, ProfileEdit::KeepMcpServers(valid@)),
            forall|i: int| 0 <= i < r@.len() ==> (#[trigger] r@[i]) is ProfileUpdated,
            r@.no_duplicates(),
    {
        let ghost before = self@;
        let ghost edit: EditModel = ProfileEdit::KeepMcpServers(valid@);
        let profile_ids = self.get_all_profile_ids();
        let mut events: Vec<AIExecutionProfilesModelEvent> = Vec::new();
        let mut i: usize = 0;
        while i < profile_ids.len()
            invariant
                self.wf(),
                before.valid(),
                i <= profile_ids.len(),
                profile_ids@.no_duplicates(),
                edit == (ProfileEdit::<Seq<char>, Seq<char>, Seq<u128>>::KeepMcpServers(valid@)),
                forall|id: ClientProfileId| #[trigger]
                    profile_ids@.contains(id) <==> before.profile(id) is Some,
                default_id(self@.default) == default_id(before.default),
                self@.default is Cli == before.default is Cli,
                self@.active == before.active,
                self@.next == before.next,
                forall|id: ClientProfileId|
                    (#[trigger] self@.profile(id)) is Some <==> before.profile(id) is Some,
                forall|j: int|
                    i <= j < profile_ids@.len() ==> self@.profile(#[trigger] profile_ids@[j])
                        == before.profile(profile_ids@[j]),
                forall|j: int|
                    0 <= j < i ==> dropped_from(
                        before,
                        self@,
                        #[trigger] profile_ids@[j],
                        edit,
                    ),
                forall|k: int| 0 <= k < events@.len() ==> (#[trigger] events@[k]) is ProfileUpdated,
                events@.no_duplicates(),
                forall|id: ClientProfileId| #[trigger]
                    events@.contains(AIExecutionProfilesModelEvent::ProfileUpdated(id)) <==> (
                    exists|j: int|
                        0 <= j < i && #[trigger] profile_ids@[j] == id && before.changes(id, edit)),
            decreases profile_ids.len() - i,
        {
            let id = profile_ids[i];
            let ghost now = self@;
            let ghost old_events = events@;
            assert(profile_ids@.contains(id));
            assert(now.changes(id, edit) == before.changes(id, edit));
            let request = ProfileEdit::KeepMcpServers(clone_u128s(valid));
            assert(request@ == edit);
            let fresh = SyncId(ids::random_uuid());
            let event = self.edit_profile_as(id, &request, fresh);
            proof {
                let after = self@;
                assert(after == now.edit(id, edit, fresh));
                assert forall|other: ClientProfileId| other != id implies #[trigger] after.profile(
                    other,
                ) == now.profile(other) by {}
                assert(after.profile(id) is Some);
                assert(dropped_from(before, after, id, edit));
                assert forall|j: int| 0 <= j < i implies dropped_from(
                    before,
                    after,
                    #[trigger] profile_ids@[j],
                    edit,
                ) by {
                    assert(profile_ids@[j] != id);
                    assert(dropped_from(before, now, profile_ids@[j], edit));
                }
                assert forall|j: int| i + 1 <= j < profile_ids@.len() implies after.profile(
                    #[trigger] profile_ids@[j],
                ) == before.profile(profile_ids@[j]) by {
                    assert(profile_ids@[j] != id);
                }
            }
            if let Some(event) = event {
                assert(!old_events.contains(AIExecutionProfilesModelEvent::ProfileUpdated(id)));
                events.push(event);
            }
            proof {
                assert forall|other: ClientProfileId| #[trigger]
                    events@.contains(AIExecutionProfilesModelEvent::ProfileUpdated(other)) <==> (
                    exists|j: int|
                        0 <= j < i + 1 && #[trigger] profile_ids@[j] == other && before.changes(
                            other,
                            edit,
                        )) by {
                    let wanted = AIExecutionProfilesModelEvent::ProfileUpdated(other);
                    if old_events.contains(wanted) {
                        let k = choose|k: int| 0 <= k < old_events.len() && old_events[k] == wanted;
                        assert(events@[k] == wanted);
                        let j = choose|j: int|
                            0 <= j < i && #[trigger] profile_ids@[j] == other && before.changes(
                                other,
                                edit,
                            );
                        assert(profile_ids@[j] == other);
                    }
                    if events@.contains(wanted) && !old_events.contains(wanted) {
                        let k = choose|k: int| 0 <= k < events@.len() && events@[k] == wanted;
                        if k < old_events.len() {
                            assert(old_events[k] == wanted);
                        }
                        assert(profile_ids@[i as int] == other);
                    }
                    if profile_ids@[i as int] == other && before.changes(other, edit) {
                        assert(events@[events@.len() - 1] == wanted);
                    }
                }
            }
            i += 1;
        }
        proof {
            assert forall|id: ClientProfileId| #[trigger] dropped_from(
                before,
                self@,
                id,
                edit,
            ) by {
                if before.profile(id) is Some {
                    assert(profile_ids@.contains(id));
                    let j = choose|j: int| 0 <= j < profile_ids@.len() && profile_ids@[j] == id;
                    assert(dropped_from(before, self@, profile_ids@[j], edit));
                } else {
                    assert(self@.profile(id) is None);
                }
            }
            assert forall|id: ClientProfileId| #[trigger]
                events@.contains(AIExecutionProfilesModelEvent::ProfileUpdated(id))
                    <==> before.changes(id, edit) by {
                if before.changes(id, edit) {
                    assert(profile_ids@.contains(id));
                    let j = choose|j: int| 0 <= j < profile_ids@.len() && profile_ids@[j] == id;
                    assert(profile_ids@[j] == id);
                }
            }
        }
        events
    }

    /// The profiles that the program starts with, once the base model of an
    /// older setting, if there is one, has been taken over.
    pub fn new(
        launch: LaunchMode,
        saved: Option<PersistedAIExecutionProfiles>,
        profile: AIExecutionProfile,
        legacy: Option<LLMId>,
        ids: &mut ProfileIdSource,
    ) -> (r: Self)
        requires
            old(ids).next < usize::MAX,
            saved matches Some(persisted) ==> old(ids).next + persisted.profiles@.len()
                < usize::MAX,
        ensures
            r.wf(),
            final(ids).next == r@.next,
            ({
                let initial = initial_profiles(launch, saved, profile@, old(ids).next);
                match legacy {
                    None => r@ == initial,
                    Some(id) => exists|event: Option<AIExecutionProfilesModelEvent>|
                        #[trigger] edit_happened(
                            initial,
                            r@,
                            default_id(initial.default),
                            ProfileEdit::BaseModel(Some(id@)),
                            event,
                        ),
                }
            }),
    {
        let mut model = match launch {
            LaunchMode::CommandLine => Self::for_command_line(profile, ids),
            LaunchMode::App => match saved {
                Some(persisted) => Self::load_local_profiles(persisted, ids),
                None => Self::with_default(profile, ids),
            },
        };
        let _ = model.inherit_base_model(legacy);
        model
    }

    /// Takes over the model that an older setting names as the base model of
    /// the default profile.
    pub fn inherit_base_model(&mut self, legacy: Option<LLMId>) -> (r: Option<
        AIExecutionProfilesModelEvent,
    >)
        requires
            old(self).wf(),
        ensures
            final(self).wf(),
            match legacy {
                None => final(self)@ == old(self)@ && r is None,
                Some(id) => edit_happened(
                    old(self)@,
                    final(self)@,
                    default_id(old(self)@.default),
                    ProfileEdit::BaseModel(Some(id@)),
                    r,
                ),
            },
    {
        match legacy {
            None => None,
            Some(id) => {
                let default = self.default_profile_state.id();
                self.set_base_model(default, Some(id))
            },
        }
    }
}

/// The model that an older setting names, where `reading` is what the setting
/// was read as.
pub open spec fn legacy_model(reading: Option<Option<Seq<char>>>) -> Option<Seq<char>> {
    match reading {
        Some(value) => value,
        None => None,
    }
}

/// Finds the model that an older setting names, from what it was read as.
pub fn legacy_base_model_as(reading: Option<Option<String>>) -> (r: Option<LLMId>)
    ensures
        match r {
            Some(id) => legacy_model(json_text::string_outcome(reading)) == Some(id@),
            None => legacy_model(json_text::string_outcome(reading)) is None,
        },
{
    match reading {
        Some(Some(value)) => Some(LLMId(value)),
        _ => None,
    }
}

/// Finds the model that an older setting names.
pub fn legacy_base_model(setting: &str) -> (r: Option<LLMId>)
    ensures
        match r {
            Some(id) => legacy_model(json_text::parsed_string(setting@)) == Some(id@),
            None => legacy_model(json_text::parsed_string(setting@)) is None,
        },
{
    legacy_base_model_as(json_text::read_string(setting))
}

/// Whether that is what is to be saved: all the profiles, or nothing where the
/// default one has no lasting identity.
pub open spec fn is_what_is_saved(m: ProfilesModel, r: Option<PersistedAIExecutionProfiles>) -> bool {
    match r {
        None => !is_saved(m.default),
        Some(all) => {
            &&& is_saved(m.default)
            &&& Some(all.default_profile.id) == default_info(m.default).sync_id
            &&& all.default_profile.profile@ == default_info(m.default).data
            &&& exists|keys: Seq<usize>| #[trigger] lists_profiles(
                keys,
                all.profiles@,
                m.profiles,
            )
        },
    }
}

/// Whether a list holds the saved profiles of those identities, which are all.
pub open spec fn lists_profiles(
    keys: Seq<usize>,
    listed: Seq<PersistedAIExecutionProfile>,
    profiles: Map<usize, SavedModel>,
) -> bool {
    &&& keys.no_duplicates()
    &&& keys.len() == listed.len()
    &&& forall|key: usize| #[trigger] keys.contains(key) <==> profiles.contains_key(key)
    &&& forall|i: int| 0 <= i < listed.len() ==> (#[trigger] listed[i])@ == profiles[keys[i]]
}

/// Whether a profile was changed and what came of it.
pub open spec fn edit_happened(
    before: ProfilesModel,
    after: ProfilesModel,
    id: ClientProfileId,
    edit: EditModel,
    event: Option<AIExecutionProfilesModelEvent>,
) -> bool {
    &&& exists|fresh: SyncId|
        ids::is_v4(fresh.0) && after == #[trigger] before.edit(id, edit, fresh)
    &&& event == (if before.changes(id, edit) {
        Some(AIExecutionProfilesModelEvent::ProfileUpdated(id))
    } else {
        None
    })
}

/// Whether a profile has the lasting identity that it had, or, where it was
/// changed and had none, a fresh one.
pub open spec fn identity_kept(
    before: Option<SyncId>,
    after: Option<SyncId>,
    changed: bool,
) -> bool {
    if changed && before is None {
        after matches Some(id) && ids::is_v4(id.0)
    } else {
        after == before
    }
}

/// Whether one profile was changed, where it may be.
pub open spec fn dropped_from(
    before: ProfilesModel,
    after: ProfilesModel,
    id: ClientProfileId,
    edit: EditModel,
) -> bool {
    match before.profile(id) {
        None => after.profile(id) is None,
        Some(info) => {
            &&& after.profile(id) is Some
            &&& identity_kept(
                info.sync_id,
                after.profile(id)->0.sync_id,
                before.changes(id, edit),
            )
            &&& after.profile(id)->0.data == (if before.changes(id, edit) {
                edited(info.data, edit)
            } else {
                info.data
            })
        },
    }
}

/// Whether every profile was left with the given servers alone, and nothing
/// else happened.
pub open spec fn servers_dropped(before: ProfilesModel, after: ProfilesModel, valid: Seq<u128>) -> bool {
    &&& default_id(after.default) == default_id(before.default)
    &&& after.active == before.active
    &&& after.next == before.next
    &&& forall|id: ClientProfileId| #[trigger]
        dropped_from(before, after, id, ProfileEdit::KeepMcpServers(valid))
}

/// Well-formed profiles are valid ones.
pub proof fn lemma_profiles_wf(p: AIExecutionProfilesModel)
    requires
        p.wf(),
    ensures
        p@.valid(),
{
}

/// What a change of one profile leaves as it is, and what it makes of that
/// profile. A profile that may not be changed stays.
pub proof fn lemma_edit_frame(m: ProfilesModel, id: ClientProfileId, edit: EditModel, fresh: SyncId)
    requires
        m.valid(),
    ensures
        m.edit(id, edit, fresh).valid(),
        default_id(m.edit(id, edit, fresh).default) == default_id(m.default),
        m.edit(id, edit, fresh).default is Cli == m.default is Cli,
        m.edit(id, edit, fresh).active == m.active,
        m.edit(id, edit, fresh).next == m.next,
        forall|other: ClientProfileId|
            other != id ==> (#[trigger] m.edit(id, edit, fresh).profile(other)) == m.profile(other),
        m.profile(id) is None ==> m.edit(id, edit, fresh).profile(id) is None,
        m.profile(id) matches Some(info) ==> m.edit(id, edit, fresh).profile(id) is Some
            && m.edit(id, edit, fresh).profile(id)->0.data == (if m.editable(id) {
            edited(info.data, edit)
        } else {
            info.data
        }) && (ids::is_v4(fresh.0) ==> identity_kept(
            info.sync_id,
            m.edit(id, edit, fresh).profile(id)->0.sync_id,
            m.changes(id, edit),
        )),
{
}

// ---------------------------------------------------------------------------
// Laws.

/// The identities that a source hands out, one after the other, are all
/// different, whichever models they go to. `nexts` is the state of the source
/// before each of them and at the end.
pub proof fn law_identities_are_unique(nexts: Seq<nat>, drawn: Seq<ClientProfileId>)
    requires
        nexts.len() == drawn.len() + 1,
        forall|i: int|
            0 <= i < drawn.len() ==> drew(nexts[i], #[trigger] drawn[i], nexts[i + 1]),
    ensures
        drawn.no_duplicates(),
{
    assert forall|i: int, j: int| 0 <= i < j < drawn.len() implies drawn[i] != drawn[j] by {
        lemma_drawn(nexts, drawn, i, j);
    }
}

proof fn lemma_drawn(nexts: Seq<nat>, drawn: Seq<ClientProfileId>, i: int, j: int)
    requires
        nexts.len() == drawn.len() + 1,
        forall|i: int|
            0 <= i < drawn.len() ==> drew(nexts[i], #[trigger] drawn[i], nexts[i + 1]),
        0 <= i < j < drawn.len(),
    ensures
        drawn[i].0 < drawn[j].0,
    decreases j - i,
{
    assert(drew(nexts[i], drawn[i], nexts[i + 1]));
    assert(drew(nexts[j], drawn[j], nexts[j + 1]));
    if i + 1 < j {
        assert(drew(nexts[i + 1], drawn[i + 1], nexts[i + 2]));
        lemma_drawn(nexts, drawn, i + 1, j);
    }
}

/// A change that changes nothing leaves everything as it is; one that does
/// gives the default profile a lasting identity, whichever profile is changed.
pub proof fn law_edits_are_saved(
    m: ProfilesModel,
    id: ClientProfileId,
    edit: EditModel,
    fresh: SyncId,
)
    ensures
        !m.changes(id, edit) ==> m.edit(id, edit, fresh) == m,
        m.changes(id, edit) && m.default is Local ==> is_saved(m.edit(id, edit, fresh).default),
        default_info(m.default).sync_id is Some ==> default_info(
            m.edit(id, edit, fresh).default,
        ).sync_id == default_info(m.default).sync_id,
{
}

/// Whether what is to be saved holds a profile under a lasting identity.
pub open spec fn holds(all: PersistedAIExecutionProfiles, id: SyncId, profile: ProfileModel) -> bool {
    ||| all.default_profile.id == id && all.default_profile.profile@ == profile
    ||| exists|i: int|
        0 <= i < all.profiles@.len() && (#[trigger] all.profiles@[i]).id == id
            && all.profiles@[i].profile@ == profile
}

proof fn lemma_holds(m: ProfilesModel, all: PersistedAIExecutionProfiles, at: usize)
    requires
        is_what_is_saved(m, Some(all)),
        m.profiles.contains_key(at),
    ensures
        holds(all, m.profiles[at].id, m.profiles[at].profile),
{
    let keys = choose|keys: Seq<usize>| #[trigger] lists_profiles(
        keys,
        all.profiles@,
        m.profiles,
    );
    assert(keys.contains(at));
    let i = choose|i: int| 0 <= i < keys.len() && keys[i] == at;
    assert(all.profiles@[i]@ == m.profiles[keys[i]]);
}

/// A profile that was changed is saved as it was changed.
pub proof fn law_edited_profile_is_persisted(
    m: ProfilesModel,
    id: ClientProfileId,
    edit: EditModel,
    fresh: SyncId,
    saved: Option<PersistedAIExecutionProfiles>,
)
    requires
        m.changes(id, edit),
        m.default is Local,
        is_what_is_saved(m.edit(id, edit, fresh), saved),
    ensures
        saved is Some,
        m.edit(id, edit, fresh).profile(id) is Some,
        m.edit(id, edit, fresh).profile(id)->0.data == edited(m.profile(id)->0.data, edit),
        m.edit(id, edit, fresh).profile(id)->0.sync_id is Some,
        holds(
            saved->0,
            m.edit(id, edit, fresh).profile(id)->0.sync_id->0,
            edited(m.profile(id)->0.data, edit),
        ),
{
    if id != default_id(m.default) {
        lemma_holds(m.edit(id, edit, fresh), saved->0, id.0);
    }
}

/// A profile that was created is saved.
pub proof fn law_created_profile_is_persisted(
    m: ProfilesModel,
    at: usize,
    fresh: SyncId,
    for_default: SyncId,
    saved: Option<PersistedAIExecutionProfiles>,
)
    requires
        m.default is Local,
        is_what_is_saved(m.create(at, fresh, for_default), saved),
    ensures
        saved is Some,
        holds(saved->0, fresh, m.create(at, fresh, for_default).profiles[at].profile),
{
    lemma_holds(m.create(at, fresh, for_default), saved->0, at);
}

/// Whatever profiles there are besides a default one that can be saved, they
/// are saved.
pub proof fn law_stored_profiles_are_saved(
    m: ProfilesModel,
    at: usize,
    saved: Option<PersistedAIExecutionProfiles>,
)
    requires
        m.valid(),
        m.default is Local,
        m.profiles.contains_key(at),
        is_what_is_saved(m, saved),
    ensures
        saved is Some,
        holds(saved->0, m.profiles[at].id, m.profiles[at].profile),
{
    lemma_holds(m, saved->0, at);
}

proof fn lemma_loaded(saved: Seq<PersistedAIExecutionProfile>, from: nat, n: int, i: int)
    requires
        0 <= i < n <= saved.len(),
        from + saved.len() <= usize::MAX,
    ensures
        loaded(saved, from, n).contains_key((from + i) as usize),
        loaded(saved, from, n)[(from + i) as usize] == (SavedModel {
            id: saved[i].id,
            profile: ProfileModel { is_default_profile: false, ..saved[i].profile@ },
        }),
    decreases n,
{
    if i < n - 1 {
        lemma_loaded(saved, from, n - 1, i);
    }
}

/// What was saved is loaded again: the default profile as the default one, and
/// every other one under its lasting identity.
pub proof fn law_saved_profiles_are_loaded(
    m: ProfilesModel,
    all: PersistedAIExecutionProfiles,
    from: usize,
    at: usize,
)
    requires
        is_what_is_saved(m, Some(all)),
        from + all.profiles@.len() < usize::MAX,
    ensures
        ({
            let again = saved_profiles(all, from);
            &&& default_info(again.default).sync_id == default_info(m.default).sync_id
            &&& default_info(again.default).data == (ProfileModel {
                is_default_profile: true,
                ..default_info(m.default).data
            })
            &&& m.profiles.contains_key(at) ==> exists|k: usize| #[trigger]
                again.profiles.contains_key(k) && again.profiles[k] == (SavedModel {
                    id: m.profiles[at].id,
                    profile: ProfileModel {
                        is_default_profile: false,
                        ..m.profiles[at].profile
                    },
                })
        }),
{
    if m.profiles.contains_key(at) {
        let keys = choose|keys: Seq<usize>| #[trigger] lists_profiles(
            keys,
            all.profiles@,
            m.profiles,
        );
        assert(keys.contains(at));
        let i = choose|i: int| 0 <= i < keys.len() && keys[i] == at;
        assert(all.profiles@[i]@ == m.profiles[keys[i]]);
        lemma_loaded(all.profiles@, (from + 1) as nat, all.profiles@.len() as int, i);
        let k = (from + 1 + i) as usize;
        assert(saved_profiles(all, from).profiles.contains_key(k));
    }
}

/// The same change made twice is the same as made once.
pub proof fn law_edits_are_idempotent(p: ProfileModel, edit: EditModel)
    ensures
        edited(edited(p, edit), edit) == edited(p, edit),
{
    match edit {
        ProfileEdit::AllowCommand(s) => {
            lemma_with_idempotent(p.command_allowlist, s);
        },
        ProfileEdit::UnallowCommand(s) => {
            lemma_without_idempotent(p.command_allowlist, s);
        },
        ProfileEdit::DenyCommand(s) => {
            lemma_with_idempotent(p.command_denylist, s);
        },
        ProfileEdit::UndenyCommand(s) => {
            lemma_without_idempotent(p.command_denylist, s);
        },
        ProfileEdit::AllowDirectory(s) => {
            lemma_with_idempotent(p.directory_allowlist, s);
        },
        ProfileEdit::UnallowDirectory(s) => {
            lemma_without_idempotent(p.directory_allowlist, s);
        },
        ProfileEdit::AllowMcp(id) => {
            lemma_with_idempotent(p.mcp_allowlist, id);
        },
        ProfileEdit::UnallowMcp(id) => {
            lemma_without_idempotent(p.mcp_allowlist, id);
        },
        ProfileEdit::DenyMcp(id) => {
            lemma_with_idempotent(p.mcp_denylist, id);
        },
        ProfileEdit::UndenyMcp(id) => {
            lemma_without_idempotent(p.mcp_denylist, id);
        },
        ProfileEdit::KeepMcpServers(kept) => {
            lemma_only_idempotent(p.mcp_allowlist, kept);
            lemma_only_idempotent(p.mcp_denylist, kept);
        },
        _ => {},
    }
}

proof fn lemma_with_idempotent<T>(s: Seq<T>, item: T)
    ensures
        with_item(with_item(s, item), item) == with_item(s, item),
{
    if !s.contains(item) {
        assert(s.push(item)[s.len() as int] == item);
    }
}

proof fn lemma_without_idempotent<T>(s: Seq<T>, item: T)
    ensures
        without_item(without_item(s, item), item) == without_item(s, item),
        !without_item(s, item).contains(item),
    decreases s.len(),
{
    if s.len() > 0 {
        lemma_without_idempotent(s.drop_last(), item);
        if s.last() != item {
            let t = without_item(s.drop_last(), item);
            assert(t.push(s.last()).drop_last() =~= t);
            assert forall|i: int| 0 <= i < t.push(s.last()).len() implies t.push(s.last())[i]
                != item by {
                if i < t.len() {
                    assert(t.contains(t[i]));
                }
            }
        }
    }
}

proof fn lemma_only_idempotent<T>(s: Seq<T>, kept: Seq<T>)
    ensures
        only_items(only_items(s, kept), kept) == only_items(s, kept),
    decreases s.len(),
{
    if s.len() > 0 {
        lemma_only_idempotent(s.drop_last(), kept);
        if kept.contains(s.last()) {
            let t = only_items(s.drop_last(), kept);
            assert(t.push(s.last()).drop_last() =~= t);
        }
    }
}

/// A terminal whose profile is deleted uses the default one.
pub proof fn law_deleted_profile_gives_way(m: ProfilesModel, id: ClientProfileId, view: EntityId)
    requires
        m.valid(),
        m.deletable(id),
        m.active.contains_key(view.0),
        m.active[view.0] == id,
    ensures
        m.delete(id).active_profile(Some(view)) == default_info(m.default),
        m.delete(id).profile(id) is None,
{
}

/// A created profile is there under a new identity, no other profile has
/// changed, and the default one has changed in its lasting identity alone.
pub proof fn law_created_profile_is_new(
    m: ProfilesModel,
    at: usize,
    fresh: SyncId,
    for_default: SyncId,
    other: ClientProfileId,
)
    requires
        m.valid(),
        m.next <= at,
    ensures
        m.profile(ClientProfileId(at)) is None,
        m.create(at, fresh, for_default).profile(ClientProfileId(at)) is Some,
        other.0 != at && other != default_id(m.default) ==> m.create(
            at,
            fresh,
            for_default,
        ).profile(other) == m.profile(other),
        default_id(m.create(at, fresh, for_default).default) == default_id(m.default),
        default_info(m.create(at, fresh, for_default).default).data == default_info(
            m.default,
        ).data,
        default_info(m.default).sync_id is Some ==> m.create(at, fresh, for_default).default
            == m.default,
        m.create(at, fresh, for_default).valid(),
{
}

/// Adding puts an item into a list, removing takes it out, and keeping leaves
/// the given items alone; nothing else comes or goes.
pub proof fn law_items_of_lists<T>(s: Seq<T>, item: T, kept: Seq<T>, other: T)
    ensures
        with_item(s, item).contains(other) <==> s.contains(other) || other == item,
        with_item(s, item).len() <= s.len() + 1,
        s.is_prefix_of(with_item(s, item)),
        without_item(s, item).contains(other) <==> s.contains(other) && other != item,
        only_items(s, kept).contains(other) <==> s.contains(other) && kept.contains(other),
        !s.contains(item) ==> without_item(s, item) == s,
    decreases s.len(),
{
    assert(s.is_prefix_of(with_item(s, item)));
    if !s.contains(item) {
        let more = s.push(item);
        assert(more[s.len() as int] == item);
        if s.contains(other) {
            let k = choose|k: int| 0 <= k < s.len() && s[k] == other;
            assert(more[k] == other);
        }
        if more.contains(other) {
            let k = choose|k: int| 0 <= k < more.len() && more[k] == other;
            if k < s.len() {
                assert(s[k] == other);
            }
        }
    }
    if s.len() > 0 {
        let init = s.drop_last();
        law_items_of_lists(init, item, kept, other);
        assert(s.contains(other) <==> init.contains(other) || s.last() == other) by {
            if init.contains(other) {
                let k = choose|k: int| 0 <= k < init.len() && init[k] == other;
                assert(s[k] == other);
            }
            if s.contains(other) {
                let k = choose|k: int| 0 <= k < s.len() && s[k] == other;
                if k < init.len() {
                    assert(init[k] == other);
                }
            }
            if s.last() == other {
                assert(s[s.len() - 1] == other);
            }
        }
        lemma_pushed_item(without_item(init, item), s.last(), other);
        lemma_pushed_item(only_items(init, kept), s.last(), other);
        if !s.contains(item) {
            assert(s[s.len() - 1] != item);
            if init.contains(item) {
                let k = choose|k: int| 0 <= k < init.len() && init[k] == item;
                assert(s[k] == item);
            }
            assert(without_item(s, item) =~= s);
        }
    }
}

proof fn lemma_pushed_item<T>(s: Seq<T>, last: T, other: T)
    ensures
        s.push(last).contains(other) <==> s.contains(other) || last == other,
{
    let more = s.push(last);
    assert(more[s.len() as int] == last);
    if s.contains(other) {
        let k = choose|k: int| 0 <= k < s.len() && s[k] == other;
        assert(more[k] == other);
    }
    if more.contains(other) {
        let k = choose|k: int| 0 <= k < more.len() && more[k] == other;
        if k < s.len() {
            assert(s[k] == other);
        }
    }
}

/// A change sets what it names to what it says.
pub proof fn law_edits_set_what_they_name(
    before: AIExecutionProfile,
    edit: ProfileEdit,
    after: AIExecutionProfile,
)
    requires
        after@ == edited(before@, edit@),
    ensures
        match edit {
            ProfileEdit::BaseModel(id) => llms::id_opt(after.base_model) == llms::id_opt(id),
            ProfileEdit::CodingModel(id) => llms::id_opt(after.coding_model) == llms::id_opt(id),
            ProfileEdit::CliAgentModel(id) => llms::id_opt(after.cli_agent_model)
                == llms::id_opt(id),
            ProfileEdit::ComputerUseModel(id) => llms::id_opt(after.computer_use_model)
                == llms::id_opt(id),
            ProfileEdit::ContextWindowLimit(limit) => after.context_window_limit == limit,
            ProfileEdit::ApplyCodeDiffs(v) => after.apply_code_diffs == v,
            ProfileEdit::ReadFiles(v) => after.read_files == v,
            ProfileEdit::ExecuteCommands(v) => after.execute_commands == v,
            ProfileEdit::WriteToPty(v) => after.write_to_pty == v,
            ProfileEdit::McpPermissions(v) => after.mcp_permissions == v && (
            before.mcp_permissions != v && v is AlwaysAllow ==> after.mcp_allowlist@.len() == 0)
                && (before.mcp_permissions != v && v is AlwaysAsk ==> after.mcp_denylist@.len()
                == 0),
            ProfileEdit::ComputerUse(v) => after.computer_use == v,
            ProfileEdit::AskUserQuestion(v) => after.ask_user_question == v,
            ProfileEdit::WebSearchEnabled(on) => after.web_search_enabled == on,
            ProfileEdit::Name(name) => after.name@ == name@,
            ProfileEdit::AllowCommand(s) => text::texts(after.command_allowlist@) == with_item(
                text::texts(before.command_allowlist@),
                s@,
            ),
            ProfileEdit::UnallowCommand(s) => text::texts(after.command_allowlist@)
                == without_item(text::texts(before.command_allowlist@), s@),
            ProfileEdit::DenyCommand(s) => text::texts(after.command_denylist@) == with_item(
                text::texts(before.command_denylist@),
                s@,
            ),
            ProfileEdit::UndenyCommand(s) => text::texts(after.command_denylist@) == without_item(
                text::texts(before.command_denylist@),
                s@,
            ),
            ProfileEdit::AllowDirectory(s) => text::texts(after.directory_allowlist@) == with_item(
                text::texts(before.directory_allowlist@),
                s@,
            ),
            ProfileEdit::UnallowDirectory(s) => text::texts(after.directory_allowlist@)
                == without_item(text::texts(before.directory_allowlist@), s@),
            ProfileEdit::AllowMcp(id) => after.mcp_allowlist@ == with_item(
                before.mcp_allowlist@,
                id,
            ),
            ProfileEdit::UnallowMcp(id) => after.mcp_allowlist@ == without_item(
                before.mcp_allowlist@,
                id,
            ),
            ProfileEdit::DenyMcp(id) => after.mcp_denylist@ == with_item(before.mcp_denylist@, id),
            ProfileEdit::UndenyMcp(id) => after.mcp_denylist@ == without_item(
                before.mcp_denylist@,
                id,
            ),
            ProfileEdit::KeepMcpServers(kept) => after.mcp_allowlist@ == only_items(
                before.mcp_allowlist@,
                kept@,
            ) && after.mcp_denylist@ == only_items(before.mcp_denylist@, kept@),
        },
{
}

/// A change leaves what it does not name.
pub proof fn law_edits_leave_the_rest(
    before: AIExecutionProfile,
    edit: ProfileEdit,
    after: AIExecutionProfile,
)
    requires
        after@ == edited(before@, edit@),
    ensures
        after.is_default_profile == before.is_default_profile,
        after.autosync_plans_to_warp_drive == before.autosync_plans_to_warp_drive,
        !(edit is Name) ==> after.name@ == before.name@,
        !(edit is BaseModel) ==> llms::id_opt(after.base_model) == llms::id_opt(before.base_model),
        !(edit is CodingModel) ==> llms::id_opt(after.coding_model) == llms::id_opt(
            before.coding_model,
        ),
        !(edit is CliAgentModel) ==> llms::id_opt(after.cli_agent_model) == llms::id_opt(
            before.cli_agent_model,
        ),
        !(edit is ComputerUseModel) ==> llms::id_opt(after.computer_use_model) == llms::id_opt(
            before.computer_use_model,
        ),
        !(edit is ContextWindowLimit) ==> after.context_window_limit
            == before.context_window_limit,
        !(edit is ApplyCodeDiffs) ==> after.apply_code_diffs == before.apply_code_diffs,
        !(edit is ReadFiles) ==> after.read_files == before.read_files,
        !(edit is ExecuteCommands) ==> after.execute_commands == before.execute_commands,
        !(edit is WriteToPty) ==> after.write_to_pty == before.write_to_pty,
        !(edit is McpPermissions) ==> after.mcp_permissions == before.mcp_permissions,
        !(edit is ComputerUse) ==> after.computer_use == before.computer_use,
        !(edit is AskUserQuestion) ==> after.ask_user_question == before.ask_user_question,
        !(edit is WebSearchEnabled) ==> after.web_search_enabled == before.web_search_enabled,
        !(edit is AllowCommand || edit is UnallowCommand) ==> text::texts(after.command_allowlist@)
            == text::texts(before.command_allowlist@),
        !(edit is DenyCommand || edit is UndenyCommand) ==> text::texts(after.command_denylist@)
            == text::texts(before.command_denylist@),
        !(edit is AllowDirectory || edit is UnallowDirectory) ==> text::texts(
            after.directory_allowlist@,
        ) == text::texts(before.directory_allowlist@),
        !(edit is AllowMcp || edit is UnallowMcp || edit is KeepMcpServers || (
        edit is McpPermissions && edit->McpPermissions_0 is AlwaysAllow)) ==> after.mcp_allowlist@
            == before.mcp_allowlist@,
        !(edit is DenyMcp || edit is UndenyMcp || edit is KeepMcpServers || (edit is McpPermissions
            && edit->McpPermissions_0 is AlwaysAsk)) ==> after.mcp_denylist@
            == before.mcp_denylist@,
{
}

/// A new profile lets the agent decide, asks on the first write to a terminal,
/// lets it use no computer, and names nothing.
pub proof fn law_fresh_profiles(p: AIExecutionProfile)
    requires
        p@ == fresh_profile(),
    ensures
        p.name@.len() == 0,
        !p.is_default_profile,
        !p.autosync_plans_to_warp_drive,
        p.base_model is None,
        p.coding_model is None,
        p.cli_agent_model is None,
        p.computer_use_model is None,
        p.context_window_limit is None,
        p.apply_code_diffs is AgentDecides,
        p.read_files is AgentDecides,
        p.execute_commands is AgentDecides,
        p.mcp_permissions is AgentDecides,
        p.write_to_pty is AskOnFirstWrite,
        p.computer_use is Never,
        p.ask_user_question is AskExceptInAutoApprove,
        p.web_search_enabled,
        p.command_allowlist@.len() == 0,
        p.command_denylist@.len() == 0,
        p.directory_allowlist@.len() == 0,
        p.mcp_allowlist@.len() == 0,
        p.mcp_denylist@.len() == 0,
{
    assert(text::texts(p.command_allowlist@).len() == 0);
    assert(text::texts(p.command_denylist@).len() == 0);
    assert(text::texts(p.directory_allowlist@).len() == 0);
    assert(llms::id_opt(p.base_model) is None);
    assert(llms::id_opt(p.coding_model) is None);
    assert(llms::id_opt(p.cli_agent_model) is None);
    assert(llms::id_opt(p.computer_use_model) is None);
}

/// A terminal uses the profile that was chosen for it while that is there, and
/// else the default one.
pub proof fn law_active_profiles(m: ProfilesModel, view: EntityId)
    ensures
        m.active_profile(None) == m.profile(default_id(m.default))->0,
        !m.active.contains_key(view.0) ==> m.active_profile(Some(view)) == m.profile(
            default_id(m.default),
        )->0,
        m.active.contains_key(view.0) && m.profile(m.active[view.0]) is Some ==> m.active_profile(
            Some(view),
        ) == m.profile(m.active[view.0])->0,
        m.active.contains_key(view.0) && m.profile(m.active[view.0]) is None ==> m.active_profile(
            Some(view),
        ) == m.profile(default_id(m.default))->0,
{
}

/// A profile is found under its identity, with what is saved of it.
pub proof fn law_profiles_are_found(m: ProfilesModel, id: ClientProfileId)
    ensures
        m.profile(id) is Some <==> id == default_id(m.default) || m.profiles.contains_key(id.0),
        m.profile(id) is Some ==> m.profile(id)->0.id == id,
        id != default_id(m.default) && m.profiles.contains_key(id.0) ==> m.profile(id)->0.data
            == m.profiles[id.0].profile && m.profile(id)->0.sync_id == Some(
            m.profiles[id.0].id,
        ),
{
}

/// A change of a profile changes that one as asked for, where it may be changed,
/// and none of the others.
pub proof fn law_edits_change_one_profile(
    m: ProfilesModel,
    id: ClientProfileId,
    edit: EditModel,
    fresh: SyncId,
    other: ClientProfileId,
)
    ensures
        ({
            let after = m.edit(id, edit, fresh);
            let may_change = !(m.default is Cli && id == default_id(m.default));
            &&& m.profile(id) is Some && may_change ==> after.profile(id) is Some && after.profile(
                id,
            )->0.data == edited(m.profile(id)->0.data, edit)
            &&& !may_change ==> after == m
            &&& m.profile(id) is None ==> after == m
            &&& other != id && m.profile(other) is Some ==> after.profile(other) is Some
                && after.profile(other)->0.data == m.profile(other)->0.data
            &&& other != id && m.profile(other) is None ==> after.profile(other) is None
            &&& m.profile(other) is Some && m.profile(other)->0.sync_id is Some ==> after.profile(
                other,
            )->0.sync_id == m.profile(other)->0.sync_id
            &&& after.active == m.active
            &&& after.next == m.next
            &&& default_id(after.default) == default_id(m.default)
        }),
{
}

/// A created profile is the default one in all but its name and its marks.
pub proof fn law_created_profile_is_like_the_default(
    m: ProfilesModel,
    at: usize,
    fresh: SyncId,
    for_default: SyncId,
)
    requires
        m.valid(),
        m.next <= at,
    ensures
        ({
            let made = m.create(at, fresh, for_default).profile(ClientProfileId(at))->0;
            let model = default_info(m.default).data;
            &&& made.sync_id == Some(fresh)
            &&& made.data.name.len() == 0
            &&& !made.data.is_default_profile
            &&& !made.data.autosync_plans_to_warp_drive
            &&& made.data.base_model == model.base_model
            &&& made.data.coding_model == model.coding_model
            &&& made.data.cli_agent_model == model.cli_agent_model
            &&& made.data.computer_use_model == model.computer_use_model
            &&& made.data.context_window_limit == model.context_window_limit
            &&& made.data.apply_code_diffs == model.apply_code_diffs
            &&& made.data.read_files == model.read_files
            &&& made.data.execute_commands == model.execute_commands
            &&& made.data.write_to_pty == model.write_to_pty
            &&& made.data.mcp_permissions == model.mcp_permissions
            &&& made.data.computer_use == model.computer_use
            &&& made.data.ask_user_question == model.ask_user_question
            &&& made.data.web_search_enabled == model.web_search_enabled
            &&& made.data.command_allowlist == model.command_allowlist
            &&& made.data.command_denylist == model.command_denylist
            &&& made.data.directory_allowlist == model.directory_allowlist
            &&& made.data.mcp_allowlist == model.mcp_allowlist
            &&& made.data.mcp_denylist == model.mcp_denylist
            &&& m.create(at, fresh, for_default).active == m.active
            &&& m.create(at, fresh, for_default).next == at + 1
        }),
{
}

/// Deleting a profile takes that one, unless it is the default one, and leaves
/// every other profile and every terminal that uses another.
pub proof fn law_deletion_takes_one_profile(
    m: ProfilesModel,
    id: ClientProfileId,
    other: ClientProfileId,
    view: usize,
)
    ensures
        id == default_id(m.default) ==> m.delete(id) == m,
        m.profile(id) is None ==> m.delete(id) == m,
        id != default_id(m.default) ==> m.delete(id).profile(id) is None,
        other != id ==> m.delete(id).profile(other) == m.profile(other),
        m.active.contains_key(view) && m.active[view] != id ==> m.delete(id).active.contains_key(
            view,
        ) && m.delete(id).active[view] == m.active[view],
        id != default_id(m.default) && m.profile(id) is Some && m.active.contains_key(view)
            && m.active[view] == id ==> !m.delete(id).active.contains_key(view),
        !m.active.contains_key(view) ==> !m.delete(id).active.contains_key(view),
        m.delete(id).default == m.default,
        m.delete(id).next == m.next,
{
}

/// A command-line run has its own profile alone; the program has the saved ones,
/// or a default one where none were saved.
pub proof fn law_profiles_at_the_start(
    saved: PersistedAIExecutionProfiles,
    profile: ProfileModel,
    from: usize,
)
    ensures
        ({
            let run = initial_profiles(LaunchMode::CommandLine, Some(saved), profile, from);
            let fresh = initial_profiles(LaunchMode::App, None, profile, from);
            let known = initial_profiles(LaunchMode::App, Some(saved), profile, from);
            &&& run.default is Cli
            &&& default_info(run.default).data == profile
            &&& !run.editable(default_id(run.default))
            &&& forall|id: usize| !run.profiles.contains_key(id)
            &&& fresh.default is Local
            &&& default_info(fresh.default).data == profile
            &&& default_info(fresh.default).sync_id is None
            &&& forall|id: usize| !fresh.profiles.contains_key(id)
            &&& default_info(known.default).sync_id == Some(saved.default_profile.id)
            &&& default_info(known.default).data.is_default_profile
            &&& default_info(known.default).data == (ProfileModel {
                is_default_profile: true,
                ..saved.default_profile.profile@
            })
            &&& forall|view: usize| !known.active.contains_key(view)
        }),
{
}

/// Leaving only the given servers leaves every other choice of every profile,
/// and the profiles themselves.
pub proof fn law_servers_are_dropped_everywhere(
    before: ProfilesModel,
    after: ProfilesModel,
    valid: Seq<u128>,
    id: ClientProfileId,
    server: u128,
)
    requires
        servers_dropped(before, after, valid),
    ensures
        (after.profile(id) is Some) == (before.profile(id) is Some),
        before.profile(id) is Some && before.editable(id) ==> (after.profile(
            id,
        )->0.data.mcp_allowlist.contains(server) <==> before.profile(
            id,
        )->0.data.mcp_allowlist.contains(server) && valid.contains(server)),
        before.profile(id) is Some && before.editable(id) ==> (after.profile(
            id,
        )->0.data.mcp_denylist.contains(server) <==> before.profile(
            id,
        )->0.data.mcp_denylist.contains(server) && valid.contains(server)),
        before.profile(id) is Some ==> after.profile(id)->0.data == (ProfileModel {
            mcp_allowlist: after.profile(id)->0.data.mcp_allowlist,
            mcp_denylist: after.profile(id)->0.data.mcp_denylist,
            ..before.profile(id)->0.data
        }),
        before.profile(id) is Some && before.profile(id)->0.sync_id is Some ==> after.profile(
            id,
        )->0.sync_id == before.profile(id)->0.sync_id,
        after.active == before.active,
        default_id(after.default) == default_id(before.default),
{
    assert(dropped_from(before, after, id, ProfileEdit::KeepMcpServers(valid)));
    if before.profile(id) is Some {
        let data = before.profile(id)->0.data;
        law_items_of_lists(data.mcp_allowlist, server, valid, server);
        law_items_of_lists(data.mcp_denylist, server, valid, server);
    }
}

/// A change is told where something has changed, and only then; a profile keeps
/// its lasting identity, and one without gets one with its first change.
pub proof fn law_changes_are_told(
    before: ProfilesModel,
    after: ProfilesModel,
    id: ClientProfileId,
    edit: EditModel,
    event: Option<AIExecutionProfilesModelEvent>,
    was: Option<SyncId>,
    is_now: Option<SyncId>,
)
    ensures
        edit_happened(before, after, id, edit, event) ==> (event is Some <==> before.changes(
            id,
            edit,
        )) && (event is Some ==> event == Some(
            AIExecutionProfilesModelEvent::ProfileUpdated(id),
        )) && (event is None ==> after == before),
        identity_kept(was, is_now, false) <==> is_now == was,
        was is Some ==> (identity_kept(was, is_now, true) <==> is_now == was),
        was is None ==> (identity_kept(was, is_now, true) <==> (is_now matches Some(fresh)
            && ids::is_v4(fresh.0))),
{
}

/// An older setting names a model only where it was read as one.
pub proof fn law_older_settings(reading: Option<Option<Seq<char>>>)
    ensures
        legacy_model(reading) is Some <==> reading is Some && reading->0 is Some,
        legacy_model(reading) is Some ==> legacy_model(reading)->0 == reading->0->0,
{
}

} // verus!
