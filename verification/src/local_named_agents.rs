//! Local named agents: what a bundle may say, and what a run of one amounts to
//! under the overrides of a file and of the command line.

use crate::harness_availability::Harness;
use crate::ids;
use crate::json_tree;
use crate::json_tree::{JsonModel, JsonTree};
use crate::providers;
use crate::secrets;
use crate::text;
use vstd::prelude::*;

verus! {

/// The longest name, in characters.
pub const MAX_NAME_CHARS: usize = 256;

// ---------------------------------------------------------------------------
// Errors.

/// Why a named agent cannot be used, found or stored.
#[derive(Debug)]
pub enum NamedAgentError<S = String> {
    InvalidSelector { selector: S },
    InvalidBundle { reason: S },
    SecretValueRejected { field: S },
    AlreadyExists { id: u128 },
    NotFound { id: u128 },
    AmbiguousName { name: S },
    Conflict { id: u128, expected: S, actual: Option<S> },
    NotManaged { path: S },
    MultipleDocuments { path: S },
    Parse { path: S, location: S },
    Io { path: S, source: S },
    Serialize(S),
}

pub type ErrorModel = NamedAgentError<Seq<char>>;

impl View for NamedAgentError<String> {
    type V = ErrorModel;

    open spec fn view(&self) -> ErrorModel {
        match self {
            NamedAgentError::InvalidSelector { selector } => NamedAgentError::InvalidSelector {
                selector: selector@,
            },
            NamedAgentError::InvalidBundle { reason } => NamedAgentError::InvalidBundle {
                reason: reason@,
            },
            NamedAgentError::SecretValueRejected { field } =>
                NamedAgentError::SecretValueRejected { field: field@ },
            NamedAgentError::AlreadyExists { id } => NamedAgentError::AlreadyExists { id: *id },
            NamedAgentError::NotFound { id } => NamedAgentError::NotFound { id: *id },
            NamedAgentError::AmbiguousName { name } => NamedAgentError::AmbiguousName {
                name: name@,
            },
            NamedAgentError::Conflict { id, expected, actual } => NamedAgentError::Conflict {
                id: *id,
                expected: expected@,
                actual: text::text_opt(*actual),
            },
            NamedAgentError::NotManaged { path } => NamedAgentError::NotManaged { path: path@ },
            NamedAgentError::MultipleDocuments { path } => NamedAgentError::MultipleDocuments {
                path: path@,
            },
            NamedAgentError::Parse { path, location } => NamedAgentError::Parse {
                path: path@,
                location: location@,
            },
            NamedAgentError::Io { path, source } => NamedAgentError::Io {
                path: path@,
                source: source@,
            },
            NamedAgentError::Serialize(message) => NamedAgentError::Serialize(message@),
        }
    }
}

/// The text of an error.
pub open spec fn error_text(error: ErrorModel) -> Seq<char> {
    match error {
        NamedAgentError::InvalidSelector { selector } => "invalid named agent selector '"@
            + selector + "'"@,
        NamedAgentError::InvalidBundle { reason } => "named agent bundle is invalid: "@ + reason,
        NamedAgentError::SecretValueRejected { field } => "secret value rejected at "@ + field
            + "; use an environment-variable or keychain reference"@,
        NamedAgentError::AlreadyExists { id } => "named agent "@ + ids::hyphenated(id)
            + " already exists"@,
        NamedAgentError::NotFound { id } => "named agent "@ + ids::hyphenated(id)
            + " does not exist"@,
        NamedAgentError::AmbiguousName { name } => "named agent name '"@ + name
            + "' is ambiguous"@,
        NamedAgentError::Conflict { id, .. } => "named agent "@ + ids::hyphenated(id)
            + " changed while it was being edited"@,
        NamedAgentError::NotManaged { .. } => "named agent file is not a regular managed file"@,
        NamedAgentError::MultipleDocuments { .. } =>
            "named agent file contains multiple YAML documents"@,
        NamedAgentError::Parse { location, .. } => "could not parse named agent file at "@
            + location,
        NamedAgentError::Io { source, .. } => "could not access named agent file: "@ + source,
        NamedAgentError::Serialize(message) => "could not serialize named agent: "@ + message,
    }
}

impl NamedAgentError {
    /// The text of the error.
    pub fn message(&self) -> (r: String)
        ensures
            r@ == error_text(self@),
    {
        match self {
            NamedAgentError::InvalidSelector { selector } => text::concat3(
                "invalid named agent selector '",
                selector.as_str(),
                "'",
            ),
            NamedAgentError::InvalidBundle { reason } => text::joined(
                "named agent bundle is invalid: ",
                reason.as_str(),
            ),
            NamedAgentError::SecretValueRejected { field } => text::concat3(
                "secret value rejected at ",
                field.as_str(),
                "; use an environment-variable or keychain reference",
            ),
            NamedAgentError::AlreadyExists { id } => text::concat3(
                "named agent ",
                ids::uuid_text(*id).as_str(),
                " already exists",
            ),
            NamedAgentError::NotFound { id } => text::concat3(
                "named agent ",
                ids::uuid_text(*id).as_str(),
                " does not exist",
            ),
            NamedAgentError::AmbiguousName { name } => text::concat3(
                "named agent name '",
                name.as_str(),
                "' is ambiguous",
            ),
            NamedAgentError::Conflict { id, .. } => text::concat3(
                "named agent ",
                ids::uuid_text(*id).as_str(),
                " changed while it was being edited",
            ),
            NamedAgentError::NotManaged { .. } =>
                "named agent file is not a regular managed file".to_owned(),
            NamedAgentError::MultipleDocuments { .. } =>
                "named agent file contains multiple YAML documents".to_owned(),
            NamedAgentError::Parse { location, .. } => text::joined(
                "could not parse named agent file at ",
                location.as_str(),
            ),
            NamedAgentError::Io { source, .. } => text::joined(
                "could not access named agent file: ",
                source.as_str(),
            ),
            NamedAgentError::Serialize(message) => text::joined(
                "could not serialize named agent: ",
                message.as_str(),
            ),
        }
    }
}

pub open spec fn invalid(reason: Seq<char>) -> ErrorModel {
    NamedAgentError::InvalidBundle { reason }
}

pub open spec fn rejected(field: Seq<char>) -> ErrorModel {
    NamedAgentError::SecretValueRejected { field }
}

fn invalid_bundle(reason: &str) -> (r: NamedAgentError)
    ensures
        r@ == invalid(reason@),
{
    NamedAgentError::InvalidBundle { reason: reason.to_owned() }
}

fn secret_rejected(field: &str) -> (r: NamedAgentError)
    ensures
        r@ == rejected(field@),
{
    NamedAgentError::SecretValueRejected { field: field.to_owned() }
}

/// The problem that a check found, if any.
pub open spec fn problem_of(r: Result<(), NamedAgentError>) -> Option<ErrorModel> {
    match r {
        Ok(_) => None,
        Err(e) => Some(e@),
    }
}

/// The first of two problems.
pub open spec fn first_of(a: Option<ErrorModel>, b: Option<ErrorModel>) -> Option<ErrorModel> {
    if a is Some {
        a
    } else {
        b
    }
}

// ---------------------------------------------------------------------------
// What a bundle says.

/// References to credentials. The values are names; no secret is stored.
#[derive(Debug, PartialEq, Eq)]
pub struct AgentBundleSecretRefs {
    /// The environment variable of each secret, by the name of the secret in
    /// ascending order.
    pub env_vars: Vec<(String, String)>,
    /// The names of keychain entries.
    pub keychain_entries: Vec<String>,
}

/// What references to credentials say.
#[verifier::ext_equal]
pub struct SecretRefsModel {
    pub env_vars: Seq<(Seq<char>, Seq<char>)>,
    pub keychain_entries: Seq<Seq<char>>,
}

pub open spec fn text_pairs(v: Seq<(String, String)>) -> Seq<(Seq<char>, Seq<char>)> {
    Seq::new(v.len(), |i: int| (v[i].0@, v[i].1@))
}

impl View for AgentBundleSecretRefs {
    type V = SecretRefsModel;

    open spec fn view(&self) -> SecretRefsModel {
        SecretRefsModel {
            env_vars: text_pairs(self.env_vars@),
            keychain_entries: text::texts(self.keychain_entries@),
        }
    }
}

fn clone_pairs(v: &Vec<(String, String)>) -> (r: Vec<(String, String)>)
    ensures
        text_pairs(r@) == text_pairs(v@),
{
    let mut out: Vec<(String, String)> = Vec::new();
    let mut i: usize = 0;
    while i < v.len()
        invariant
            i <= v.len(),
            out.len() == i,
            forall|j: int|
                0 <= j < i ==> (#[trigger] out@[j]).0@ == v@[j].0@ && out@[j].1@ == v@[j].1@,
        decreases v.len() - i,
    {
        out.push((v[i].0.clone(), v[i].1.clone()));
        i += 1;
    }
    assert(text_pairs(out@) =~= text_pairs(v@));
    out
}

impl Clone for AgentBundleSecretRefs {
    fn clone(&self) -> (r: Self)
        ensures
            r@ == self@,
    {
        AgentBundleSecretRefs {
            env_vars: clone_pairs(&self.env_vars),
            keychain_entries: text::clone_strings(&self.keychain_entries),
        }
    }
}

impl Default for AgentBundleSecretRefs {
    fn default() -> (r: Self)
        ensures
            r@ == (SecretRefsModel { env_vars: Seq::empty(), keychain_entries: Seq::empty() }),
    {
        let r = AgentBundleSecretRefs { env_vars: Vec::new(), keychain_entries: Vec::new() };
        assert(r@ =~= (SecretRefsModel {
            env_vars: Seq::empty(),
            keychain_entries: Seq::empty(),
        }));
        r
    }
}

/// The parts of a reference to a skill.
#[derive(Debug, PartialEq, Eq)]
pub struct SkillSpec<S = String> {
    pub org: Option<S>,
    pub repo: Option<S>,
    pub skill_identifier: S,
}

/// A reference to a skill, with the parts that it was read as.
#[derive(Debug, PartialEq, Eq)]
pub struct SkillReference<S = String> {
    pub text: S,
    pub parsed: Result<SkillSpec<S>, S>,
}

pub type SkillModel = SkillReference<Seq<char>>;

impl View for SkillSpec<String> {
    type V = SkillSpec<Seq<char>>;

    open spec fn view(&self) -> SkillSpec<Seq<char>> {
        SkillSpec {
            org: text::text_opt(self.org),
            repo: text::text_opt(self.repo),
            skill_identifier: self.skill_identifier@,
        }
    }
}

impl View for SkillReference<String> {
    type V = SkillModel;

    open spec fn view(&self) -> SkillModel {
        SkillReference {
            text: self.text@,
            parsed: match self.parsed {
                Ok(spec) => Ok(spec@),
                Err(e) => Err(e@),
            },
        }
    }
}

impl Clone for SkillReference<String> {
    fn clone(&self) -> (r: Self)
        ensures
            r@ == self@,
    {
        SkillReference {
            text: self.text.clone(),
            parsed: match &self.parsed {
                Ok(spec) => Ok(
                    SkillSpec {
                        org: text::clone_opt(&spec.org),
                        repo: text::clone_opt(&spec.repo),
                        skill_identifier: spec.skill_identifier.clone(),
                    },
                ),
                Err(error) => Err(error.clone()),
            },
        }
    }
}

/// MCP servers by name, with what the MCP configuration rules object to in
/// them, if anything.
#[derive(Debug, PartialEq)]
pub struct McpServers {
    pub servers: Vec<(String, JsonTree)>,
    pub problem: Option<String>,
}

/// What a set of MCP servers says.
#[verifier::ext_equal]
pub struct ServersModel {
    pub servers: Seq<(Seq<char>, JsonModel)>,
    pub problem: Option<Seq<char>>,
}

impl View for McpServers {
    type V = ServersModel;

    open spec fn view(&self) -> ServersModel {
        ServersModel {
            servers: json_tree::members_of(self.servers@),
            problem: text::text_opt(self.problem),
        }
    }
}

impl Clone for McpServers {
    fn clone(&self) -> (r: Self)
        ensures
            r@ == self@,
    {
        let mut servers: Vec<(String, JsonTree)> = Vec::new();
        let mut i: usize = 0;
        while i < self.servers.len()
            invariant
                i <= self.servers.len(),
                servers.len() == i,
                forall|j: int|
                    0 <= j < i ==> (#[trigger] servers@[j]).0@ == self.servers@[j].0@
                        && servers@[j].1@ == self.servers@[j].1@,
            decreases self.servers.len() - i,
        {
            servers.push((self.servers[i].0.clone(), self.servers[i].1.clone()));
            i += 1;
        }
        assert(json_tree::members_of(servers@) =~= json_tree::members_of(self.servers@));
        McpServers { servers, problem: text::clone_opt(&self.problem) }
    }
}

/// What is stored of a named agent.
#[derive(Debug, PartialEq)]
pub struct NamedAgentBundle {
    pub name: String,
    pub description: Option<String>,
    pub base_prompt: Option<String>,
    /// A configured model, `custom/<provider>/<model>`, or a local router.
    pub model_id: String,
    pub profile_id: Option<String>,
    pub skills: Vec<SkillReference>,
    pub mcp_servers: Option<McpServers>,
    pub harness: Harness,
    pub computer_use_enabled: Option<bool>,
    pub secret_refs: Option<AgentBundleSecretRefs>,
}

/// What a bundle says.
#[verifier::ext_equal]
pub struct BundleModel {
    pub name: Seq<char>,
    pub description: Option<Seq<char>>,
    pub base_prompt: Option<Seq<char>>,
    pub model_id: Seq<char>,
    pub profile_id: Option<Seq<char>>,
    pub skills: Seq<SkillModel>,
    pub mcp_servers: Option<ServersModel>,
    pub harness: Harness,
    pub computer_use_enabled: Option<bool>,
    pub secret_refs: Option<SecretRefsModel>,
}

pub open spec fn skill_models(v: Seq<SkillReference>) -> Seq<SkillModel> {
    Seq::new(v.len(), |i: int| v[i]@)
}

pub open spec fn servers_opt(o: Option<McpServers>) -> Option<ServersModel> {
    match o {
        Some(servers) => Some(servers@),
        None => None,
    }
}

pub open spec fn secrets_opt(o: Option<AgentBundleSecretRefs>) -> Option<SecretRefsModel> {
    match o {
        Some(refs) => Some(refs@),
        None => None,
    }
}

pub open spec fn skill_opt(o: Option<SkillReference>) -> Option<SkillModel> {
    match o {
        Some(skill) => Some(skill@),
        None => None,
    }
}

impl View for NamedAgentBundle {
    type V = BundleModel;

    open spec fn view(&self) -> BundleModel {
        BundleModel {
            name: self.name@,
            description: text::text_opt(self.description),
            base_prompt: text::text_opt(self.base_prompt),
            model_id: self.model_id@,
            profile_id: text::text_opt(self.profile_id),
            skills: skill_models(self.skills@),
            mcp_servers: servers_opt(self.mcp_servers),
            harness: self.harness,
            computer_use_enabled: self.computer_use_enabled,
            secret_refs: secrets_opt(self.secret_refs),
        }
    }
}

fn clone_servers(o: &Option<McpServers>) -> (r: Option<McpServers>)
    ensures
        servers_opt(r) == servers_opt(*o),
{
    match o {
        Some(servers) => Some(servers.clone()),
        None => None,
    }
}

fn clone_secrets(o: &Option<AgentBundleSecretRefs>) -> (r: Option<AgentBundleSecretRefs>)
    ensures
        secrets_opt(r) == secrets_opt(*o),
{
    match o {
        Some(refs) => Some(refs.clone()),
        None => None,
    }
}

fn clone_skill(o: &Option<SkillReference>) -> (r: Option<SkillReference>)
    ensures
        skill_opt(r) == skill_opt(*o),
{
    match o {
        Some(skill) => Some(skill.clone()),
        None => None,
    }
}

fn clone_skills(v: &Vec<SkillReference>) -> (r: Vec<SkillReference>)
    ensures
        skill_models(r@) == skill_models(v@),
{
    let mut out: Vec<SkillReference> = Vec::new();
    let mut i: usize = 0;
    while i < v.len()
        invariant
            i <= v.len(),
            out.len() == i,
            forall|j: int| 0 <= j < i ==> (#[trigger] out@[j])@ == v@[j]@,
        decreases v.len() - i,
    {
        out.push(v[i].clone());
        i += 1;
    }
    assert(skill_models(out@) =~= skill_models(v@));
    out
}

impl Clone for NamedAgentBundle {
    fn clone(&self) -> (r: Self)
        ensures
            r@ == self@,
    {
        NamedAgentBundle {
            name: self.name.clone(),
            description: text::clone_opt(&self.description),
            base_prompt: text::clone_opt(&self.base_prompt),
            model_id: self.model_id.clone(),
            profile_id: text::clone_opt(&self.profile_id),
            skills: clone_skills(&self.skills),
            mcp_servers: clone_servers(&self.mcp_servers),
            harness: self.harness,
            computer_use_enabled: self.computer_use_enabled,
            secret_refs: clone_secrets(&self.secret_refs),
        }
    }
}

// ---------------------------------------------------------------------------
// Names, models, skills and prompts.

/// Whether a text holds a control character.
pub open spec fn has_control(s: Seq<char>) -> bool {
    exists|i: int| 0 <= i < s.len() && text::is_control_code(#[trigger] s[i])
}

fn contains_control(s: &str) -> (r: bool)
    ensures
        r == has_control(s@),
{
    let chars = text::chars_of(s);
    let mut i: usize = 0;
    while i < chars.len()
        invariant
            i <= chars.len(),
            chars@ == s@,
            forall|j: int| 0 <= j < i ==> !text::is_control_code(#[trigger] s@[j]),
        decreases chars.len() - i,
    {
        assert(chars@[i as int] == s@[i as int]);
        if chars[i].is_control() {
            return true;
        }
        i += 1;
    }
    false
}

pub open spec fn name_problem(name: Seq<char>) -> Option<ErrorModel> {
    let n = text::trimmed(name);
    if n.len() == 0 {
        Some(invalid("name must not be empty"@))
    } else if n.len() > MAX_NAME_CHARS {
        Some(invalid("name exceeds 256 characters"@))
    } else if has_control(n) {
        Some(invalid("name must not contain control characters"@))
    } else {
        None
    }
}

pub fn validate_name(name: &str) -> (r: Result<(), NamedAgentError>)
    ensures
        problem_of(r) == name_problem(name@),
{
    let name = text::trim(name);
    if name.as_str().is_empty() {
        return Err(invalid_bundle("name must not be empty"));
    }
    if text::char_count(name.as_str()) > MAX_NAME_CHARS {
        return Err(invalid_bundle("name exceeds 256 characters"));
    }
    if contains_control(name.as_str()) {
        return Err(invalid_bundle("name must not contain control characters"));
    }
    Ok(())
}

/// Whether a text can be a part of an identifier.
pub open spec fn is_segment(s: Seq<char>) -> bool {
    s.len() > 0 && !text::has_space(s)
}

/// Whether an identifier is that of a configured model.
pub open spec fn concrete_model(model_id: Seq<char>) -> bool {
    match providers::custom_model_parts(model_id) {
        Some((provider, model)) => is_segment(provider) && is_segment(model) && !model.contains(
            '/',
        ),
        None => false,
    }
}

/// Whether an identifier is that of a local router.
pub open spec fn local_router(model_id: Seq<char>) -> bool {
    match secrets::after(model_id, "custom-router:local:"@) {
        Some(key) => is_segment(key),
        None => false,
    }
}

pub open spec fn model_problem(model_id: Seq<char>) -> Option<ErrorModel> {
    if concrete_model(model_id) || local_router(model_id) {
        None
    } else {
        Some(
            invalid(
                "model_id must be a concrete custom/<provider>/<model> or local router id"@,
            ),
        )
    }
}

fn segment(s: &str) -> (r: bool)
    ensures
        r == is_segment(s@),
{
    let chars = text::chars_of(s);
    chars.len() > 0 && !text::contains_space(&chars)
}

pub fn validate_model_id(model_id: &str) -> (r: Result<(), NamedAgentError>)
    ensures
        problem_of(r) == model_problem(model_id@),
{
    let concrete = match providers::split_custom_model_id(model_id) {
        Some((provider, model)) => segment(provider.as_str()) && segment(model.as_str())
            && !text::contains_char(&text::chars_of(model.as_str()), '/'),
        None => false,
    };
    let router = match secrets::text_after(model_id, "custom-router:local:") {
        Some(key) => segment(key.as_str()),
        None => false,
    };
    if concrete || router {
        Ok(())
    } else {
        Err(
            invalid_bundle(
                "model_id must be a concrete custom/<provider>/<model> or local router id",
            ),
        )
    }
}

/// Whether a text names something local without leaving its directory.
pub open spec fn safe_component(value: Seq<char>) -> bool {
    let v = text::trimmed(value);
    v.len() > 0 && v != "."@ && v != ".."@ && !v.contains('/') && !v.contains('\\')
        && !has_control(v)
}

fn is_safe_skill_component(value: &str) -> (r: bool)
    ensures
        r == safe_component(value@),
{
    let v = text::trim(value);
    let chars = text::chars_of(v.as_str());
    chars.len() > 0 && !text::same_text(v.as_str(), ".") && !text::same_text(v.as_str(), "..")
        && !text::contains_char(&chars, '/') && !text::contains_char(&chars, '\\')
        && !contains_control(v.as_str())
}

/// What is wrong with a reference to a skill, if anything.
pub open spec fn skill_problem(skill: SkillModel) -> Option<Seq<char>> {
    match skill.parsed {
        Err(e) => Some("is invalid: "@ + e),
        Ok(spec) => if spec.org is Some && !safe_component(spec.org->0) {
            Some("org must be a single safe local component"@)
        } else if spec.repo is Some && !safe_component(spec.repo->0) {
            Some("repo must be a single safe local component"@)
        } else if !safe_component(spec.skill_identifier) {
            Some("identifier must be a single safe local component"@)
        } else {
            None
        },
    }
}

pub fn validate_skill_reference(skill: &SkillReference) -> (r: Result<(), String>)
    ensures
        match r {
            Ok(_) => skill_problem(skill@) is None,
            Err(reason) => skill_problem(skill@) == Some(reason@),
        },
{
    match &skill.parsed {
        Err(error) => Err(text::joined("is invalid: ", error.as_str())),
        Ok(spec) => {
            if let Some(org) = &spec.org {
                if !is_safe_skill_component(org.as_str()) {
                    return Err("org must be a single safe local component".to_owned());
                }
            }
            if let Some(repo) = &spec.repo {
                if !is_safe_skill_component(repo.as_str()) {
                    return Err("repo must be a single safe local component".to_owned());
                }
            }
            if !is_safe_skill_component(spec.skill_identifier.as_str()) {
                return Err("identifier must be a single safe local component".to_owned());
            }
            Ok(())
        },
    }
}

/// The problem with a reference to a skill that stands in a named place.
pub open spec fn skill_problem_at(skill: Option<SkillModel>, place: Seq<char>) -> Option<
    ErrorModel,
> {
    match skill {
        Some(skill) => match skill_problem(skill) {
            Some(reason) => Some(invalid(place + " "@ + reason)),
            None => None,
        },
        None => None,
    }
}

fn validate_skill_at(skill: &Option<SkillReference>, place: &str) -> (r: Result<
    (),
    NamedAgentError,
>)
    ensures
        problem_of(r) == skill_problem_at(skill_opt(*skill), place@),
{
    if let Some(skill) = skill {
        if let Err(reason) = validate_skill_reference(skill) {
            return Err(invalid_bundle(text::concat3(place, " ", reason.as_str()).as_str()));
        }
    }
    Ok(())
}

pub open spec fn prompt_problem(prompt: Option<Seq<char>>, field: Seq<char>) -> Option<ErrorModel> {
    if prompt is Some && secrets::secret_like(prompt->0) {
        Some(rejected(field))
    } else {
        None
    }
}

pub fn validate_prompt(prompt: &Option<String>, field: &str) -> (r: Result<(), NamedAgentError>)
    ensures
        problem_of(r) == prompt_problem(text::text_opt(*prompt), field@),
{
    if let Some(prompt) = prompt {
        if secrets::literal_secret_like(prompt.as_str()) {
            return Err(secret_rejected(field));
        }
    }
    Ok(())
}

/// Whether an optional text is there and blank.
pub open spec fn blank_opt(o: Option<Seq<char>>) -> bool {
    o is Some && text::is_blank(o->0)
}

fn is_blank_opt(o: &Option<String>) -> (r: bool)
    ensures
        r == blank_opt(text::text_opt(*o)),
{
    match o {
        Some(s) => text::blank(s.as_str()),
        None => false,
    }
}

// ---------------------------------------------------------------------------
// References to credentials.

/// Whether a reference to an environment variable is one.
pub open spec fn env_ref_ok(pair: (Seq<char>, Seq<char>)) -> bool {
    !text::is_blank(pair.0) && !has_control(pair.0) && secrets::env_var_name(pair.1)
}

pub open spec fn env_refs_problem(pairs: Seq<(Seq<char>, Seq<char>)>) -> Option<ErrorModel>
    decreases pairs.len(),
{
    if pairs.len() == 0 {
        None
    } else {
        first_of(
            env_refs_problem(pairs.drop_last()),
            if env_ref_ok(pairs.last()) {
                None
            } else {
                Some(rejected("secret_refs.env_vars."@ + pairs.last().0))
            },
        )
    }
}

pub open spec fn keychain_problem(entries: Seq<Seq<char>>) -> Option<ErrorModel>
    decreases entries.len(),
{
    if entries.len() == 0 {
        None
    } else {
        first_of(
            keychain_problem(entries.drop_last()),
            if text::is_blank(entries.last()) || has_control(entries.last()) {
                Some(
                    rejected(
                        "secret_refs.keychain_entries["@ + text::decimal(
                            (entries.len() - 1) as nat,
                        ) + "]"@,
                    ),
                )
            } else {
                None
            },
        )
    }
}

pub open spec fn secret_refs_problem(refs: SecretRefsModel) -> Option<ErrorModel> {
    first_of(env_refs_problem(refs.env_vars), keychain_problem(refs.keychain_entries))
}

/// A problem among the first elements is one of the whole list.
proof fn lemma_env_refs_prefix(pairs: Seq<(Seq<char>, Seq<char>)>, n: int)
    requires
        0 <= n <= pairs.len(),
        env_refs_problem(pairs.subrange(0, n)) is Some,
    ensures
        env_refs_problem(pairs) == env_refs_problem(pairs.subrange(0, n)),
    decreases pairs.len() - n,
{
    if n < pairs.len() {
        assert(pairs.subrange(0, n + 1).drop_last() =~= pairs.subrange(0, n));
        lemma_env_refs_prefix(pairs, n + 1);
    } else {
        assert(pairs.subrange(0, n) =~= pairs);
    }
}

proof fn lemma_keychain_prefix(entries: Seq<Seq<char>>, n: int)
    requires
        0 <= n <= entries.len(),
        keychain_problem(entries.subrange(0, n)) is Some,
    ensures
        keychain_problem(entries) == keychain_problem(entries.subrange(0, n)),
    decreases entries.len() - n,
{
    if n < entries.len() {
        assert(entries.subrange(0, n + 1).drop_last() =~= entries.subrange(0, n));
        lemma_keychain_prefix(entries, n + 1);
    } else {
        assert(entries.subrange(0, n) =~= entries);
    }
}

pub fn validate_secret_refs(refs: &AgentBundleSecretRefs) -> (r: Result<(), NamedAgentError>)
    ensures
        problem_of(r) == secret_refs_problem(refs@),
{
    let ghost pairs = refs@.env_vars;
    let ghost entries = refs@.keychain_entries;
    let mut i: usize = 0;
    assert(pairs.subrange(0, 0) =~= Seq::<(Seq<char>, Seq<char>)>::empty());
    while i < refs.env_vars.len()
        invariant
            i <= refs.env_vars.len(),
            pairs == text_pairs(refs.env_vars@),
            pairs == refs@.env_vars,
            env_refs_problem(pairs.subrange(0, i as int)) is None,
        decreases refs.env_vars.len() - i,
    {
        let name = refs.env_vars[i].0.as_str();
        let variable = refs.env_vars[i].1.as_str();
        let ghost part = pairs.subrange(0, i + 1);
        assert(part.drop_last() =~= pairs.subrange(0, i as int));
        assert(part.last() == (name@, variable@));
        if text::blank(name) || contains_control(name) || !secrets::is_env_var_name(variable) {
            proof {
                lemma_env_refs_prefix(pairs, i + 1);
            }
            return Err(secret_rejected(text::joined("secret_refs.env_vars.", name).as_str()));
        }
        i += 1;
    }
    assert(pairs.subrange(0, pairs.len() as int) =~= pairs);
    let mut k: usize = 0;
    assert(entries.subrange(0, 0) =~= Seq::<Seq<char>>::empty());
    while k < refs.keychain_entries.len()
        invariant
            k <= refs.keychain_entries.len(),
            entries == text::texts(refs.keychain_entries@),
            entries == refs@.keychain_entries,
            env_refs_problem(refs@.env_vars) is None,
            keychain_problem(entries.subrange(0, k as int)) is None,
        decreases refs.keychain_entries.len() - k,
    {
        let entry = refs.keychain_entries[k].as_str();
        let ghost part = entries.subrange(0, k + 1);
        assert(part.drop_last() =~= entries.subrange(0, k as int));
        assert(part.last() == entry@);
        if text::blank(entry) || contains_control(entry) {
            proof {
                lemma_keychain_prefix(entries, k + 1);
            }
            return Err(
                secret_rejected(
                    text::concat3(
                        "secret_refs.keychain_entries[",
                        text::decimal_usize(k).as_str(),
                        "]",
                    ).as_str(),
                ),
            );
        }
        k += 1;
    }
    assert(entries.subrange(0, entries.len() as int) =~= entries);
    Ok(())
}

// ---------------------------------------------------------------------------
// Secrets in configurations.

/// Whether a key holds environment variables or HTTP headers.
pub open spec fn is_env_key(key: Seq<char>) -> bool {
    text::same_but_case(key, "env"@) || text::same_but_case(key, "headers"@)
}

/// Whether the value of a variable or header under `key` must be a reference.
pub open spec fn must_refer(key: Seq<char>, name: Seq<char>) -> bool {
    secrets::secret_key(name) || (text::same_but_case(key, "headers"@) && text::same_but_case(
        name,
        "authorization"@,
    ))
}

/// Whether a value is a reference to a secret.
pub open spec fn is_reference(value: JsonModel) -> bool {
    match value {
        JsonModel::Text(t) => secrets::secret_reference(t),
        _ => false,
    }
}

/// The first variable or header that holds a secret instead of a reference.
pub open spec fn env_rejection(
    key: Seq<char>,
    members: Seq<(Seq<char>, JsonModel)>,
    path: Seq<char>,
) -> Option<ErrorModel>
    decreases members.len(),
{
    if members.len() == 0 {
        None
    } else {
        first_of(
            env_rejection(key, members.drop_last(), path),
            if must_refer(key, members.last().0) && !is_reference(members.last().1) {
                Some(rejected(path + "."@ + members.last().0))
            } else {
                None
            },
        )
    }
}

/// Where a configuration holds a secret instead of a reference, if it does.
pub open spec fn rejection(value: JsonModel, path: Seq<char>) -> Option<ErrorModel>
    decreases value, 0nat,
{
    match value {
        JsonModel::Object(members) => members_rejection(members, path),
        JsonModel::List(items) => items_rejection(items, path),
        JsonModel::Text(t) => if secrets::secret_like(t) {
            Some(rejected(path))
        } else {
            None
        },
        _ => None,
    }
}

pub open spec fn members_rejection(
    members: Seq<(Seq<char>, JsonModel)>,
    path: Seq<char>,
) -> Option<ErrorModel>
    decreases members, 1nat,
{
    if members.len() == 0 {
        None
    } else {
        first_of(
            members_rejection(members.subrange(0, members.len() - 1), path),
            member_rejection(members[members.len() - 1], path),
        )
    }
}

pub open spec fn member_rejection(member: (Seq<char>, JsonModel), path: Seq<char>) -> Option<
    ErrorModel,
>
    decreases member, 2nat,
{
    let key = member.0;
    let below = path + "."@ + key;
    if is_env_key(key) {
        match member.1 {
            JsonModel::Object(members) => env_rejection(key, members, below),
            _ => None,
        }
    } else if secrets::secret_key(key) && !is_reference(member.1) {
        Some(rejected(below))
    } else {
        rejection(member.1, below)
    }
}

pub open spec fn items_rejection(items: Seq<JsonModel>, path: Seq<char>) -> Option<ErrorModel>
    decreases items, 1nat,
{
    if items.len() == 0 {
        None
    } else {
        first_of(
            items_rejection(items.subrange(0, items.len() - 1), path),
            rejection(
                items[items.len() - 1],
                path + "["@ + text::decimal((items.len() - 1) as nat) + "]"@,
            ),
        )
    }
}

proof fn lemma_env_rejection_prefix(
    key: Seq<char>,
    members: Seq<(Seq<char>, JsonModel)>,
    path: Seq<char>,
    n: int,
)
    requires
        0 <= n <= members.len(),
        env_rejection(key, members.subrange(0, n), path) is Some,
    ensures
        env_rejection(key, members, path) == env_rejection(key, members.subrange(0, n), path),
    decreases members.len() - n,
{
    if n < members.len() {
        assert(members.subrange(0, n + 1).drop_last() =~= members.subrange(0, n));
        lemma_env_rejection_prefix(key, members, path, n + 1);
    } else {
        assert(members.subrange(0, n) =~= members);
    }
}

proof fn lemma_members_rejection_prefix(
    members: Seq<(Seq<char>, JsonModel)>,
    path: Seq<char>,
    n: int,
)
    requires
        0 <= n <= members.len(),
        members_rejection(members.subrange(0, n), path) is Some,
    ensures
        members_rejection(members, path) == members_rejection(members.subrange(0, n), path),
    decreases members.len() - n,
{
    if n < members.len() {
        let longer = members.subrange(0, n + 1);
        assert(longer.subrange(0, longer.len() - 1) =~= members.subrange(0, n));
        lemma_members_rejection_prefix(members, path, n + 1);
    } else {
        assert(members.subrange(0, n) =~= members);
    }
}

proof fn lemma_items_rejection_prefix(items: Seq<JsonModel>, path: Seq<char>, n: int)
    requires
        0 <= n <= items.len(),
        items_rejection(items.subrange(0, n), path) is Some,
    ensures
        items_rejection(items, path) == items_rejection(items.subrange(0, n), path),
    decreases items.len() - n,
{
    if n < items.len() {
        let longer = items.subrange(0, n + 1);
        assert(longer.subrange(0, longer.len() - 1) =~= items.subrange(0, n));
        lemma_items_rejection_prefix(items, path, n + 1);
    } else {
        assert(items.subrange(0, n) =~= items);
    }
}

fn refers(value: &JsonTree) -> (r: bool)
    ensures
        r == is_reference(value@),
{
    match value {
        JsonTree::Text(t) => secrets::is_strict_secret_reference(t.as_str()),
        _ => false,
    }
}

fn reject_env_values(key: &str, members: &Vec<(String, JsonTree)>, path: &str) -> (r: Result<
    (),
    NamedAgentError,
>)
    ensures
        problem_of(r) == env_rejection(key@, json_tree::members_of(members@), path@),
{
    let ghost all = json_tree::members_of(members@);
    let mut i: usize = 0;
    assert(all.subrange(0, 0) =~= Seq::<(Seq<char>, JsonModel)>::empty());
    while i < members.len()
        invariant
            i <= members.len(),
            all == json_tree::members_of(members@),
            env_rejection(key@, all.subrange(0, i as int), path@) is None,
        decreases members.len() - i,
    {
        let name = members[i].0.as_str();
        let ghost part = all.subrange(0, i + 1);
        assert(part.drop_last() =~= all.subrange(0, i as int));
        assert(part.last() == (name@, members@[i as int].1@));
        if (secrets::is_secret_key(name) || (text::same_ignoring_case(key, "headers")
            && text::same_ignoring_case(name, "authorization"))) && !refers(&members[i].1) {
            proof {
                lemma_env_rejection_prefix(key@, all, path@, i + 1);
            }
            return Err(secret_rejected(text::concat3(path, ".", name).as_str()));
        }
        i += 1;
    }
    assert(all.subrange(0, all.len() as int) =~= all);
    Ok(())
}

/// Refuses a configuration that holds a secret instead of a reference.
pub fn reject_secret_values(value: &JsonTree, path: &str) -> (r: Result<(), NamedAgentError>)
    ensures
        problem_of(r) == rejection(value@, path@),
    decreases value, 0nat,
{
    match value {
        JsonTree::Object(members) => {
            assert(decreases_to!(*value => value->Object_0));
            reject_secret_members(members, path)
        },
        JsonTree::List(items) => {
            let ghost all = json_tree::models_of(items@);
            let mut i: usize = 0;
            assert(all.subrange(0, 0) =~= Seq::<JsonModel>::empty());
            while i < items.len()
                invariant
                    i <= items.len(),
                    all == json_tree::models_of(items@),
                    *value == JsonTree::List(*items),
                    items_rejection(all.subrange(0, i as int), path@) is None,
                decreases items.len() - i,
            {
                assert(decreases_to!(*value => value->List_0));
                assert(decreases_to!(items => items@));
                assert(decreases_to!(items@ => items@[i as int]));
                let ghost part = all.subrange(0, i + 1);
                assert(part.subrange(0, part.len() - 1) =~= all.subrange(0, i as int));
                assert(part[part.len() - 1] == items@[i as int]@);
                let below = text::concat4(path, "[", text::decimal_usize(i).as_str(), "]");
                if let Err(error) = reject_secret_values(&items[i], below.as_str()) {
                    proof {
                        lemma_items_rejection_prefix(all, path@, i + 1);
                    }
                    return Err(error);
                }
                i += 1;
            }
            assert(all.subrange(0, all.len() as int) =~= all);
            Ok(())
        },
        JsonTree::Text(t) => if secrets::literal_secret_like(t.as_str()) {
            Err(secret_rejected(path))
        } else {
            Ok(())
        },
        _ => Ok(()),
    }
}

fn reject_secret_members(members: &Vec<(String, JsonTree)>, path: &str) -> (r: Result<
    (),
    NamedAgentError,
>)
    ensures
        problem_of(r) == members_rejection(json_tree::members_of(members@), path@),
    decreases members, 1nat,
{
    let ghost all = json_tree::members_of(members@);
    let mut i: usize = 0;
    assert(all.subrange(0, 0) =~= Seq::<(Seq<char>, JsonModel)>::empty());
    while i < members.len()
        invariant
            i <= members.len(),
            all == json_tree::members_of(members@),
            members_rejection(all.subrange(0, i as int), path@) is None,
        decreases members.len() - i,
    {
        assert(decreases_to!(members => members@));
        assert(decreases_to!(members@ => members@[i as int]));
        assert(decreases_to!(members@[i as int] => members@[i as int].1));
        let key = members[i].0.as_str();
        let value = &members[i].1;
        let ghost part = all.subrange(0, i + 1);
        assert(part.subrange(0, part.len() - 1) =~= all.subrange(0, i as int));
        assert(part[part.len() - 1] == (key@, value@));
        let below = text::concat3(path, ".", key);
        let found = if text::same_ignoring_case(key, "env") || text::same_ignoring_case(
            key,
            "headers",
        ) {
            match value {
                JsonTree::Object(inner) => reject_env_values(key, inner, below.as_str()),
                _ => Ok(()),
            }
        } else if secrets::is_secret_key(key) && !refers(value) {
            Err(secret_rejected(below.as_str()))
        } else {
            reject_secret_values(value, below.as_str())
        };
        assert(problem_of(found) == member_rejection((key@, value@), path@));
        if let Err(error) = found {
            proof {
                lemma_members_rejection_prefix(all, path@, i + 1);
            }
            return Err(error);
        }
        i += 1;
    }
    assert(all.subrange(0, all.len() as int) =~= all);
    Ok(())
}

/// Whether an object has a member.
pub open spec fn has_member(value: JsonModel, key: Seq<char>) -> bool {
    value is Object && exists|i: int|
        0 <= i < value->Object_0.len() && (#[trigger] value->Object_0[i]).0 == key
}

fn object_has(value: &JsonTree, key: &str) -> (r: bool)
    ensures
        r == has_member(value@, key@),
{
    match value {
        JsonTree::Object(members) => {
            let ghost all = json_tree::members_of(members@);
            let mut i: usize = 0;
            while i < members.len()
                invariant
                    i <= members.len(),
                    all == json_tree::members_of(members@),
                    value@ == JsonModel::Object(all),
                    forall|j: int| 0 <= j < i ==> (#[trigger] all[j]).0 != key@,
                decreases members.len() - i,
            {
                assert(all[i as int].0 == members@[i as int].0@);
                if text::same_text(members[i].0.as_str(), key) {
                    let ghost model = value@;
                    assert(model->Object_0[i as int].0 == key@);
                    assert(has_member(model, key@));
                    return true;
                }
                i += 1;
            }
            false
        },
        _ => false,
    }
}

/// The first server that refers to a managed one, if any.
pub open spec fn managed_problem(servers: Seq<(Seq<char>, JsonModel)>) -> Option<ErrorModel>
    decreases servers.len(),
{
    if servers.len() == 0 {
        None
    } else {
        first_of(
            managed_problem(servers.drop_last()),
            if has_member(servers.last().1, "warp_id"@) {
                Some(
                    invalid(
                        "mcp_servers."@ + servers.last().0
                            + ".warp_id is a managed MCP reference"@,
                    ),
                )
            } else {
                None
            },
        )
    }
}

proof fn lemma_managed_prefix(servers: Seq<(Seq<char>, JsonModel)>, n: int)
    requires
        0 <= n <= servers.len(),
        managed_problem(servers.subrange(0, n)) is Some,
    ensures
        managed_problem(servers) == managed_problem(servers.subrange(0, n)),
    decreases servers.len() - n,
{
    if n < servers.len() {
        assert(servers.subrange(0, n + 1).drop_last() =~= servers.subrange(0, n));
        lemma_managed_prefix(servers, n + 1);
    } else {
        assert(servers.subrange(0, n) =~= servers);
    }
}

/// What is wrong with a set of MCP servers, if anything.
pub open spec fn servers_problem(servers: Option<ServersModel>) -> Option<ErrorModel> {
    match servers {
        None => None,
        Some(servers) => match servers.problem {
            Some(e) => Some(invalid("invalid mcp_servers: "@ + e)),
            None => first_of(
                managed_problem(servers.servers),
                members_rejection(servers.servers, "mcp_servers"@),
            ),
        },
    }
}

pub fn validate_named_mcp_servers(servers: &Option<McpServers>) -> (r: Result<
    (),
    NamedAgentError,
>)
    ensures
        problem_of(r) == servers_problem(servers_opt(*servers)),
{
    let set = match servers {
        Some(set) => set,
        None => {
            return Ok(());
        },
    };
    if let Some(error) = &set.problem {
        return Err(invalid_bundle(text::joined("invalid mcp_servers: ", error.as_str()).as_str()));
    }
    let ghost all = set@.servers;
    let mut i: usize = 0;
    assert(all.subrange(0, 0) =~= Seq::<(Seq<char>, JsonModel)>::empty());
    while i < set.servers.len()
        invariant
            i <= set.servers.len(),
            all == json_tree::members_of(set.servers@),
            all == set@.servers,
            servers_opt(*servers) == Some(set@),
            set@.problem is None,
            managed_problem(all.subrange(0, i as int)) is None,
        decreases set.servers.len() - i,
    {
        let ghost part = all.subrange(0, i + 1);
        assert(part.drop_last() =~= all.subrange(0, i as int));
        assert(part.last() == (set.servers@[i as int].0@, set.servers@[i as int].1@));
        if object_has(&set.servers[i].1, "warp_id") {
            proof {
                lemma_managed_prefix(all, i + 1);
            }
            return Err(
                invalid_bundle(
                    text::concat3(
                        "mcp_servers.",
                        set.servers[i].0.as_str(),
                        ".warp_id is a managed MCP reference",
                    ).as_str(),
                ),
            );
        }
        i += 1;
    }
    assert(all.subrange(0, all.len() as int) =~= all);
    reject_secret_members(&set.servers, "mcp_servers")
}

// ---------------------------------------------------------------------------
// Bundles.

pub open spec fn skills_problem(skills: Seq<SkillModel>) -> Option<ErrorModel>
    decreases skills.len(),
{
    if skills.len() == 0 {
        None
    } else {
        first_of(
            skills_problem(skills.drop_last()),
            skill_problem_at(
                Some(skills.last()),
                "skills["@ + text::decimal((skills.len() - 1) as nat) + "]"@,
            ),
        )
    }
}

proof fn lemma_skills_prefix(skills: Seq<SkillModel>, n: int)
    requires
        0 <= n <= skills.len(),
        skills_problem(skills.subrange(0, n)) is Some,
    ensures
        skills_problem(skills) == skills_problem(skills.subrange(0, n)),
    decreases skills.len() - n,
{
    if n < skills.len() {
        assert(skills.subrange(0, n + 1).drop_last() =~= skills.subrange(0, n));
        lemma_skills_prefix(skills, n + 1);
    } else {
        assert(skills.subrange(0, n) =~= skills);
    }
}

fn validate_skills(skills: &Vec<SkillReference>) -> (r: Result<(), NamedAgentError>)
    ensures
        problem_of(r) == skills_problem(skill_models(skills@)),
{
    let ghost all = skill_models(skills@);
    let mut i: usize = 0;
    assert(all.subrange(0, 0) =~= Seq::<SkillModel>::empty());
    while i < skills.len()
        invariant
            i <= skills.len(),
            all == skill_models(skills@),
            skills_problem(all.subrange(0, i as int)) is None,
        decreases skills.len() - i,
    {
        let ghost part = all.subrange(0, i + 1);
        assert(part.drop_last() =~= all.subrange(0, i as int));
        assert(part.last() == skills@[i as int]@);
        if let Err(reason) = validate_skill_reference(&skills[i]) {
            proof {
                lemma_skills_prefix(all, i + 1);
            }
            let place = text::concat3("skills[", text::decimal_usize(i).as_str(), "]");
            return Err(
                invalid_bundle(text::concat3(place.as_str(), " ", reason.as_str()).as_str()),
            );
        }
        i += 1;
    }
    assert(all.subrange(0, all.len() as int) =~= all);
    Ok(())
}

/// The first thing that is wrong with a bundle, if anything.
pub open spec fn bundle_problem(b: BundleModel) -> Option<ErrorModel> {
    if name_problem(b.name) is Some {
        name_problem(b.name)
    } else if model_problem(b.model_id) is Some {
        model_problem(b.model_id)
    } else if b.harness is Unknown {
        Some(invalid("harness must be a known local harness"@))
    } else if blank_opt(b.profile_id) {
        Some(invalid("profile_id must not be empty"@))
    } else if skills_problem(b.skills) is Some {
        skills_problem(b.skills)
    } else if b.secret_refs is Some && secret_refs_problem(b.secret_refs->0) is Some {
        secret_refs_problem(b.secret_refs->0)
    } else if prompt_problem(b.description, "description"@) is Some {
        prompt_problem(b.description, "description"@)
    } else if prompt_problem(b.base_prompt, "base_prompt"@) is Some {
        prompt_problem(b.base_prompt, "base_prompt"@)
    } else {
        servers_problem(b.mcp_servers)
    }
}

impl NamedAgentBundle {
    pub fn validate(&self) -> (r: Result<(), NamedAgentError>)
        ensures
            problem_of(r) == bundle_problem(self@),
    {
        if let Err(error) = validate_name(self.name.as_str()) {
            return Err(error);
        }
        if let Err(error) = validate_model_id(self.model_id.as_str()) {
            return Err(error);
        }
        if self.harness == Harness::Unknown {
            return Err(invalid_bundle("harness must be a known local harness"));
        }
        if is_blank_opt(&self.profile_id) {
            return Err(invalid_bundle("profile_id must not be empty"));
        }
        if let Err(error) = validate_skills(&self.skills) {
            return Err(error);
        }
        if let Some(refs) = &self.secret_refs {
            if let Err(error) = validate_secret_refs(refs) {
                return Err(error);
            }
        }
        if let Err(error) = validate_prompt(&self.description, "description") {
            return Err(error);
        }
        if let Err(error) = validate_prompt(&self.base_prompt, "base_prompt") {
            return Err(error);
        }
        validate_named_mcp_servers(&self.mcp_servers)
    }

    /// What may be shown of a bundle: neither its prompt nor its references to
    /// credentials.
    pub fn redacted(&self) -> (r: NamedAgentBundle)
        ensures
            r@ == (BundleModel { base_prompt: None, secret_refs: None, ..self@ }),
    {
        let mut shown = self.clone();
        shown.base_prompt = None;
        shown.secret_refs = None;
        shown
    }
}

// ---------------------------------------------------------------------------
// Configurations of a run.

/// Which harness a run uses.
#[derive(Clone, Copy, Debug, PartialEq, Eq, Structural)]
pub struct HarnessConfig {
    pub harness_type: Harness,
}

/// The configuration of a run. Credentials for a hosted harness stand in
/// serialized form.
#[derive(Debug, PartialEq)]
pub struct AgentConfigSnapshot<S = String, K = SkillReference, M = McpServers> {
    pub name: Option<S>,
    pub environment_id: Option<S>,
    pub model_id: Option<S>,
    pub base_prompt: Option<S>,
    pub mcp_servers: Option<M>,
    pub profile_id: Option<S>,
    pub worker_host: Option<S>,
    pub skill_spec: Option<K>,
    pub computer_use_enabled: Option<bool>,
    pub harness: Option<HarnessConfig>,
    pub harness_auth_secrets: Option<S>,
}

pub type SnapshotModel = AgentConfigSnapshot<Seq<char>, SkillModel, ServersModel>;

impl View for AgentConfigSnapshot<String, SkillReference, McpServers> {
    type V = SnapshotModel;

    open spec fn view(&self) -> SnapshotModel {
        AgentConfigSnapshot {
            name: text::text_opt(self.name),
            environment_id: text::text_opt(self.environment_id),
            model_id: text::text_opt(self.model_id),
            base_prompt: text::text_opt(self.base_prompt),
            mcp_servers: servers_opt(self.mcp_servers),
            profile_id: text::text_opt(self.profile_id),
            worker_host: text::text_opt(self.worker_host),
            skill_spec: skill_opt(self.skill_spec),
            computer_use_enabled: self.computer_use_enabled,
            harness: self.harness,
            harness_auth_secrets: text::text_opt(self.harness_auth_secrets),
        }
    }
}

impl Clone for AgentConfigSnapshot<String, SkillReference, McpServers> {
    fn clone(&self) -> (r: Self)
        ensures
            r@ == self@,
    {
        AgentConfigSnapshot {
            name: text::clone_opt(&self.name),
            environment_id: text::clone_opt(&self.environment_id),
            model_id: text::clone_opt(&self.model_id),
            base_prompt: text::clone_opt(&self.base_prompt),
            mcp_servers: clone_servers(&self.mcp_servers),
            profile_id: text::clone_opt(&self.profile_id),
            worker_host: text::clone_opt(&self.worker_host),
            skill_spec: clone_skill(&self.skill_spec),
            computer_use_enabled: self.computer_use_enabled,
            harness: self.harness,
            harness_auth_secrets: text::clone_opt(&self.harness_auth_secrets),
        }
    }
}

/// The configuration that a one-shot file gives.
#[derive(Clone, Debug)]
pub struct AgentConfigSnapshotFile<S = String, K = SkillReference, M = McpServers> {
    pub name: Option<S>,
    pub model_id: Option<S>,
    pub base_prompt: Option<S>,
    pub mcp_servers: Option<M>,
    pub profile_id: Option<S>,
    pub host: Option<S>,
    pub skill_spec: Option<K>,
    pub computer_use_enabled: Option<bool>,
    pub harness: Option<HarnessConfig>,
    pub harness_auth_secrets: Option<S>,
}

pub type FileModel = AgentConfigSnapshotFile<Seq<char>, SkillModel, ServersModel>;

impl View for AgentConfigSnapshotFile<String, SkillReference, McpServers> {
    type V = FileModel;

    open spec fn view(&self) -> FileModel {
        AgentConfigSnapshotFile {
            name: text::text_opt(self.name),
            model_id: text::text_opt(self.model_id),
            base_prompt: text::text_opt(self.base_prompt),
            mcp_servers: servers_opt(self.mcp_servers),
            profile_id: text::text_opt(self.profile_id),
            host: text::text_opt(self.host),
            skill_spec: skill_opt(self.skill_spec),
            computer_use_enabled: self.computer_use_enabled,
            harness: self.harness,
            harness_auth_secrets: text::text_opt(self.harness_auth_secrets),
        }
    }
}

/// The configuration that a bundle alone gives.
pub open spec fn snapshot_of(b: BundleModel) -> SnapshotModel {
    AgentConfigSnapshot {
        name: Some(b.name),
        environment_id: None,
        model_id: Some(b.model_id),
        base_prompt: b.base_prompt,
        mcp_servers: b.mcp_servers,
        profile_id: b.profile_id,
        worker_host: None,
        skill_spec: if b.skills.len() > 0 {
            Some(b.skills[0])
        } else {
            None
        },
        computer_use_enabled: b.computer_use_enabled,
        harness: Some(HarnessConfig { harness_type: b.harness }),
        harness_auth_secrets: None,
    }
}

impl NamedAgentBundle {
    /// The configuration that the bundle alone gives.
    pub fn to_snapshot(&self) -> (r: AgentConfigSnapshot)
        ensures
            r@ == snapshot_of(self@),
    {
        let skill_spec = if self.skills.len() > 0 {
            Some(self.skills[0].clone())
        } else {
            None
        };
        AgentConfigSnapshot {
            name: Some(self.name.clone()),
            environment_id: None,
            model_id: Some(self.model_id.clone()),
            base_prompt: text::clone_opt(&self.base_prompt),
            mcp_servers: clone_servers(&self.mcp_servers),
            profile_id: text::clone_opt(&self.profile_id),
            worker_host: None,
            skill_spec,
            computer_use_enabled: self.computer_use_enabled,
            harness: Some(HarnessConfig { harness_type: self.harness }),
            harness_auth_secrets: None,
        }
    }
}

pub open spec fn unknown_harness(harness: Option<HarnessConfig>) -> bool {
    harness is Some && harness->0.harness_type is Unknown
}

fn is_unknown_harness(harness: &Option<HarnessConfig>) -> (r: bool)
    ensures
        r == unknown_harness(*harness),
{
    match harness {
        Some(harness) => harness.harness_type == Harness::Unknown,
        None => false,
    }
}

pub open spec fn model_opt_problem(model_id: Option<Seq<char>>) -> Option<ErrorModel> {
    match model_id {
        Some(model_id) => model_problem(model_id),
        None => None,
    }
}

fn validate_model_opt(model_id: &Option<String>) -> (r: Result<(), NamedAgentError>)
    ensures
        problem_of(r) == model_opt_problem(text::text_opt(*model_id)),
{
    match model_id {
        Some(model_id) => validate_model_id(model_id.as_str()),
        None => Ok(()),
    }
}

/// The first thing in a one-shot file that a named agent may not have.
pub open spec fn config_file_problem(f: FileModel) -> Option<ErrorModel> {
    if f.host is Some {
        Some(invalid("one-shot host is not available for local named agents"@))
    } else if f.harness_auth_secrets is Some {
        Some(
            invalid("managed harness authentication is not available for local named agents"@),
        )
    } else if model_opt_problem(f.model_id) is Some {
        model_opt_problem(f.model_id)
    } else if blank_opt(f.profile_id) {
        Some(invalid("profile_id must not be empty"@))
    } else if prompt_problem(f.base_prompt, "one_shot.base_prompt"@) is Some {
        prompt_problem(f.base_prompt, "one_shot.base_prompt"@)
    } else if skill_problem_at(f.skill_spec, "one_shot.skill_spec"@) is Some {
        skill_problem_at(f.skill_spec, "one_shot.skill_spec"@)
    } else if unknown_harness(f.harness) {
        Some(invalid("one-shot harness must be a known local harness"@))
    } else {
        servers_problem(f.mcp_servers)
    }
}

/// Checks a one-shot file before anything is done with it.
pub fn validate_named_config_file(source: &AgentConfigSnapshotFile) -> (r: Result<
    (),
    NamedAgentError,
>)
    ensures
        problem_of(r) == config_file_problem(source@),
{
    if source.host.is_some() {
        return Err(invalid_bundle("one-shot host is not available for local named agents"));
    }
    if source.harness_auth_secrets.is_some() {
        return Err(
            invalid_bundle(
                "managed harness authentication is not available for local named agents",
            ),
        );
    }
    if let Err(error) = validate_model_opt(&source.model_id) {
        return Err(error);
    }
    if is_blank_opt(&source.profile_id) {
        return Err(invalid_bundle("profile_id must not be empty"));
    }
    if let Err(error) = validate_prompt(&source.base_prompt, "one_shot.base_prompt") {
        return Err(error);
    }
    if let Err(error) = validate_skill_at(&source.skill_spec, "one_shot.skill_spec") {
        return Err(error);
    }
    if is_unknown_harness(&source.harness) {
        return Err(invalid_bundle("one-shot harness must be a known local harness"));
    }
    validate_named_mcp_servers(&source.mcp_servers)
}

/// The arguments of a run that bear on a named agent.
pub struct RunAgentArgs {
    pub sandboxed: bool,
    pub model: Option<String>,
    pub profile: Option<String>,
    pub prompt: Option<String>,
    pub skill: Option<SkillReference>,
}

/// The first argument of a run that a named agent may not have.
pub open spec fn run_args_problem(args: RunAgentArgs) -> Option<ErrorModel> {
    if args.sandboxed {
        Some(invalid("sandboxed execution is not available for local named agents"@))
    } else if model_opt_problem(text::text_opt(args.model)) is Some {
        model_opt_problem(text::text_opt(args.model))
    } else if blank_opt(text::text_opt(args.profile)) {
        Some(invalid("profile_id must not be empty"@))
    } else if prompt_problem(text::text_opt(args.prompt), "cli.prompt"@) is Some {
        prompt_problem(text::text_opt(args.prompt), "cli.prompt"@)
    } else {
        skill_problem_at(skill_opt(args.skill), "cli.skill"@)
    }
}

pub fn validate_named_run_args(args: &RunAgentArgs) -> (r: Result<(), NamedAgentError>)
    ensures
        problem_of(r) == run_args_problem(*args),
{
    if args.sandboxed {
        return Err(
            invalid_bundle("sandboxed execution is not available for local named agents"),
        );
    }
    if let Err(error) = validate_model_opt(&args.model) {
        return Err(error);
    }
    if is_blank_opt(&args.profile) {
        return Err(invalid_bundle("profile_id must not be empty"));
    }
    if let Err(error) = validate_prompt(&args.prompt, "cli.prompt") {
        return Err(error);
    }
    validate_skill_at(&args.skill, "cli.skill")
}

pub open spec fn name_opt_problem(name: Option<Seq<char>>) -> Option<ErrorModel> {
    match name {
        Some(name) => name_problem(name),
        None => None,
    }
}

/// The first thing in a configuration that a named agent may not have.
pub open spec fn snapshot_problem(
    s: SnapshotModel,
    source: Seq<char>,
    require_model: bool,
) -> Option<ErrorModel> {
    if s.environment_id is Some {
        Some(
            invalid(source + ".environment_id is not available for local named agents"@),
        )
    } else if s.worker_host is Some {
        Some(invalid(source + ".host is not available for local named agents"@))
    } else if s.harness_auth_secrets is Some {
        Some(
            invalid(source + ".harness_auth_secrets is not available for local named agents"@),
        )
    } else if name_opt_problem(s.name) is Some {
        name_opt_problem(s.name)
    } else if model_opt_problem(s.model_id) is Some {
        model_opt_problem(s.model_id)
    } else if s.model_id is None && require_model {
        Some(invalid("effective model_id must be concrete"@))
    } else if blank_opt(s.profile_id) {
        Some(invalid(source + ".profile_id must not be empty"@))
    } else if prompt_problem(s.base_prompt, source + ".base_prompt"@) is Some {
        prompt_problem(s.base_prompt, source + ".base_prompt"@)
    } else if skill_problem_at(s.skill_spec, source + ".skill_spec"@) is Some {
        skill_problem_at(s.skill_spec, source + ".skill_spec"@)
    } else if unknown_harness(s.harness) {
        Some(invalid(source + ".harness must be a known local harness"@))
    } else {
        servers_problem(s.mcp_servers)
    }
}

fn invalid_in(source: &str, reason: &str) -> (r: NamedAgentError)
    ensures
        r@ == invalid(source@ + reason@),
{
    NamedAgentError::InvalidBundle { reason: text::joined(source, reason) }
}

pub fn validate_named_snapshot(
    snapshot: &AgentConfigSnapshot,
    source: &str,
    require_model: bool,
) -> (r: Result<(), NamedAgentError>)
    ensures
        problem_of(r) == snapshot_problem(snapshot@, source@, require_model),
{
    if snapshot.environment_id.is_some() {
        return Err(
            invalid_in(source, ".environment_id is not available for local named agents"),
        );
    }
    if snapshot.worker_host.is_some() {
        return Err(invalid_in(source, ".host is not available for local named agents"));
    }
    if snapshot.harness_auth_secrets.is_some() {
        return Err(
            invalid_in(source, ".harness_auth_secrets is not available for local named agents"),
        );
    }
    if let Some(name) = &snapshot.name {
        if let Err(error) = validate_name(name.as_str()) {
            return Err(error);
        }
    }
    if let Err(error) = validate_model_opt(&snapshot.model_id) {
        return Err(error);
    }
    if snapshot.model_id.is_none() && require_model {
        return Err(invalid_bundle("effective model_id must be concrete"));
    }
    if is_blank_opt(&snapshot.profile_id) {
        return Err(invalid_in(source, ".profile_id must not be empty"));
    }
    if let Err(error) = validate_prompt(
        &snapshot.base_prompt,
        text::joined(source, ".base_prompt").as_str(),
    ) {
        return Err(error);
    }
    if let Err(error) = validate_skill_at(
        &snapshot.skill_spec,
        text::joined(source, ".skill_spec").as_str(),
    ) {
        return Err(error);
    }
    if is_unknown_harness(&snapshot.harness) {
        return Err(invalid_in(source, ".harness must be a known local harness"));
    }
    validate_named_mcp_servers(&snapshot.mcp_servers)
}

// ---------------------------------------------------------------------------
// Merging.

/// One-shot and command-line values for a run, with the instructions of the
/// skills that the bundle names and of the skill that was invoked.
#[derive(Clone, Debug)]
pub struct NamedAgentRunOverrides {
    pub one_shot: Option<AgentConfigSnapshotFile>,
    pub cli: AgentConfigSnapshot,
    pub bundle_skill_instructions: Option<String>,
    pub invoked_skill_instructions: Option<String>,
}

/// What overrides say.
pub struct OverridesModel {
    pub one_shot: Option<FileModel>,
    pub cli: SnapshotModel,
    pub bundle_skill_instructions: Option<Seq<char>>,
    pub invoked_skill_instructions: Option<Seq<char>>,
}

impl View for NamedAgentRunOverrides {
    type V = OverridesModel;

    open spec fn view(&self) -> OverridesModel {
        OverridesModel {
            one_shot: match self.one_shot {
                Some(file) => Some(file@),
                None => None,
            },
            cli: self.cli@,
            bundle_skill_instructions: text::text_opt(self.bundle_skill_instructions),
            invoked_skill_instructions: text::text_opt(self.invoked_skill_instructions),
        }
    }
}

/// The server sets that result where servers override servers: those of the
/// bundle with those of the one-shot file, and these with those of the command
/// line. Each is used only where the override has servers.
pub struct ServerMerges {
    pub with_one_shot: Option<McpServers>,
    pub with_cli: Option<McpServers>,
}

/// A value, or another one in its place.
pub open spec fn overridden<T>(value: Option<T>, by: Option<T>) -> Option<T> {
    if by is Some {
        by
    } else {
        value
    }
}

/// A prompt with instructions below it.
pub open spec fn with_instructions(
    prompt: Option<Seq<char>>,
    instructions: Option<Seq<char>>,
) -> Option<Seq<char>> {
    match instructions {
        None => prompt,
        Some(instructions) => if prompt is Some && !text::is_blank(prompt->0) {
            Some(prompt->0 + "\n\n"@ + instructions)
        } else {
            Some(instructions)
        },
    }
}

/// A configuration under a one-shot file, where `merged` are the servers of
/// both.
pub open spec fn under_file(
    target: SnapshotModel,
    source: FileModel,
    merged: Option<ServersModel>,
) -> SnapshotModel {
    AgentConfigSnapshot {
        name: overridden(target.name, source.name),
        environment_id: target.environment_id,
        model_id: overridden(target.model_id, source.model_id),
        base_prompt: overridden(target.base_prompt, source.base_prompt),
        mcp_servers: if source.mcp_servers is Some {
            merged
        } else {
            target.mcp_servers
        },
        profile_id: overridden(target.profile_id, source.profile_id),
        worker_host: overridden(target.worker_host, source.host),
        skill_spec: overridden(target.skill_spec, source.skill_spec),
        computer_use_enabled: overridden(
            target.computer_use_enabled,
            source.computer_use_enabled,
        ),
        harness: overridden(target.harness, source.harness),
        harness_auth_secrets: overridden(
            target.harness_auth_secrets,
            source.harness_auth_secrets,
        ),
    }
}

/// A configuration under another one, where `merged` are the servers of both.
pub open spec fn under_snapshot(
    target: SnapshotModel,
    source: SnapshotModel,
    merged: Option<ServersModel>,
) -> SnapshotModel {
    AgentConfigSnapshot {
        name: overridden(target.name, source.name),
        environment_id: target.environment_id,
        model_id: overridden(target.model_id, source.model_id),
        base_prompt: overridden(target.base_prompt, source.base_prompt),
        mcp_servers: if source.mcp_servers is Some {
            merged
        } else {
            target.mcp_servers
        },
        profile_id: overridden(target.profile_id, source.profile_id),
        worker_host: overridden(target.worker_host, source.worker_host),
        skill_spec: overridden(target.skill_spec, source.skill_spec),
        computer_use_enabled: overridden(
            target.computer_use_enabled,
            source.computer_use_enabled,
        ),
        harness: overridden(target.harness, source.harness),
        harness_auth_secrets: overridden(
            target.harness_auth_secrets,
            source.harness_auth_secrets,
        ),
    }
}

fn override_text(target: &mut Option<String>, by: &Option<String>)
    ensures
        text::text_opt(*final(target)) == overridden(
            text::text_opt(*old(target)),
            text::text_opt(*by),
        ),
{
    if let Some(value) = by {
        *target = Some(value.clone());
    }
}

/// Puts the values of a one-shot file over a configuration.
pub fn apply_file_snapshot(
    target: &mut AgentConfigSnapshot,
    source: &AgentConfigSnapshotFile,
    merged: &Option<McpServers>,
)
    ensures
        final(target)@ == under_file(old(target)@, source@, servers_opt(*merged)),
{
    override_text(&mut target.name, &source.name);
    override_text(&mut target.model_id, &source.model_id);
    override_text(&mut target.base_prompt, &source.base_prompt);
    if source.mcp_servers.is_some() {
        target.mcp_servers = clone_servers(merged);
    }
    override_text(&mut target.profile_id, &source.profile_id);
    override_text(&mut target.worker_host, &source.host);
    if source.skill_spec.is_some() {
        target.skill_spec = clone_skill(&source.skill_spec);
    }
    if source.computer_use_enabled.is_some() {
        target.computer_use_enabled = source.computer_use_enabled;
    }
    if source.harness.is_some() {
        target.harness = source.harness;
    }
    override_text(&mut target.harness_auth_secrets, &source.harness_auth_secrets);
}

/// Puts the values of a configuration over another one.
pub fn apply_snapshot(
    target: &mut AgentConfigSnapshot,
    source: &AgentConfigSnapshot,
    merged: &Option<McpServers>,
)
    ensures
        final(target)@ == under_snapshot(old(target)@, source@, servers_opt(*merged)),
{
    override_text(&mut target.name, &source.name);
    override_text(&mut target.model_id, &source.model_id);
    override_text(&mut target.base_prompt, &source.base_prompt);
    if source.mcp_servers.is_some() {
        target.mcp_servers = clone_servers(merged);
    }
    override_text(&mut target.profile_id, &source.profile_id);
    override_text(&mut target.worker_host, &source.worker_host);
    if source.skill_spec.is_some() {
        target.skill_spec = clone_skill(&source.skill_spec);
    }
    if source.computer_use_enabled.is_some() {
        target.computer_use_enabled = source.computer_use_enabled;
    }
    if source.harness.is_some() {
        target.harness = source.harness;
    }
    override_text(&mut target.harness_auth_secrets, &source.harness_auth_secrets);
}

/// What a run amounts to, before it is checked.
pub open spec fn merged_config(
    bundle: BundleModel,
    overrides: OverridesModel,
    with_one_shot: Option<ServersModel>,
    with_cli: Option<ServersModel>,
) -> SnapshotModel {
    let stored = snapshot_of(bundle);
    let instructed = AgentConfigSnapshot {
        base_prompt: with_instructions(stored.base_prompt, overrides.bundle_skill_instructions),
        ..stored
    };
    let filed = match overrides.one_shot {
        Some(file) => under_file(instructed, file, with_one_shot),
        None => instructed,
    };
    let commanded = under_snapshot(filed, overrides.cli, with_cli);
    AgentConfigSnapshot {
        base_prompt: overridden(commanded.base_prompt, overrides.invoked_skill_instructions),
        ..commanded
    }
}

/// Why a run cannot be made, if it cannot.
pub open spec fn merge_problem(
    bundle: BundleModel,
    overrides: OverridesModel,
    with_one_shot: Option<ServersModel>,
    with_cli: Option<ServersModel>,
) -> Option<ErrorModel> {
    if bundle_problem(bundle) is Some {
        bundle_problem(bundle)
    } else if overrides.one_shot is Some && config_file_problem(overrides.one_shot->0) is Some {
        config_file_problem(overrides.one_shot->0)
    } else if snapshot_problem(overrides.cli, "cli"@, false) is Some {
        snapshot_problem(overrides.cli, "cli"@, false)
    } else {
        snapshot_problem(
            merged_config(bundle, overrides, with_one_shot, with_cli),
            "effective"@,
            true,
        )
    }
}

/// What a run of a named agent amounts to: its bundle, under the one-shot file,
/// under the command line, with the prompt of an invoked skill over all.
pub fn merge_named_agent_config(
    bundle: &NamedAgentBundle,
    overrides: &NamedAgentRunOverrides,
    merges: &ServerMerges,
) -> (r: Result<AgentConfigSnapshot, NamedAgentError>)
    ensures
        match r {
            Ok(config) => merge_problem(
                bundle@,
                overrides@,
                servers_opt(merges.with_one_shot),
                servers_opt(merges.with_cli),
            ) is None && config@ == merged_config(
                bundle@,
                overrides@,
                servers_opt(merges.with_one_shot),
                servers_opt(merges.with_cli),
            ),
            Err(e) => merge_problem(
                bundle@,
                overrides@,
                servers_opt(merges.with_one_shot),
                servers_opt(merges.with_cli),
            ) == Some(e@),
        },
{
    if let Err(error) = bundle.validate() {
        return Err(error);
    }
    if let Some(one_shot) = &overrides.one_shot {
        if let Err(error) = validate_named_config_file(one_shot) {
            return Err(error);
        }
    }
    if let Err(error) = validate_named_snapshot(&overrides.cli, "cli", false) {
        return Err(error);
    }
    let mut merged = bundle.to_snapshot();
    if let Some(instructions) = &overrides.bundle_skill_instructions {
        let prompt = match &merged.base_prompt {
            Some(prompt) => if !text::blank(prompt.as_str()) {
                text::concat3(prompt.as_str(), "\n\n", instructions.as_str())
            } else {
                instructions.clone()
            },
            None => instructions.clone(),
        };
        merged.base_prompt = Some(prompt);
    }
    if let Some(one_shot) = &overrides.one_shot {
        apply_file_snapshot(&mut merged, one_shot, &merges.with_one_shot);
    }
    apply_snapshot(&mut merged, &overrides.cli, &merges.with_cli);
    override_text(&mut merged.base_prompt, &overrides.invoked_skill_instructions);
    assert(merged@ == merged_config(
        bundle@,
        overrides@,
        servers_opt(merges.with_one_shot),
        servers_opt(merges.with_cli),
    ));
    if let Err(error) = validate_named_snapshot(&merged, "effective", true) {
        return Err(error);
    }
    Ok(merged)
}

// ---------------------------------------------------------------------------
// Records.

/// A bundle that was read, with its identity and its revision.
#[derive(Clone, Debug, PartialEq)]
pub struct NamedAgentRecord {
    id: u128,
    bundle: NamedAgentBundle,
    path: String,
    revision: String,
}

/// What a record says.
#[verifier::ext_equal]
pub struct RecordModel {
    pub id: u128,
    pub bundle: BundleModel,
    pub path: Seq<char>,
    pub revision: Seq<char>,
}

impl View for NamedAgentRecord {
    type V = RecordModel;

    closed spec fn view(&self) -> RecordModel {
        RecordModel {
            id: self.id,
            bundle: self.bundle@,
            path: self.path@,
            revision: self.revision@,
        }
    }
}

impl NamedAgentRecord {
    pub fn new(id: u128, bundle: NamedAgentBundle, path: String, revision: String) -> (r: Self)
        ensures
            r@ == (RecordModel { id, bundle: bundle@, path: path@, revision: revision@ }),
    {
        NamedAgentRecord { id, bundle, path, revision }
    }

    /// A record of a bundle that is not in a file.
    pub fn from_parts(id: u128, bundle: NamedAgentBundle) -> (r: Self)
        ensures
            r@ == (RecordModel {
                id,
                bundle: bundle@,
                path: Seq::empty(),
                revision: Seq::empty(),
            }),
    {
        let r = NamedAgentRecord { id, bundle, path: String::new(), revision: String::new() };
        assert(r@ =~= (RecordModel {
            id,
            bundle: bundle@,
            path: Seq::empty(),
            revision: Seq::empty(),
        }));
        r
    }

    pub fn id(&self) -> (r: u128)
        ensures
            r == self@.id,
    {
        self.id
    }

    pub fn bundle(&self) -> (r: &NamedAgentBundle)
        ensures
            r@ == self@.bundle,
    {
        &self.bundle
    }

    pub fn path(&self) -> (r: &str)
        ensures
            r@ == self@.path,
    {
        self.path.as_str()
    }

    pub fn revision(&self) -> (r: &str)
        ensures
            r@ == self@.revision,
    {
        self.revision.as_str()
    }
}

/// What is kept of a run for a restart: references and a configuration without
/// the prompt and without credentials.
#[derive(Clone, Debug, PartialEq)]
pub struct LocalNamedAgentRunMetadata {
    pub run_id: u128,
    pub named_agent_id: u128,
    pub bundle_revision: String,
    pub effective_config: AgentConfigSnapshot,
    /// Every skill of the bundle in its order.
    pub ordered_skills: Vec<String>,
    pub secret_refs: Option<AgentBundleSecretRefs>,
}

/// What the metadata of a run say.
#[verifier::ext_equal]
pub struct MetadataModel {
    pub run_id: u128,
    pub named_agent_id: u128,
    pub bundle_revision: Seq<char>,
    pub effective_config: SnapshotModel,
    pub ordered_skills: Seq<Seq<char>>,
    pub secret_refs: Option<SecretRefsModel>,
}

impl View for LocalNamedAgentRunMetadata {
    type V = MetadataModel;

    open spec fn view(&self) -> MetadataModel {
        MetadataModel {
            run_id: self.run_id,
            named_agent_id: self.named_agent_id,
            bundle_revision: self.bundle_revision@,
            effective_config: self.effective_config@,
            ordered_skills: text::texts(self.ordered_skills@),
            secret_refs: secrets_opt(self.secret_refs),
        }
    }
}

/// A configuration without its prompt, its credentials and its host.
pub open spec fn restartable(config: SnapshotModel) -> SnapshotModel {
    AgentConfigSnapshot {
        base_prompt: None,
        harness_auth_secrets: None,
        worker_host: None,
        ..config
    }
}

/// The texts of references to skills.
pub open spec fn skill_texts(skills: Seq<SkillModel>) -> Seq<Seq<char>> {
    Seq::new(skills.len(), |i: int| skills[i].text)
}

/// What is kept of a run.
pub open spec fn metadata_of(
    run_id: u128,
    record: RecordModel,
    config: SnapshotModel,
) -> MetadataModel {
    MetadataModel {
        run_id,
        named_agent_id: record.id,
        bundle_revision: record.revision,
        effective_config: restartable(config),
        ordered_skills: skill_texts(record.bundle.skills),
        secret_refs: record.bundle.secret_refs,
    }
}

impl LocalNamedAgentRunMetadata {
    pub fn from_record(
        run_id: u128,
        record: &NamedAgentRecord,
        effective_config: &AgentConfigSnapshot,
    ) -> (r: Self)
        ensures
            r@ == metadata_of(run_id, record@, effective_config@),
    {
        let mut config = effective_config.clone();
        config.base_prompt = None;
        config.harness_auth_secrets = None;
        config.worker_host = None;
        let skills = &record.bundle.skills;
        let mut ordered_skills: Vec<String> = Vec::new();
        let mut i: usize = 0;
        while i < skills.len()
            invariant
                i <= skills.len(),
                ordered_skills.len() == i,
                forall|j: int| 0 <= j < i ==> (#[trigger] ordered_skills@[j])@ == skills@[j].text@,
            decreases skills.len() - i,
        {
            ordered_skills.push(skills[i].text.clone());
            i += 1;
        }
        assert(text::texts(ordered_skills@) =~= skill_texts(record@.bundle.skills));
        LocalNamedAgentRunMetadata {
            run_id,
            named_agent_id: record.id,
            bundle_revision: record.revision.clone(),
            effective_config: config,
            ordered_skills,
            secret_refs: clone_secrets(&record.bundle.secret_refs),
        }
    }
}

/// The line of a record in a list.
pub open spec fn record_line(record: RecordModel) -> Seq<char> {
    "local named agent\t"@ + ids::hyphenated(record.id) + "\t"@ + record.bundle.name + "\n"@
}

pub open spec fn record_models(v: Seq<NamedAgentRecord>) -> Seq<RecordModel> {
    Seq::new(v.len(), |i: int| v[i]@)
}

/// A list of records in lines: identity and name only.
pub open spec fn record_lines(records: Seq<RecordModel>) -> Seq<char>
    decreases records.len(),
{
    if records.len() == 0 {
        Seq::empty()
    } else {
        record_lines(records.drop_last()) + record_line(records.last())
    }
}

/// Lists records in lines without prompts or references to credentials.
pub fn format_named_agent_list(records: &Vec<NamedAgentRecord>) -> (r: String)
    ensures
        r@ == record_lines(record_models(records@)),
{
    let ghost all = record_models(records@);
    let mut out = String::new();
    let mut i: usize = 0;
    assert(all.subrange(0, 0) =~= Seq::<RecordModel>::empty());
    while i < records.len()
        invariant
            i <= records.len(),
            all == record_models(records@),
            out@ == record_lines(all.subrange(0, i as int)),
        decreases records.len() - i,
    {
        let record = &records[i];
        let ghost part = all.subrange(0, i + 1);
        assert(part.drop_last() =~= all.subrange(0, i as int));
        assert(part.last() == record@);
        let line = text::concat5(
            "local named agent\t",
            ids::uuid_text(record.id).as_str(),
            "\t",
            record.bundle.name.as_str(),
            "\n",
        );
        out = text::joined(out.as_str(), line.as_str());
        i += 1;
    }
    assert(all.subrange(0, all.len() as int) =~= all);
    out
}

/// The specifications of the servers that a run starts, where `specs` is what
/// the servers of the bundle give.
pub fn runtime_mcp_specs<T>(bundle: &NamedAgentBundle, specs: Result<Vec<T>, String>) -> (r: Result<
    Vec<T>,
    NamedAgentError,
>)
    ensures
        match r {
            Ok(found) => bundle_problem(bundle@) is None && match bundle@.mcp_servers {
                Some(_) => specs is Ok && found == specs->Ok_0,
                None => found@ == Seq::<T>::empty(),
            },
            Err(e) => if bundle_problem(bundle@) is Some {
                bundle_problem(bundle@) == Some(e@)
            } else {
                bundle@.mcp_servers is Some && specs is Err && e@ == invalid(specs->Err_0@)
            },
        },
{
    if let Err(error) = bundle.validate() {
        return Err(error);
    }
    match &bundle.mcp_servers {
        Some(_) => match specs {
            Ok(specs) => Ok(specs),
            Err(error) => Err(NamedAgentError::InvalidBundle { reason: error }),
        },
        None => Ok(Vec::new()),
    }
}

/// A profile's identity: given on this device, or by a server.
pub enum ProfileSyncId<C, I> {
    ClientId(C),
    ServerId(I),
}

/// Reads the identity of a profile, where `client` and `server` are what it is
/// as an identity of either form. The form of this device comes first.
pub fn profile_sync_id<C, I>(value: &str, client: Option<C>, server: Option<I>) -> (r: Result<
    ProfileSyncId<C, I>,
    NamedAgentError,
>)
    ensures
        match r {
            Ok(ProfileSyncId::ClientId(c)) => client == Some(c),
            Ok(ProfileSyncId::ServerId(s)) => client is None && server == Some(s),
            Err(e) => client is None && server is None && e@ == invalid(
                "profile_id '"@ + value@ + "' is neither a valid ServerId nor ClientId"@,
            ),
        },
{
    match client {
        Some(id) => Ok(ProfileSyncId::ClientId(id)),
        None => match server {
            Some(id) => Ok(ProfileSyncId::ServerId(id)),
            None => Err(
                invalid_bundle(
                    text::concat3(
                        "profile_id '",
                        value,
                        "' is neither a valid ServerId nor ClientId",
                    ).as_str(),
                ),
            ),
        },
    }
}

// ---------------------------------------------------------------------------
// Bundles from the command line.

/// The fields of a bundle on the command line.
pub struct NamedAgentFieldsArgs {
    pub name: Option<String>,
    pub description: Option<String>,
    pub base_prompt: Option<String>,
    pub model_id: Option<String>,
    pub profile_id: Option<String>,
    pub skills: Vec<SkillReference>,
    /// The servers that the arguments give, or why they cannot be built; absent
    /// where no argument names a server.
    pub mcp_servers: Option<Result<McpServers, String>>,
    pub harness: Option<Harness>,
    pub computer_use: Option<bool>,
    /// Arguments of the form `NAME=ENV_VAR`.
    pub secret_env: Vec<String>,
    pub secret_keychain: Vec<String>,
}

/// The two sides of the first equals sign of a text.
pub open spec fn env_sides(entry: Seq<char>) -> Option<(Seq<char>, Seq<char>)> {
    let at = text::first_index(entry, '=');
    if at >= entry.len() {
        None
    } else {
        Some((entry.subrange(0, at), entry.subrange(at + 1, entry.len() as int)))
    }
}

/// Pairs in ascending order of names with one more, which takes the place of
/// one with the same name.
pub open spec fn with_pair(
    pairs: Seq<(Seq<char>, Seq<char>)>,
    pair: (Seq<char>, Seq<char>),
) -> Seq<(Seq<char>, Seq<char>)>
    decreases pairs.len(),
{
    if pairs.len() == 0 {
        seq![pair]
    } else if pairs[0].0 == pair.0 {
        pairs.update(0, pair)
    } else if text::text_at_most(pair.0, pairs[0].0) {
        pairs.insert(0, pair)
    } else {
        seq![pairs[0]] + with_pair(pairs.subrange(1, pairs.len() as int), pair)
    }
}

/// The pairs that arguments give, unless one has no equals sign.
pub open spec fn env_pairs(entries: Seq<Seq<char>>) -> Option<Seq<(Seq<char>, Seq<char>)>>
    decreases entries.len(),
{
    if entries.len() == 0 {
        Some(Seq::empty())
    } else {
        match env_pairs(entries.drop_last()) {
            None => None,
            Some(pairs) => match env_sides(entries.last()) {
                None => None,
                Some(pair) => Some(with_pair(pairs, pair)),
            },
        }
    }
}

/// Where a pair goes.
proof fn lemma_with_pair(
    pairs: Seq<(Seq<char>, Seq<char>)>,
    pair: (Seq<char>, Seq<char>),
    n: int,
)
    requires
        0 <= n <= pairs.len(),
        forall|j: int|
            0 <= j < n ==> (#[trigger] pairs[j]).0 != pair.0 && !text::text_at_most(
                pair.0,
                pairs[j].0,
            ),
        n < pairs.len() ==> pairs[n].0 == pair.0 || text::text_at_most(pair.0, pairs[n].0),
    ensures
        n < pairs.len() && pairs[n].0 == pair.0 ==> with_pair(pairs, pair) == pairs.update(
            n,
            pair,
        ),
        !(n < pairs.len() && pairs[n].0 == pair.0) ==> with_pair(pairs, pair) == pairs.insert(
            n,
            pair,
        ),
    decreases n,
{
    if n == 0 {
        if pairs.len() == 0 {
            assert(pairs.insert(0, pair) =~= seq![pair]);
        }
    } else {
        let rest = pairs.subrange(1, pairs.len() as int);
        assert(pairs[0].0 != pair.0);
        assert forall|j: int| 0 <= j < n - 1 implies (#[trigger] rest[j]).0 != pair.0
            && !text::text_at_most(pair.0, rest[j].0) by {
            assert(rest[j] == pairs[j + 1]);
        }
        if n < pairs.len() {
            assert(rest[n - 1] == pairs[n]);
        }
        lemma_with_pair(rest, pair, n - 1);
        if n < pairs.len() && pairs[n].0 == pair.0 {
            assert(seq![pairs[0]] + rest.update(n - 1, pair) =~= pairs.update(n, pair));
        } else {
            assert(seq![pairs[0]] + rest.insert(n - 1, pair) =~= pairs.insert(n, pair));
        }
    }
}

fn insert_pair(pairs: &mut Vec<(String, String)>, name: String, value: String)
    ensures
        text_pairs(final(pairs)@) == with_pair(text_pairs(old(pairs)@), (name@, value@)),
{
    let ghost before = text_pairs(pairs@);
    let ghost pair = (name@, value@);
    let mut i: usize = 0;
    while i < pairs.len() && !text::same_text(pairs[i].0.as_str(), name.as_str())
        && !text::is_text_at_most(name.as_str(), pairs[i].0.as_str())
        invariant
            i <= pairs.len(),
            before == text_pairs(pairs@),
            pairs@ == old(pairs)@,
            pair == (name@, value@),
            forall|j: int|
                0 <= j < i ==> (#[trigger] before[j]).0 != pair.0 && !text::text_at_most(
                    pair.0,
                    before[j].0,
                ),
        decreases pairs.len() - i,
    {
        assert(before[i as int].0 == pairs@[i as int].0@);
        i += 1;
    }
    proof {
        if i < pairs.len() {
            assert(before[i as int].0 == pairs@[i as int].0@);
        }
        lemma_with_pair(before, pair, i as int);
    }
    if i < pairs.len() && text::same_text(pairs[i].0.as_str(), name.as_str()) {
        pairs.set(i, (name, value));
        assert(text_pairs(pairs@) =~= before.update(i as int, pair));
    } else {
        pairs.insert(i, (name, value));
        assert(text_pairs(pairs@) =~= before.insert(i as int, pair));
    }
}

/// Arguments before a bad one give nothing.
proof fn lemma_env_pairs_prefix(entries: Seq<Seq<char>>, n: int)
    requires
        0 <= n <= entries.len(),
        env_pairs(entries.subrange(0, n)) is None,
    ensures
        env_pairs(entries) is None,
    decreases entries.len() - n,
{
    if n < entries.len() {
        assert(entries.subrange(0, n + 1).drop_last() =~= entries.subrange(0, n));
        lemma_env_pairs_prefix(entries, n + 1);
    } else {
        assert(entries.subrange(0, n) =~= entries);
    }
}

fn collect_env_pairs(entries: &Vec<String>) -> (r: Option<Vec<(String, String)>>)
    ensures
        match r {
            Some(pairs) => env_pairs(text::texts(entries@)) == Some(text_pairs(pairs@)),
            None => env_pairs(text::texts(entries@)) is None,
        },
{
    let ghost all = text::texts(entries@);
    let mut out: Vec<(String, String)> = Vec::new();
    let mut i: usize = 0;
    assert(all.subrange(0, 0) =~= Seq::<Seq<char>>::empty());
    assert(text_pairs(out@) =~= Seq::<(Seq<char>, Seq<char>)>::empty());
    while i < entries.len()
        invariant
            i <= entries.len(),
            all == text::texts(entries@),
            env_pairs(all.subrange(0, i as int)) == Some(text_pairs(out@)),
        decreases entries.len() - i,
    {
        let chars = text::chars_of(entries[i].as_str());
        let ghost part = all.subrange(0, i + 1);
        assert(part.drop_last() =~= all.subrange(0, i as int));
        assert(part.last() == chars@);
        let at: usize = text::find_char(&chars, '=');
        if at >= chars.len() {
            proof {
                lemma_env_pairs_prefix(all, i + 1);
            }
            return None;
        }
        let name = text::string_from(&chars, 0, at);
        let value = text::string_from(&chars, at + 1, chars.len());
        insert_pair(&mut out, name, value);
        i += 1;
    }
    assert(all.subrange(0, all.len() as int) =~= all);
    Some(out)
}

/// The existing value of a field, if there is a bundle.
pub open spec fn kept<T>(existing: Option<BundleModel>, value: spec_fn(BundleModel) -> T) -> Option<
    T,
> {
    match existing {
        Some(bundle) => Some(value(bundle)),
        None => None,
    }
}

pub open spec fn bundle_opt(o: Option<&NamedAgentBundle>) -> Option<BundleModel> {
    match o {
        Some(bundle) => Some(bundle@),
        None => None,
    }
}

/// The references to credentials that the arguments give.
pub open spec fn given_secrets(
    fields: NamedAgentFieldsArgs,
    existing: Option<BundleModel>,
) -> Result<Option<SecretRefsModel>, Seq<char>> {
    if fields.secret_env@.len() == 0 && fields.secret_keychain@.len() == 0 {
        Ok(
            match existing {
                Some(bundle) => bundle.secret_refs,
                None => None,
            },
        )
    } else {
        match env_pairs(text::texts(fields.secret_env@)) {
            Some(pairs) => Ok(
                Some(
                    SecretRefsModel {
                        env_vars: pairs,
                        keychain_entries: text::texts(fields.secret_keychain@),
                    },
                ),
            ),
            None => Err("--secret-env expects NAME=ENV_VAR"@),
        }
    }
}

/// The servers that the arguments give.
pub open spec fn given_servers(
    fields: NamedAgentFieldsArgs,
    existing: Option<BundleModel>,
) -> Result<Option<ServersModel>, Seq<char>> {
    match fields.mcp_servers {
        None => Ok(
            match existing {
                Some(bundle) => bundle.mcp_servers,
                None => None,
            },
        ),
        Some(Ok(servers)) => Ok(Some(servers@)),
        Some(Err(e)) => Err(e@),
    }
}

/// A field from the arguments, or else from the existing bundle.
pub open spec fn field_or<T>(given: Option<T>, existing: Option<Option<T>>) -> Option<T> {
    if given is Some {
        given
    } else {
        match existing {
            Some(value) => value,
            None => None,
        }
    }
}

/// The bundle that the arguments give over an existing one.
pub open spec fn bundle_outcome(
    fields: NamedAgentFieldsArgs,
    existing: Option<BundleModel>,
) -> Result<BundleModel, Seq<char>> {
    let name = field_or(
        text::text_opt(fields.name),
        kept(existing, |b: BundleModel| Some(b.name)),
    );
    let model_id = field_or(
        text::text_opt(fields.model_id),
        kept(existing, |b: BundleModel| Some(b.model_id)),
    );
    if name is None {
        Err("--name is required"@)
    } else if model_id is None {
        Err("--model is required"@)
    } else if given_servers(fields, existing) is Err {
        Err(given_servers(fields, existing)->Err_0)
    } else if given_secrets(fields, existing) is Err {
        Err(given_secrets(fields, existing)->Err_0)
    } else {
        Ok(
            BundleModel {
                name: name->0,
                description: field_or(
                    text::text_opt(fields.description),
                    kept(existing, |b: BundleModel| b.description),
                ),
                base_prompt: field_or(
                    text::text_opt(fields.base_prompt),
                    kept(existing, |b: BundleModel| b.base_prompt),
                ),
                model_id: model_id->0,
                profile_id: field_or(
                    text::text_opt(fields.profile_id),
                    kept(existing, |b: BundleModel| b.profile_id),
                ),
                skills: if fields.skills@.len() > 0 || existing is None {
                    skill_models(fields.skills@)
                } else {
                    existing->0.skills
                },
                mcp_servers: given_servers(fields, existing)->Ok_0,
                harness: match fields.harness {
                    Some(harness) => harness,
                    None => match existing {
                        Some(bundle) => bundle.harness,
                        None => Harness::Oz,
                    },
                },
                computer_use_enabled: field_or(
                    fields.computer_use,
                    kept(existing, |b: BundleModel| b.computer_use_enabled),
                ),
                secret_refs: given_secrets(fields, existing)->Ok_0,
            },
        )
    }
}

fn text_or(given: &Option<String>, existing: Option<&Option<String>>) -> (r: Option<String>)
    ensures
        text::text_opt(r) == field_or(
            text::text_opt(*given),
            match existing {
                Some(value) => Some(text::text_opt(*value)),
                None => None,
            },
        ),
{
    match given {
        Some(value) => Some(value.clone()),
        None => match existing {
            Some(value) => text::clone_opt(value),
            None => None,
        },
    }
}

pub open spec fn bundle_result(r: Result<NamedAgentBundle, String>) -> Result<
    BundleModel,
    Seq<char>,
> {
    match r {
        Ok(bundle) => Ok(bundle@),
        Err(e) => Err(e@),
    }
}

fn required_text(given: &Option<String>, existing: Option<&String>) -> (r: Option<String>)
    ensures
        text::text_opt(r) == field_or(
            text::text_opt(*given),
            match existing {
                Some(value) => Some(Some(value@)),
                None => None,
            },
        ),
{
    match given {
        Some(value) => Some(value.clone()),
        None => match existing {
            Some(value) => Some(value.clone()),
            None => None,
        },
    }
}

fn secrets_from_fields(fields: &NamedAgentFieldsArgs, existing: Option<&NamedAgentBundle>) -> (r:
    Result<Option<AgentBundleSecretRefs>, String>)
    ensures
        match r {
            Ok(refs) => given_secrets(*fields, bundle_opt(existing)) == Ok::<
                Option<SecretRefsModel>,
                Seq<char>,
            >(secrets_opt(refs)),
            Err(e) => given_secrets(*fields, bundle_opt(existing)) == Err::<
                Option<SecretRefsModel>,
                Seq<char>,
            >(e@),
        },
{
    if fields.secret_env.len() == 0 && fields.secret_keychain.len() == 0 {
        return Ok(
            match existing {
                Some(bundle) => clone_secrets(&bundle.secret_refs),
                None => None,
            },
        );
    }
    match collect_env_pairs(&fields.secret_env) {
        Some(env_vars) => Ok(
            Some(
                AgentBundleSecretRefs {
                    env_vars,
                    keychain_entries: text::clone_strings(&fields.secret_keychain),
                },
            ),
        ),
        None => Err("--secret-env expects NAME=ENV_VAR".to_owned()),
    }
}

/// Makes a bundle from arguments, over an existing one.
pub fn bundle_from_fields(fields: &NamedAgentFieldsArgs, existing: Option<&NamedAgentBundle>) -> (r:
    Result<NamedAgentBundle, String>)
    ensures
        bundle_result(r) == bundle_outcome(*fields, bundle_opt(existing)),
{
    let name = match required_text(
        &fields.name,
        match existing {
            Some(bundle) => Some(&bundle.name),
            None => None,
        },
    ) {
        Some(name) => name,
        None => {
            return Err("--name is required".to_owned());
        },
    };
    let model_id = match required_text(
        &fields.model_id,
        match existing {
            Some(bundle) => Some(&bundle.model_id),
            None => None,
        },
    ) {
        Some(model_id) => model_id,
        None => {
            return Err("--model is required".to_owned());
        },
    };
    let mcp_servers = match &fields.mcp_servers {
        None => match existing {
            Some(bundle) => clone_servers(&bundle.mcp_servers),
            None => None,
        },
        Some(Ok(servers)) => Some(servers.clone()),
        Some(Err(error)) => {
            return Err(error.clone());
        },
    };
    let secret_refs = match secrets_from_fields(fields, existing) {
        Ok(refs) => refs,
        Err(error) => {
            return Err(error);
        },
    };
    let skills = if fields.skills.len() > 0 {
        clone_skills(&fields.skills)
    } else {
        match existing {
            Some(bundle) => clone_skills(&bundle.skills),
            None => clone_skills(&fields.skills),
        }
    };
    let harness = match fields.harness {
        Some(harness) => harness,
        None => match existing {
            Some(bundle) => bundle.harness,
            None => Harness::Oz,
        },
    };
    let computer_use_enabled = match fields.computer_use {
        Some(enabled) => Some(enabled),
        None => match existing {
            Some(bundle) => bundle.computer_use_enabled,
            None => None,
        },
    };
    let bundle = match existing {
        Some(old_bundle) => NamedAgentBundle {
            name,
            description: text_or(&fields.description, Some(&old_bundle.description)),
            base_prompt: text_or(&fields.base_prompt, Some(&old_bundle.base_prompt)),
            model_id,
            profile_id: text_or(&fields.profile_id, Some(&old_bundle.profile_id)),
            skills,
            mcp_servers,
            harness,
            computer_use_enabled,
            secret_refs,
        },
        None => NamedAgentBundle {
            name,
            description: text_or(&fields.description, None),
            base_prompt: text_or(&fields.base_prompt, None),
            model_id,
            profile_id: text_or(&fields.profile_id, None),
            skills,
            mcp_servers,
            harness,
            computer_use_enabled,
            secret_refs,
        },
    };
    assert(bundle_outcome(*fields, bundle_opt(existing)) == Ok::<BundleModel, Seq<char>>(bundle@));
    Ok(bundle)
}

// ---------------------------------------------------------------------------
// Laws.

/// Where a run is made, the command line wins over the one-shot file, and the
/// file over the bundle.
pub proof fn law_command_line_wins(
    bundle: BundleModel,
    overrides: OverridesModel,
    with_one_shot: Option<ServersModel>,
    with_cli: Option<ServersModel>,
)
    ensures
        ({
            let config = merged_config(bundle, overrides, with_one_shot, with_cli);
            let cli = overrides.cli;
            let file = overrides.one_shot;
            &&& config.model_id == overridden(
                match file {
                    Some(file) => overridden(Some(bundle.model_id), file.model_id),
                    None => Some(bundle.model_id),
                },
                cli.model_id,
            )
            &&& config.name == overridden(
                match file {
                    Some(file) => overridden(Some(bundle.name), file.name),
                    None => Some(bundle.name),
                },
                cli.name,
            )
            &&& config.profile_id == overridden(
                match file {
                    Some(file) => overridden(bundle.profile_id, file.profile_id),
                    None => bundle.profile_id,
                },
                cli.profile_id,
            )
            &&& config.computer_use_enabled == overridden(
                match file {
                    Some(file) => overridden(
                        bundle.computer_use_enabled,
                        file.computer_use_enabled,
                    ),
                    None => bundle.computer_use_enabled,
                },
                cli.computer_use_enabled,
            )
        }),
{
}

/// The instructions of an invoked skill are the prompt, whatever else is given.
pub proof fn law_invoked_skill_is_the_prompt(
    bundle: BundleModel,
    overrides: OverridesModel,
    with_one_shot: Option<ServersModel>,
    with_cli: Option<ServersModel>,
)
    requires
        overrides.invoked_skill_instructions is Some,
    ensures
        merged_config(bundle, overrides, with_one_shot, with_cli).base_prompt
            == overrides.invoked_skill_instructions,
{
}

/// A run that is made is a local one: with a concrete model or a local router,
/// a known harness and no literal secret in its prompt, and without a hosted
/// environment, host or managed credentials.
pub proof fn law_run_is_local(
    bundle: BundleModel,
    overrides: OverridesModel,
    with_one_shot: Option<ServersModel>,
    with_cli: Option<ServersModel>,
)
    requires
        merge_problem(bundle, overrides, with_one_shot, with_cli) is None,
    ensures
        ({
            let config = merged_config(bundle, overrides, with_one_shot, with_cli);
            &&& config.environment_id is None
            &&& config.worker_host is None
            &&& config.harness_auth_secrets is None
            &&& config.model_id is Some
            &&& concrete_model(config.model_id->0) || local_router(config.model_id->0)
            &&& config.harness is Some
            &&& !(config.harness->0.harness_type is Unknown)
            &&& config.base_prompt is Some ==> !secrets::secret_like(config.base_prompt->0)
        }),
{
}

/// Without overrides a run is what the bundle says.
pub proof fn law_bundle_alone_is_the_run(bundle: BundleModel, overrides: OverridesModel)
    requires
        bundle_problem(bundle) is None,
        overrides.one_shot is None,
        overrides.bundle_skill_instructions is None,
        overrides.invoked_skill_instructions is None,
        overrides.cli == (AgentConfigSnapshot::<Seq<char>, SkillModel, ServersModel> {
            name: None,
            environment_id: None,
            model_id: None,
            base_prompt: None,
            mcp_servers: None,
            profile_id: None,
            worker_host: None,
            skill_spec: None,
            computer_use_enabled: None,
            harness: None,
            harness_auth_secrets: None,
        }),
    ensures
        merged_config(bundle, overrides, None, None) == snapshot_of(bundle),
        merge_problem(bundle, overrides, None, None) is None,
{
    if bundle.skills.len() > 0 {
        lemma_first_skill(bundle.skills);
    }
}

/// A list of skills without a problem starts with a skill without one.
proof fn lemma_first_skill(skills: Seq<SkillModel>)
    requires
        skills.len() > 0,
        skills_problem(skills) is None,
    ensures
        skill_problem(skills[0]) is None,
    decreases skills.len(),
{
    if skills.len() > 1 {
        lemma_first_skill(skills.drop_last());
    }
}

/// A list tells nothing of its named agents but their identities and names.
pub proof fn law_list_shows_identity_and_name_only(a: Seq<RecordModel>, b: Seq<RecordModel>)
    requires
        a.len() == b.len(),
        forall|i: int|
            0 <= i < a.len() ==> (#[trigger] a[i]).id == b[i].id && a[i].bundle.name
                == b[i].bundle.name,
    ensures
        record_lines(a) == record_lines(b),
    decreases a.len(),
{
    if a.len() > 0 {
        let init = a.drop_last();
        assert forall|i: int| 0 <= i < init.len() implies (#[trigger] init[i]).id
            == b.drop_last()[i].id && init[i].bundle.name == b.drop_last()[i].bundle.name by {
            assert(init[i] == a[i]);
        }
        law_list_shows_identity_and_name_only(init, b.drop_last());
        assert(a[a.len() - 1].id == b[a.len() - 1].id);
    }
}

/// What is kept of a run holds neither its prompt nor credentials.
pub proof fn law_kept_run_holds_no_prompt(run_id: u128, record: RecordModel, config: SnapshotModel)
    ensures
        metadata_of(run_id, record, config).effective_config.base_prompt is None,
        metadata_of(run_id, record, config).effective_config.harness_auth_secrets is None,
        metadata_of(run_id, record, config).effective_config.worker_host is None,
{
}

/// A bundle that passes holds no literal secret in its texts, and every
/// environment variable that it refers to has a proper name.
pub proof fn law_valid_bundle_holds_references_only(b: BundleModel, i: int)
    requires
        bundle_problem(b) is None,
        b.secret_refs is Some ==> 0 <= i < b.secret_refs->0.env_vars.len(),
    ensures
        b.description is Some ==> !secrets::secret_like(b.description->0),
        b.base_prompt is Some ==> !secrets::secret_like(b.base_prompt->0),
        b.secret_refs is Some ==> secrets::env_var_name(b.secret_refs->0.env_vars[i].1),
{
    if b.secret_refs is Some {
        lemma_env_refs_all(b.secret_refs->0.env_vars, i);
    }
}

proof fn lemma_env_refs_all(pairs: Seq<(Seq<char>, Seq<char>)>, i: int)
    requires
        env_refs_problem(pairs) is None,
        0 <= i < pairs.len(),
    ensures
        env_ref_ok(pairs[i]),
    decreases pairs.len(),
{
    if i < pairs.len() - 1 {
        lemma_env_refs_all(pairs.drop_last(), i);
    }
}

/// A set of servers that passes refers to no managed server.
pub proof fn law_valid_servers_are_not_managed(servers: ServersModel, i: int)
    requires
        servers_problem(Some(servers)) is None,
        0 <= i < servers.servers.len(),
    ensures
        !has_member(servers.servers[i].1, "warp_id"@),
{
    lemma_managed_all(servers.servers, i);
}

proof fn lemma_managed_all(servers: Seq<(Seq<char>, JsonModel)>, i: int)
    requires
        managed_problem(servers) is None,
        0 <= i < servers.len(),
    ensures
        !has_member(servers[i].1, "warp_id"@),
    decreases servers.len(),
{
    if i < servers.len() - 1 {
        lemma_managed_all(servers.drop_last(), i);
    }
}

// ---------------------------------------------------------------------------
// What a run is made of.

/// Every setting of a run is that of the command line where it gives one, else
/// that of the one-shot file where it gives one, else that of the bundle. This
/// holds of the prompt too where no skill was invoked, of the harness, of the
/// skill and of the servers, which are those merged for the last override that
/// has some.
pub proof fn law_the_last_to_speak_decides(
    bundle: BundleModel,
    overrides: OverridesModel,
    with_one_shot: Option<ServersModel>,
    with_cli: Option<ServersModel>,
)
    ensures
        ({
            let config = merged_config(bundle, overrides, with_one_shot, with_cli);
            let cli = overrides.cli;
            let calm = overrides.invoked_skill_instructions is None;
            &&& cli.name is Some ==> config.name == cli.name
            &&& cli.model_id is Some ==> config.model_id == cli.model_id
            &&& cli.base_prompt is Some && calm ==> config.base_prompt == cli.base_prompt
            &&& cli.profile_id is Some ==> config.profile_id == cli.profile_id
            &&& cli.skill_spec is Some ==> config.skill_spec == cli.skill_spec
            &&& cli.computer_use_enabled is Some ==> config.computer_use_enabled
                == cli.computer_use_enabled
            &&& cli.harness is Some ==> config.harness == cli.harness
            &&& cli.mcp_servers is Some ==> config.mcp_servers == with_cli
            &&& overrides.one_shot matches Some(file) ==> {
                &&& cli.name is None && file.name is Some ==> config.name == file.name
                &&& cli.model_id is None && file.model_id is Some ==> config.model_id
                    == file.model_id
                &&& cli.base_prompt is None && file.base_prompt is Some && calm
                    ==> config.base_prompt == file.base_prompt
                &&& cli.profile_id is None && file.profile_id is Some ==> config.profile_id
                    == file.profile_id
                &&& cli.skill_spec is None && file.skill_spec is Some ==> config.skill_spec
                    == file.skill_spec
                &&& cli.computer_use_enabled is None && file.computer_use_enabled is Some
                    ==> config.computer_use_enabled == file.computer_use_enabled
                &&& cli.harness is None && file.harness is Some ==> config.harness == file.harness
                &&& cli.mcp_servers is None && file.mcp_servers is Some ==> config.mcp_servers
                    == with_one_shot
            }
            &&& cli.name is None && (overrides.one_shot matches Some(file) ==> file.name is None)
                ==> config.name == Some(bundle.name)
            &&& cli.model_id is None && (overrides.one_shot matches Some(file)
                ==> file.model_id is None) ==> config.model_id == Some(bundle.model_id)
            &&& cli.base_prompt is None && (overrides.one_shot matches Some(file)
                ==> file.base_prompt is None) && calm && overrides.bundle_skill_instructions is None
                ==> config.base_prompt == bundle.base_prompt
            &&& cli.profile_id is None && (overrides.one_shot matches Some(file)
                ==> file.profile_id is None) ==> config.profile_id == bundle.profile_id
            &&& cli.skill_spec is None && (overrides.one_shot matches Some(file)
                ==> file.skill_spec is None) ==> (bundle.skills.len() > 0 ==> config.skill_spec
                == Some(bundle.skills.first())) && (bundle.skills.len() == 0
                ==> config.skill_spec is None)
            &&& cli.computer_use_enabled is None && (overrides.one_shot matches Some(file)
                ==> file.computer_use_enabled is None) ==> config.computer_use_enabled
                == bundle.computer_use_enabled
            &&& cli.harness is None && (overrides.one_shot matches Some(file)
                ==> file.harness is None) ==> config.harness is Some
                && config.harness->0.harness_type == bundle.harness
            &&& cli.mcp_servers is None && (overrides.one_shot matches Some(file)
                ==> file.mcp_servers is None) ==> config.mcp_servers == bundle.mcp_servers
        }),
{
}

/// The instructions of a bundle's skills stand below its prompt, or in its
/// place where it says nothing, as long as nothing overrides the prompt.
pub proof fn law_skill_instructions_stand_below_the_prompt(
    bundle: BundleModel,
    overrides: OverridesModel,
    with_one_shot: Option<ServersModel>,
    with_cli: Option<ServersModel>,
    instructions: Seq<char>,
)
    requires
        overrides.bundle_skill_instructions == Some(instructions),
        overrides.invoked_skill_instructions is None,
        overrides.cli.base_prompt is None,
        overrides.one_shot matches Some(file) ==> file.base_prompt is None,
    ensures
        ({
            let config = merged_config(bundle, overrides, with_one_shot, with_cli);
            &&& config.base_prompt is Some
            &&& bundle.base_prompt is Some && !text::is_blank(bundle.base_prompt->0)
                ==> config.base_prompt == Some(
                bundle.base_prompt->0 + "\n\n"@ + instructions,
            )
            &&& (bundle.base_prompt is None || text::is_blank(bundle.base_prompt->0))
                ==> config.base_prompt == Some(instructions)
        }),
{
}

/// A run is made exactly where the bundle, the file, the command line and what
/// they come to pass their checks.
pub proof fn law_runs_that_are_made(
    bundle: BundleModel,
    overrides: OverridesModel,
    with_one_shot: Option<ServersModel>,
    with_cli: Option<ServersModel>,
)
    ensures
        merge_problem(bundle, overrides, with_one_shot, with_cli) is None <==> {
            &&& bundle_problem(bundle) is None
            &&& overrides.one_shot matches Some(file) ==> config_file_problem(file) is None
            &&& snapshot_problem(overrides.cli, "cli"@, false) is None
            &&& snapshot_problem(
                merged_config(bundle, overrides, with_one_shot, with_cli),
                "effective"@,
                true,
            ) is None
        },
        bundle_problem(bundle) is Some ==> merge_problem(
            bundle,
            overrides,
            with_one_shot,
            with_cli,
        ) == bundle_problem(bundle),
{
}

/// A configuration passes where it asks for nothing that is hosted, and every
/// part that it has is sound; a model must be there where one is required.
pub proof fn law_sound_configurations(s: SnapshotModel, source: Seq<char>, require_model: bool)
    ensures
        snapshot_problem(s, source, require_model) is None <==> {
            &&& s.environment_id is None
            &&& s.worker_host is None
            &&& s.harness_auth_secrets is None
            &&& s.name matches Some(name) ==> name_problem(name) is None
            &&& s.model_id matches Some(id) ==> concrete_model(id) || local_router(id)
            &&& require_model ==> s.model_id is Some
            &&& s.profile_id matches Some(id) ==> !text::is_blank(id)
            &&& s.base_prompt matches Some(prompt) ==> !secrets::secret_like(prompt)
            &&& s.skill_spec matches Some(skill) ==> skill_problem(skill) is None
            &&& s.harness matches Some(harness) ==> !(harness.harness_type is Unknown)
            &&& servers_problem(s.mcp_servers) is None
        },
{
}

/// A one-shot file passes where it asks for nothing that is hosted, and every
/// part that it has is sound.
pub proof fn law_sound_files(f: FileModel)
    ensures
        config_file_problem(f) is None <==> {
            &&& f.host is None
            &&& f.harness_auth_secrets is None
            &&& f.model_id matches Some(id) ==> concrete_model(id) || local_router(id)
            &&& f.profile_id matches Some(id) ==> !text::is_blank(id)
            &&& f.base_prompt matches Some(prompt) ==> !secrets::secret_like(prompt)
            &&& f.skill_spec matches Some(skill) ==> skill_problem(skill) is None
            &&& f.harness matches Some(harness) ==> !(harness.harness_type is Unknown)
            &&& servers_problem(f.mcp_servers) is None
        },
{
}

/// The arguments of a run pass where it is not sandboxed, and every part that
/// they have is sound.
pub proof fn law_sound_arguments(args: RunAgentArgs)
    ensures
        run_args_problem(args) is None <==> {
            &&& !args.sandboxed
            &&& args.model matches Some(id) ==> concrete_model(id@) || local_router(id@)
            &&& args.profile matches Some(id) ==> !text::is_blank(id@)
            &&& args.prompt matches Some(prompt) ==> !secrets::secret_like(prompt@)
            &&& args.skill matches Some(skill) ==> skill_problem(skill@) is None
        },
{
}

/// A name passes where it has between one and 256 characters without the white
/// space around them, and none of them is a control character.
pub proof fn law_sound_names(name: Seq<char>)
    ensures
        name_problem(name) is None <==> {
            let n = text::trimmed(name);
            &&& 1 <= n.len() <= 256
            &&& forall|i: int| 0 <= i < n.len() ==> !text::is_control_code(#[trigger] n[i])
        },
{
    let n = text::trimmed(name);
    if n.len() > 0 && !has_control(n) {
        assert forall|i: int| 0 <= i < n.len() implies !text::is_control_code(#[trigger] n[i]) by {}
    }
}

/// A model is that of a configured provider or a local router, named without
/// white space.
pub proof fn law_sound_models(provider: Seq<char>, model: Seq<char>, key: Seq<char>, id: Seq<char>)
    ensures
        model_problem(id) is None <==> concrete_model(id) || local_router(id),
        is_segment(provider) && is_segment(model) && !provider.contains('/') && !model.contains('/')
            ==> concrete_model("custom/"@ + provider + "/"@ + model),
        concrete_model(id) ==> exists|p: Seq<char>, m: Seq<char>|
            #![trigger is_segment(p), is_segment(m)]
            is_segment(p) && is_segment(m) && !p.contains('/') && !m.contains('/') && id
                == "custom/"@ + p + "/"@ + m,
        is_segment(key) <==> local_router("custom-router:local:"@ + key),
{
    if !provider.contains('/') {
        providers::law_model_ids_read_back(provider, model);
    }
    if concrete_model(id) {
        let parts = providers::custom_model_parts(id)->0;
        providers::law_model_ids_are_whole(id, parts.0, parts.1);
        assert(is_segment(parts.0) && is_segment(parts.1));
    }
    let prefix = "custom-router:local:"@;
    let whole = prefix + key;
    assert(whole.subrange(0, prefix.len() as int) =~= prefix);
    assert(whole.subrange(prefix.len() as int, whole.len() as int) =~= key);
}

/// A part of a skill's name stays where it is: it says something, it is neither
/// `.` nor `..`, and it holds no slash of either kind and no control character.
pub proof fn law_skill_parts_stay_where_they_are(skill: SkillModel)
    ensures
        skill_problem(skill) is None <==> {
            &&& skill.parsed matches Ok(spec) && stays_here(spec.skill_identifier) && (
            spec.org matches Some(org) ==> stays_here(org)) && (spec.repo matches Some(repo)
                ==> stays_here(repo))
        },
{
    match skill.parsed {
        Ok(spec) => {
            lemma_stays_here(spec.skill_identifier);
            if spec.org is Some {
                lemma_stays_here(spec.org->0);
            }
            if spec.repo is Some {
                lemma_stays_here(spec.repo->0);
            }
        },
        Err(_) => {},
    }
}

pub open spec fn stays_here(value: Seq<char>) -> bool {
    let v = text::trimmed(value);
    &&& v.len() > 0
    &&& v != "."@
    &&& v != ".."@
    &&& forall|i: int|
        0 <= i < v.len() ==> (#[trigger] v[i]) != '/' && v[i] != '\\' && !text::is_control_code(
            v[i],
        )
}

proof fn lemma_stays_here(value: Seq<char>)
    ensures
        stays_here(value) <==> safe_component(value),
{
    let v = text::trimmed(value);
    if safe_component(value) {
        assert forall|i: int| 0 <= i < v.len() implies (#[trigger] v[i]) != '/' && v[i] != '\\'
            && !text::is_control_code(v[i]) by {
            assert(v.contains(v[i]));
        }
    }
    if stays_here(value) {
        if v.contains('/') {
            let i = choose|i: int| 0 <= i < v.len() && v[i] == '/';
            assert(v[i] != '/');
        }
        if v.contains('\\') {
            let i = choose|i: int| 0 <= i < v.len() && v[i] == '\\';
            assert(v[i] != '\\');
        }
    }
}

/// A bundle passes exactly where every part of it is sound.
pub proof fn law_sound_bundles(b: BundleModel)
    ensures
        bundle_problem(b) is None <==> {
            &&& name_problem(b.name) is None
            &&& concrete_model(b.model_id) || local_router(b.model_id)
            &&& !(b.harness is Unknown)
            &&& b.profile_id matches Some(id) ==> !text::is_blank(id)
            &&& forall|i: int|
                0 <= i < b.skills.len() ==> skill_problem(#[trigger] b.skills[i]) is None
            &&& b.secret_refs matches Some(refs) ==> {
                &&& forall|i: int|
                    0 <= i < refs.env_vars.len() ==> !text::is_blank(
                        (#[trigger] refs.env_vars[i]).0,
                    ) && !has_control(refs.env_vars[i].0) && secrets::env_var_name(
                        refs.env_vars[i].1,
                    )
                &&& forall|i: int|
                    0 <= i < refs.keychain_entries.len() ==> !text::is_blank(
                        #[trigger] refs.keychain_entries[i],
                    ) && !has_control(refs.keychain_entries[i])
            }
            &&& b.description matches Some(s) ==> !secrets::secret_like(s)
            &&& b.base_prompt matches Some(s) ==> !secrets::secret_like(s)
            &&& servers_problem(b.mcp_servers) is None
        },
{
    lemma_sound_skills(b.skills);
    if b.secret_refs is Some {
        lemma_sound_env_refs(b.secret_refs->0.env_vars);
        lemma_sound_keychain(b.secret_refs->0.keychain_entries);
    }
}

proof fn lemma_sound_skills(skills: Seq<SkillModel>)
    ensures
        skills_problem(skills) is None <==> forall|i: int|
            0 <= i < skills.len() ==> skill_problem(#[trigger] skills[i]) is None,
    decreases skills.len(),
{
    if skills.len() > 0 {
        let init = skills.drop_last();
        lemma_sound_skills(init);
        if skills_problem(skills) is None {
            assert forall|i: int| 0 <= i < skills.len() implies skill_problem(
                #[trigger] skills[i],
            ) is None by {
                if i < init.len() {
                    assert(init[i] == skills[i]);
                }
            }
        }
        if forall|i: int| 0 <= i < skills.len() ==> skill_problem(#[trigger] skills[i]) is None {
            assert forall|i: int| 0 <= i < init.len() implies skill_problem(
                #[trigger] init[i],
            ) is None by {
                assert(init[i] == skills[i]);
            }
            assert(skills[skills.len() - 1] == skills.last());
        }
    }
}

proof fn lemma_sound_env_refs(pairs: Seq<(Seq<char>, Seq<char>)>)
    ensures
        env_refs_problem(pairs) is None <==> forall|i: int|
            0 <= i < pairs.len() ==> !text::is_blank((#[trigger] pairs[i]).0) && !has_control(
                pairs[i].0,
            ) && secrets::env_var_name(pairs[i].1),
    decreases pairs.len(),
{
    if pairs.len() > 0 {
        let init = pairs.drop_last();
        lemma_sound_env_refs(init);
        if env_refs_problem(pairs) is None {
            assert forall|i: int| 0 <= i < pairs.len() implies !text::is_blank(
                (#[trigger] pairs[i]).0,
            ) && !has_control(pairs[i].0) && secrets::env_var_name(pairs[i].1) by {
                if i < init.len() {
                    assert(init[i] == pairs[i]);
                }
            }
        }
        if forall|i: int|
            0 <= i < pairs.len() ==> !text::is_blank((#[trigger] pairs[i]).0) && !has_control(
                pairs[i].0,
            ) && secrets::env_var_name(pairs[i].1) {
            assert forall|i: int| 0 <= i < init.len() implies !text::is_blank(
                (#[trigger] init[i]).0,
            ) && !has_control(init[i].0) && secrets::env_var_name(init[i].1) by {
                assert(init[i] == pairs[i]);
            }
            assert(pairs[pairs.len() - 1] == pairs.last());
        }
    }
}

proof fn lemma_sound_keychain(entries: Seq<Seq<char>>)
    ensures
        keychain_problem(entries) is None <==> forall|i: int|
            0 <= i < entries.len() ==> !text::is_blank(#[trigger] entries[i]) && !has_control(
                entries[i],
            ),
    decreases entries.len(),
{
    if entries.len() > 0 {
        let init = entries.drop_last();
        lemma_sound_keychain(init);
        if keychain_problem(entries) is None {
            assert forall|i: int| 0 <= i < entries.len() implies !text::is_blank(
                #[trigger] entries[i],
            ) && !has_control(entries[i]) by {
                if i < init.len() {
                    assert(init[i] == entries[i]);
                }
            }
        }
        if forall|i: int|
            0 <= i < entries.len() ==> !text::is_blank(#[trigger] entries[i]) && !has_control(
                entries[i],
            ) {
            assert forall|i: int| 0 <= i < init.len() implies !text::is_blank(
                #[trigger] init[i],
            ) && !has_control(init[i]) by {
                assert(init[i] == entries[i]);
            }
            assert(entries[entries.len() - 1] == entries.last());
        }
    }
}

/// Servers pass where the configuration rules object to nothing, none is
/// managed, and none holds a secret.
pub proof fn law_sound_servers(servers: ServersModel)
    ensures
        servers_problem(Some(servers)) is None <==> {
            &&& servers.problem is None
            &&& forall|i: int|
                0 <= i < servers.servers.len() ==> !has_member(
                    (#[trigger] servers.servers[i]).1,
                    "warp_id"@,
                )
            &&& forall|i: int|
                0 <= i < servers.servers.len() ==> member_rejection(
                    #[trigger] servers.servers[i],
                    "mcp_servers"@,
                ) is None
        },
{
    lemma_unmanaged(servers.servers);
    lemma_sound_members(servers.servers, "mcp_servers"@);
}

proof fn lemma_unmanaged(servers: Seq<(Seq<char>, JsonModel)>)
    ensures
        managed_problem(servers) is None <==> forall|i: int|
            0 <= i < servers.len() ==> !has_member((#[trigger] servers[i]).1, "warp_id"@),
    decreases servers.len(),
{
    if servers.len() > 0 {
        let init = servers.drop_last();
        lemma_unmanaged(init);
        if managed_problem(servers) is None {
            assert forall|i: int| 0 <= i < servers.len() implies !has_member(
                (#[trigger] servers[i]).1,
                "warp_id"@,
            ) by {
                if i < init.len() {
                    assert(init[i] == servers[i]);
                }
            }
        }
        if forall|i: int|
            0 <= i < servers.len() ==> !has_member((#[trigger] servers[i]).1, "warp_id"@) {
            assert forall|i: int| 0 <= i < init.len() implies !has_member(
                (#[trigger] init[i]).1,
                "warp_id"@,
            ) by {
                assert(init[i] == servers[i]);
            }
            assert(servers[servers.len() - 1] == servers.last());
        }
    }
}

proof fn lemma_sound_members(members: Seq<(Seq<char>, JsonModel)>, path: Seq<char>)
    ensures
        members_rejection(members, path) is None <==> forall|i: int|
            0 <= i < members.len() ==> member_rejection(#[trigger] members[i], path) is None,
    decreases members.len(),
{
    if members.len() > 0 {
        let init = members.subrange(0, members.len() - 1);
        lemma_sound_members(init, path);
        if members_rejection(members, path) is None {
            assert forall|i: int| 0 <= i < members.len() implies member_rejection(
                #[trigger] members[i],
                path,
            ) is None by {
                if i < init.len() {
                    assert(init[i] == members[i]);
                }
            }
        }
        if forall|i: int|
            0 <= i < members.len() ==> member_rejection(#[trigger] members[i], path) is None {
            assert forall|i: int| 0 <= i < init.len() implies member_rejection(
                #[trigger] init[i],
                path,
            ) is None by {
                assert(init[i] == members[i]);
            }
            assert(member_rejection(members[members.len() - 1], path) is None);
        }
    }
}

/// A setting whose name tells of a secret holds a reference to one and nothing
/// else; a text elsewhere looks like no secret. Variables and headers are
/// judged by their names alone.
pub proof fn law_secrets_are_references(key: Seq<char>, value: JsonModel, path: Seq<char>)
    requires
        !text::same_but_case(key, "env"@),
        !text::same_but_case(key, "headers"@),
    ensures
        secrets::secret_key(key) && !(value is Text) ==> member_rejection((key, value), path)
            == Some(rejected(path + "."@ + key)),
        value matches JsonModel::Text(t) ==> (member_rejection((key, value), path) is None <==> (
        secrets::secret_key(key) ==> secrets::secret_reference(t)) && !secrets::secret_like(t)),
        value is Object || value is List || value is Text || secrets::secret_key(key)
            || member_rejection((key, value), path) is None,
{
}

/// A variable or a header whose name tells of a secret holds a reference to
/// one, and so does the header of the authorization.
pub proof fn law_variables_and_headers_are_references(
    key: Seq<char>,
    members: Seq<(Seq<char>, JsonModel)>,
    path: Seq<char>,
)
    requires
        text::same_but_case(key, "env"@) || text::same_but_case(key, "headers"@),
    ensures
        member_rejection((key, JsonModel::Object(members)), path) is None <==> forall|i: int|
            0 <= i < members.len() && (secrets::secret_key((#[trigger] members[i]).0) || (
            text::same_but_case(key, "headers"@) && text::same_but_case(
                members[i].0,
                "authorization"@,
            ))) ==> (members[i].1 matches JsonModel::Text(t) && secrets::secret_reference(t)),
{
    lemma_sound_variables(key, members, path + "."@ + key);
}

proof fn lemma_sound_variables(
    key: Seq<char>,
    members: Seq<(Seq<char>, JsonModel)>,
    path: Seq<char>,
)
    ensures
        env_rejection(key, members, path) is None <==> forall|i: int|
            0 <= i < members.len() && must_refer(key, (#[trigger] members[i]).0) ==> is_reference(
                members[i].1,
            ),
    decreases members.len(),
{
    if members.len() > 0 {
        let init = members.drop_last();
        lemma_sound_variables(key, init, path);
        if env_rejection(key, members, path) is None {
            assert forall|i: int|
                0 <= i < members.len() && must_refer(key, (#[trigger] members[i]).0)
                implies is_reference(members[i].1) by {
                if i < init.len() {
                    assert(init[i] == members[i]);
                }
            }
        }
        if forall|i: int|
            0 <= i < members.len() && must_refer(key, (#[trigger] members[i]).0) ==> is_reference(
                members[i].1,
            ) {
            assert forall|i: int|
                0 <= i < init.len() && must_refer(key, (#[trigger] init[i]).0)
                implies is_reference(init[i].1) by {
                assert(init[i] == members[i]);
            }
            assert(members[members.len() - 1] == members.last());
        }
    }
}

/// What is kept of a run tells which agent ran, in which revision, with which
/// skills in which order, and under which configuration, but for the prompt,
/// the credentials and the host.
pub proof fn law_kept_run_tells_what_ran(
    run_id: u128,
    record: RecordModel,
    config: SnapshotModel,
    i: int,
)
    ensures
        ({
            let kept = metadata_of(run_id, record, config);
            &&& kept.run_id == run_id
            &&& kept.named_agent_id == record.id
            &&& kept.bundle_revision == record.revision
            &&& kept.secret_refs == record.bundle.secret_refs
            &&& kept.ordered_skills.len() == record.bundle.skills.len()
            &&& 0 <= i < record.bundle.skills.len() ==> kept.ordered_skills[i]
                == record.bundle.skills[i].text
            &&& kept.effective_config.name == config.name
            &&& kept.effective_config.environment_id == config.environment_id
            &&& kept.effective_config.model_id == config.model_id
            &&& kept.effective_config.mcp_servers == config.mcp_servers
            &&& kept.effective_config.profile_id == config.profile_id
            &&& kept.effective_config.skill_spec == config.skill_spec
            &&& kept.effective_config.computer_use_enabled == config.computer_use_enabled
            &&& kept.effective_config.harness == config.harness
        }),
{
}

/// A list has one line for each named agent, in order, with its identity and
/// its name.
pub proof fn law_list_has_a_line_for_each(a: Seq<RecordModel>, b: Seq<RecordModel>, r: RecordModel)
    ensures
        record_lines(a + b) == record_lines(a) + record_lines(b),
        record_lines(seq![r]) == "local named agent\t"@ + ids::hyphenated(r.id) + "\t"@
            + r.bundle.name + "\n"@,
        record_lines(Seq::empty()) == Seq::<char>::empty(),
    decreases b.len(),
{
    assert(seq![r].drop_last() =~= Seq::<RecordModel>::empty());
    assert(record_lines(seq![r].drop_last()) =~= Seq::<char>::empty());
    assert(record_lines(seq![r]) =~= record_line(r));
    if b.len() > 0 {
        assert((a + b).drop_last() =~= a + b.drop_last());
        law_list_has_a_line_for_each(a, b.drop_last(), r);
        assert(record_lines(a + b) =~= record_lines(a) + record_lines(b));
    } else {
        assert(a + b =~= a);
        assert(record_lines(a + b) =~= record_lines(a) + record_lines(b));
    }
}

/// What the command line gives of a bundle takes the place of what is there,
/// field by field, and what it does not give stays.
pub proof fn law_given_fields_replace_existing_ones(
    fields: NamedAgentFieldsArgs,
    existing: BundleModel,
    b: BundleModel,
)
    requires
        bundle_outcome(fields, Some(existing)) == Ok::<BundleModel, Seq<char>>(b),
    ensures
        fields.name matches Some(s) ==> b.name == s@,
        fields.name is None ==> b.name == existing.name,
        fields.model_id matches Some(s) ==> b.model_id == s@,
        fields.model_id is None ==> b.model_id == existing.model_id,
        fields.description matches Some(s) ==> b.description == Some(s@),
        fields.description is None ==> b.description == existing.description,
        fields.base_prompt matches Some(s) ==> b.base_prompt == Some(s@),
        fields.base_prompt is None ==> b.base_prompt == existing.base_prompt,
        fields.profile_id matches Some(s) ==> b.profile_id == Some(s@),
        fields.profile_id is None ==> b.profile_id == existing.profile_id,
        fields.harness matches Some(h) ==> b.harness == h,
        fields.harness is None ==> b.harness == existing.harness,
        fields.computer_use is Some ==> b.computer_use_enabled == fields.computer_use,
        fields.computer_use is None ==> b.computer_use_enabled == existing.computer_use_enabled,
        fields.skills@.len() == 0 ==> b.skills == existing.skills,
        fields.skills@.len() > 0 ==> b.skills.len() == fields.skills@.len() && forall|i: int|
            0 <= i < b.skills.len() ==> (#[trigger] b.skills[i]) == fields.skills@[i]@,
        fields.mcp_servers is None ==> b.mcp_servers == existing.mcp_servers,
        fields.mcp_servers matches Some(given) ==> given matches Ok(servers) && b.mcp_servers
            == Some(servers@),
        fields.secret_env@.len() == 0 && fields.secret_keychain@.len() == 0 ==> b.secret_refs
            == existing.secret_refs,
        fields.secret_env@.len() > 0 || fields.secret_keychain@.len() > 0
            ==> b.secret_refs is Some && b.secret_refs->0.keychain_entries == text::texts(
            fields.secret_keychain@,
        ),
{
}

/// A new bundle needs a name and a model; its harness is the local one where
/// none is given.
pub proof fn law_new_bundles_need_a_name_and_a_model(fields: NamedAgentFieldsArgs)
    ensures
        fields.name is None ==> bundle_outcome(fields, None) == Err::<BundleModel, Seq<char>>(
            "--name is required"@,
        ),
        fields.name is Some && fields.model_id is None ==> bundle_outcome(fields, None) == Err::<
            BundleModel,
            Seq<char>,
        >("--model is required"@),
        bundle_outcome(fields, None) matches Ok(b) ==> {
            &&& fields.name matches Some(s) && b.name == s@
            &&& fields.model_id matches Some(s) && b.model_id == s@
            &&& b.description == text::text_opt(fields.description)
            &&& b.base_prompt == text::text_opt(fields.base_prompt)
            &&& b.profile_id == text::text_opt(fields.profile_id)
            &&& b.computer_use_enabled == fields.computer_use
            &&& fields.harness is None ==> b.harness is Oz
            &&& fields.harness matches Some(h) ==> b.harness == h
        },
{
}

} // verus!
