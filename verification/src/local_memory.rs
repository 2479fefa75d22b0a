//! Memories that the user manages: their versions, and which of them bear on a
//! query.

use crate::ids;
use crate::order;
use crate::order::Ordered;
use crate::paths;
use crate::text;
use crate::tokens;
use vstd::prelude::*;

verus! {

/// The largest number of memories.
pub const MAX_MEMORY_COUNT: usize = 1_024;

/// The longest title, in characters.
pub const MAX_TITLE_CHARS: usize = 160;

/// The longest content, in characters.
pub const MAX_CONTENT_CHARS: usize = 16_000;

/// The largest number of memories that a search returns.
pub const MAX_CONTEXT_MEMORIES: usize = 8;

/// The largest number of tokens of a query that count.
pub const MAX_QUERY_TOKENS: usize = 32;

// ---------------------------------------------------------------------------
// Memories.

/// Where a memory applies.
#[derive(Debug, PartialEq, Eq)]
pub enum LocalMemoryScope<S = String> {
    Global,
    Project { root: S },
}

pub type ScopeModel = LocalMemoryScope<Seq<char>>;

impl View for LocalMemoryScope<String> {
    type V = ScopeModel;

    open spec fn view(&self) -> ScopeModel {
        match self {
            LocalMemoryScope::Global => LocalMemoryScope::Global,
            LocalMemoryScope::Project { root } => LocalMemoryScope::Project { root: root@ },
        }
    }
}

impl Clone for LocalMemoryScope<String> {
    fn clone(&self) -> (r: Self)
        ensures
            r@ == self@,
    {
        match self {
            LocalMemoryScope::Global => LocalMemoryScope::Global,
            LocalMemoryScope::Project { root } => LocalMemoryScope::Project { root: root.clone() },
        }
    }
}

/// The name of a scope.
pub open spec fn scope_name(scope: ScopeModel) -> Seq<char> {
    match scope {
        LocalMemoryScope::Global => "Global"@,
        LocalMemoryScope::Project { root } => "Project: "@ + root,
    }
}

impl LocalMemoryScope {
    pub fn display_name(&self) -> (r: String)
        ensures
            r@ == scope_name(self@),
    {
        match self {
            LocalMemoryScope::Global => "Global".to_owned(),
            LocalMemoryScope::Project { root } => text::joined("Project: ", root.as_str()),
        }
    }
}

/// A memory.
#[derive(Debug, PartialEq, Eq)]
pub struct LocalMemoryRecord<S = String> {
    pub id: u128,
    pub scope: LocalMemoryScope<S>,
    pub title: S,
    pub content: S,
    pub revision: i64,
    pub created_at: i64,
    pub updated_at: i64,
}

pub type MemoryModel = LocalMemoryRecord<Seq<char>>;

impl View for LocalMemoryRecord<String> {
    type V = MemoryModel;

    open spec fn view(&self) -> MemoryModel {
        LocalMemoryRecord {
            id: self.id,
            scope: self.scope@,
            title: self.title@,
            content: self.content@,
            revision: self.revision,
            created_at: self.created_at,
            updated_at: self.updated_at,
        }
    }
}

impl Clone for LocalMemoryRecord<String> {
    fn clone(&self) -> (r: Self)
        ensures
            r@ == self@,
    {
        LocalMemoryRecord {
            id: self.id,
            scope: self.scope.clone(),
            title: self.title.clone(),
            content: self.content.clone(),
            revision: self.revision,
            created_at: self.created_at,
            updated_at: self.updated_at,
        }
    }
}

/// What was done to a memory.
#[derive(Clone, Copy, Debug, PartialEq, Eq, Structural)]
pub enum LocalMemoryOperation {
    Created,
    Updated,
    Deleted,
}

pub open spec fn operation_name(operation: LocalMemoryOperation) -> Seq<char> {
    match operation {
        LocalMemoryOperation::Created => "created"@,
        LocalMemoryOperation::Updated => "updated"@,
        LocalMemoryOperation::Deleted => "deleted"@,
    }
}

pub fn operation_to_str(operation: LocalMemoryOperation) -> (r: &'static str)
    ensures
        r@ == operation_name(operation),
{
    match operation {
        LocalMemoryOperation::Created => "created",
        LocalMemoryOperation::Updated => "updated",
        LocalMemoryOperation::Deleted => "deleted",
    }
}

/// What a memory was at one of its revisions.
#[derive(Debug, PartialEq, Eq)]
pub struct LocalMemoryVersion<S = String> {
    pub memory_id: u128,
    pub revision: i64,
    pub operation: LocalMemoryOperation,
    pub scope: LocalMemoryScope<S>,
    pub title: S,
    pub content: S,
    pub recorded_at: i64,
}

pub type VersionModel = LocalMemoryVersion<Seq<char>>;

impl View for LocalMemoryVersion<String> {
    type V = VersionModel;

    open spec fn view(&self) -> VersionModel {
        LocalMemoryVersion {
            memory_id: self.memory_id,
            revision: self.revision,
            operation: self.operation,
            scope: self.scope@,
            title: self.title@,
            content: self.content@,
            recorded_at: self.recorded_at,
        }
    }
}

impl Clone for LocalMemoryVersion<String> {
    fn clone(&self) -> (r: Self)
        ensures
            r@ == self@,
    {
        LocalMemoryVersion {
            memory_id: self.memory_id,
            revision: self.revision,
            operation: self.operation,
            scope: self.scope.clone(),
            title: self.title.clone(),
            content: self.content.clone(),
            recorded_at: self.recorded_at,
        }
    }
}

/// Why a memory cannot be stored or found.
#[derive(Debug)]
pub enum LocalMemoryError<S = String> {
    EmptyTitle,
    EmptyContent,
    TitleTooLong,
    ContentTooLong,
    InvalidProjectRoot(S),
    LimitReached,
    NotFound(u128),
    Conflict { id: u128, expected: i64, actual: i64 },
    Storage(S),
    Corrupt(S),
}

pub type ErrorModel = LocalMemoryError<Seq<char>>;

impl View for LocalMemoryError<String> {
    type V = ErrorModel;

    open spec fn view(&self) -> ErrorModel {
        match self {
            LocalMemoryError::EmptyTitle => LocalMemoryError::EmptyTitle,
            LocalMemoryError::EmptyContent => LocalMemoryError::EmptyContent,
            LocalMemoryError::TitleTooLong => LocalMemoryError::TitleTooLong,
            LocalMemoryError::ContentTooLong => LocalMemoryError::ContentTooLong,
            LocalMemoryError::InvalidProjectRoot(root) => LocalMemoryError::InvalidProjectRoot(
                root@,
            ),
            LocalMemoryError::LimitReached => LocalMemoryError::LimitReached,
            LocalMemoryError::NotFound(id) => LocalMemoryError::NotFound(*id),
            LocalMemoryError::Conflict { id, expected, actual } => LocalMemoryError::Conflict {
                id: *id,
                expected: *expected,
                actual: *actual,
            },
            LocalMemoryError::Storage(message) => LocalMemoryError::Storage(message@),
            LocalMemoryError::Corrupt(message) => LocalMemoryError::Corrupt(message@),
        }
    }
}

/// The text of an error.
pub open spec fn error_text(error: ErrorModel) -> Seq<char> {
    match error {
        LocalMemoryError::EmptyTitle => "memory title cannot be empty"@,
        LocalMemoryError::EmptyContent => "memory content cannot be empty"@,
        LocalMemoryError::TitleTooLong => "memory title exceeds 160 characters"@,
        LocalMemoryError::ContentTooLong => "memory content exceeds 16000 characters"@,
        LocalMemoryError::InvalidProjectRoot(root) =>
            "project memory root does not exist or cannot be resolved: "@ + root,
        LocalMemoryError::LimitReached => "local memory limit of 1024 entries has been reached"@,
        LocalMemoryError::NotFound(id) => "local memory "@ + ids::hyphenated(id)
            + " was not found"@,
        LocalMemoryError::Conflict { id, expected, actual } => ("local memory "@
            + ids::hyphenated(id) + " changed since it was opened (expected revision "@) + (
        text::signed_decimal(expected as int) + ", current revision "@ + text::signed_decimal(
            actual as int,
        ) + ")"@),
        LocalMemoryError::Storage(message) => "local memory storage error: "@ + message,
        LocalMemoryError::Corrupt(message) => "invalid local memory row: "@ + message,
    }
}

impl LocalMemoryError {
    /// The text of the error.
    pub fn message(&self) -> (r: String)
        ensures
            r@ == error_text(self@),
    {
        match self {
            LocalMemoryError::EmptyTitle => "memory title cannot be empty".to_owned(),
            LocalMemoryError::EmptyContent => "memory content cannot be empty".to_owned(),
            LocalMemoryError::TitleTooLong => "memory title exceeds 160 characters".to_owned(),
            LocalMemoryError::ContentTooLong => "memory content exceeds 16000 characters".to_owned(
            ),
            LocalMemoryError::InvalidProjectRoot(root) => text::joined(
                "project memory root does not exist or cannot be resolved: ",
                root.as_str(),
            ),
            LocalMemoryError::LimitReached =>
                "local memory limit of 1024 entries has been reached".to_owned(),
            LocalMemoryError::NotFound(id) => text::concat3(
                "local memory ",
                ids::uuid_text(*id).as_str(),
                " was not found",
            ),
            LocalMemoryError::Conflict { id, expected, actual } => text::joined(
                text::concat3(
                    "local memory ",
                    ids::uuid_text(*id).as_str(),
                    " changed since it was opened (expected revision ",
                ).as_str(),
                text::concat4(
                    text::decimal_i64(*expected).as_str(),
                    ", current revision ",
                    text::decimal_i64(*actual).as_str(),
                    ")",
                ).as_str(),
            ),
            LocalMemoryError::Storage(message) => text::joined(
                "local memory storage error: ",
                message.as_str(),
            ),
            LocalMemoryError::Corrupt(message) => text::joined(
                "invalid local memory row: ",
                message.as_str(),
            ),
        }
    }
}

// ---------------------------------------------------------------------------
// What is checked.

/// Why a title and a content cannot be stored, if they cannot.
pub open spec fn text_problem(title: Seq<char>, content: Seq<char>) -> Option<ErrorModel> {
    let t = text::trimmed(title);
    let c = text::trimmed(content);
    if t.len() == 0 {
        Some(LocalMemoryError::EmptyTitle)
    } else if c.len() == 0 {
        Some(LocalMemoryError::EmptyContent)
    } else if t.len() > MAX_TITLE_CHARS {
        Some(LocalMemoryError::TitleTooLong)
    } else if c.len() > MAX_CONTENT_CHARS {
        Some(LocalMemoryError::ContentTooLong)
    } else {
        None
    }
}

/// Checks a title and a content, and takes the white space around them away.
pub fn validate_text(title: &str, content: &str) -> (r: Result<(String, String), LocalMemoryError>)
    ensures
        match r {
            Ok(parts) => text_problem(title@, content@) is None && parts.0@ == text::trimmed(title@)
                && parts.1@ == text::trimmed(content@),
            Err(e) => text_problem(title@, content@) == Some(e@),
        },
{
    let title = text::trim(title);
    let content = text::trim(content);
    let title_chars: usize = text::char_count(title.as_str());
    let content_chars: usize = text::char_count(content.as_str());
    if title_chars == 0 {
        return Err(LocalMemoryError::EmptyTitle);
    }
    if content_chars == 0 {
        return Err(LocalMemoryError::EmptyContent);
    }
    if title_chars > MAX_TITLE_CHARS {
        return Err(LocalMemoryError::TitleTooLong);
    }
    if content_chars > MAX_CONTENT_CHARS {
        return Err(LocalMemoryError::ContentTooLong);
    }
    Ok((title, content))
}

/// A scope with the root of its project resolved.
pub open spec fn resolved_scope(scope: ScopeModel, resolved: Option<Seq<char>>) -> Result<
    ScopeModel,
    ErrorModel,
> {
    match scope {
        LocalMemoryScope::Global => Ok(LocalMemoryScope::Global),
        LocalMemoryScope::Project { root } => match resolved {
            Some(path) => Ok(LocalMemoryScope::Project { root: path }),
            None => Err(LocalMemoryError::InvalidProjectRoot(root)),
        },
    }
}

pub open spec fn scope_result(r: Result<LocalMemoryScope, LocalMemoryError>) -> Result<
    ScopeModel,
    ErrorModel,
> {
    match r {
        Ok(scope) => Ok(scope@),
        Err(e) => Err(e@),
    }
}

/// Puts the resolved root of a project in the place of the given one, where
/// `resolved` is what the root resolved to.
pub fn normalize_scope(scope: LocalMemoryScope, resolved: Option<String>) -> (r: Result<
    LocalMemoryScope,
    LocalMemoryError,
>)
    ensures
        scope_result(r) == resolved_scope(scope@, text::text_opt(resolved)),
{
    match scope {
        LocalMemoryScope::Global => Ok(LocalMemoryScope::Global),
        LocalMemoryScope::Project { root } => match resolved {
            Some(root) => Ok(LocalMemoryScope::Project { root }),
            None => Err(LocalMemoryError::InvalidProjectRoot(root)),
        },
    }
}

/// The two columns of a scope.
pub open spec fn parts_of(scope: ScopeModel) -> (Seq<char>, Seq<char>) {
    match scope {
        LocalMemoryScope::Global => ("global"@, Seq::empty()),
        LocalMemoryScope::Project { root } => ("project"@, root),
    }
}

pub fn scope_parts(scope: &LocalMemoryScope) -> (r: (&'static str, String))
    ensures
        (r.0@, r.1@) == parts_of(scope@),
{
    match scope {
        LocalMemoryScope::Global => {
            let none = String::new();
            assert(none@ =~= Seq::<char>::empty());
            ("global", none)
        },
        LocalMemoryScope::Project { root } => ("project", root.clone()),
    }
}

/// The scope of two columns.
pub open spec fn scope_of(kind: Seq<char>, key: Seq<char>) -> Result<ScopeModel, ErrorModel> {
    if kind == "global"@ && key.len() == 0 {
        Ok(LocalMemoryScope::Global)
    } else if kind == "project"@ && key.len() > 0 {
        Ok(LocalMemoryScope::Project { root: key })
    } else {
        Err(LocalMemoryError::Corrupt("invalid scope "@ + kind + ":"@ + key))
    }
}

pub fn scope_from_parts(kind: &str, key: &str) -> (r: Result<LocalMemoryScope, LocalMemoryError>)
    ensures
        scope_result(r) == scope_of(kind@, key@),
{
    let empty = text::char_count(key) == 0;
    if text::same_text(kind, "global") && empty {
        Ok(LocalMemoryScope::Global)
    } else if text::same_text(kind, "project") && !empty {
        Ok(LocalMemoryScope::Project { root: key.to_owned() })
    } else {
        Err(LocalMemoryError::Corrupt(text::concat4("invalid scope ", kind, ":", key)))
    }
}

// ---------------------------------------------------------------------------
// Rows.

/// A memory as the database holds it.
pub struct StoredMemoryRow {
    pub id: String,
    pub scope_kind: String,
    pub scope_key: String,
    pub title: String,
    pub content: String,
    pub revision: i64,
    pub created_at: i64,
    pub updated_at: i64,
}

/// What a row says, or why it is corrupt, where `id` is what its identifier
/// says.
pub open spec fn memory_outcome(row: StoredMemoryRow, id: Result<u128, Seq<char>>) -> Result<
    MemoryModel,
    ErrorModel,
> {
    if id is Err {
        Err(LocalMemoryError::Corrupt("invalid id: "@ + id->Err_0))
    } else if row.revision < 1 {
        Err(LocalMemoryError::Corrupt("revision must be positive"@))
    } else {
        match scope_of(row.scope_kind@, row.scope_key@) {
            Err(e) => Err(e),
            Ok(scope) => Ok(
                LocalMemoryRecord {
                    id: id->Ok_0,
                    scope,
                    title: row.title@,
                    content: row.content@,
                    revision: row.revision,
                    created_at: row.created_at,
                    updated_at: row.updated_at,
                },
            ),
        }
    }
}

pub open spec fn memory_result(r: Result<LocalMemoryRecord, LocalMemoryError>) -> Result<
    MemoryModel,
    ErrorModel,
> {
    match r {
        Ok(record) => Ok(record@),
        Err(e) => Err(e@),
    }
}

/// Takes a row from the database, where `id` is what its identifier says.
pub fn memory_from_row_as(row: StoredMemoryRow, id: Result<u128, String>) -> (r: Result<
    LocalMemoryRecord,
    LocalMemoryError,
>)
    ensures
        memory_result(r) == memory_outcome(row, ids::uuid_result(id)),
{
    let id: u128 = match id {
        Ok(id) => id,
        Err(error) => {
            return Err(LocalMemoryError::Corrupt(text::joined("invalid id: ", error.as_str())));
        },
    };
    if row.revision < 1 {
        return Err(LocalMemoryError::Corrupt("revision must be positive".to_owned()));
    }
    match scope_from_parts(row.scope_kind.as_str(), row.scope_key.as_str()) {
        Err(error) => Err(error),
        Ok(scope) => Ok(
            LocalMemoryRecord {
                id,
                scope,
                title: row.title,
                content: row.content,
                revision: row.revision,
                created_at: row.created_at,
                updated_at: row.updated_at,
            },
        ),
    }
}

/// Takes a row from the database.
pub fn memory_from_row(row: StoredMemoryRow) -> (r: Result<LocalMemoryRecord, LocalMemoryError>)
    ensures
        memory_result(r) == memory_outcome(row, ids::parsed_uuid(row.id@)),
{
    let id = ids::parse_uuid(row.id.as_str());
    memory_from_row_as(row, id)
}

/// A version as the database holds it.
pub struct StoredVersionRow {
    pub memory_id: String,
    pub revision: i64,
    pub operation: String,
    pub scope_kind: String,
    pub scope_key: String,
    pub title: String,
    pub content: String,
    pub recorded_at: i64,
}

/// The operation of a name.
pub open spec fn operation_of(name: Seq<char>) -> Option<LocalMemoryOperation> {
    if name == "created"@ {
        Some(LocalMemoryOperation::Created)
    } else if name == "updated"@ {
        Some(LocalMemoryOperation::Updated)
    } else if name == "deleted"@ {
        Some(LocalMemoryOperation::Deleted)
    } else {
        None
    }
}

/// What a row of the history says, or why it is corrupt.
pub open spec fn version_outcome(row: StoredVersionRow, id: Result<u128, Seq<char>>) -> Result<
    VersionModel,
    ErrorModel,
> {
    if id is Err {
        Err(LocalMemoryError::Corrupt("invalid history id: "@ + id->Err_0))
    } else if operation_of(row.operation@) is None {
        Err(LocalMemoryError::Corrupt("unknown operation "@ + row.operation@))
    } else {
        match scope_of(row.scope_kind@, row.scope_key@) {
            Err(e) => Err(e),
            Ok(scope) => Ok(
                LocalMemoryVersion {
                    memory_id: id->Ok_0,
                    revision: row.revision,
                    operation: operation_of(row.operation@)->0,
                    scope,
                    title: row.title@,
                    content: row.content@,
                    recorded_at: row.recorded_at,
                },
            ),
        }
    }
}

pub open spec fn version_result(r: Result<LocalMemoryVersion, LocalMemoryError>) -> Result<
    VersionModel,
    ErrorModel,
> {
    match r {
        Ok(version) => Ok(version@),
        Err(e) => Err(e@),
    }
}

/// Takes a row of the history from the database, where `id` is what its
/// identifier says.
pub fn version_from_row_as(row: StoredVersionRow, id: Result<u128, String>) -> (r: Result<
    LocalMemoryVersion,
    LocalMemoryError,
>)
    ensures
        version_result(r) == version_outcome(row, ids::uuid_result(id)),
{
    let memory_id: u128 = match id {
        Ok(id) => id,
        Err(error) => {
            return Err(
                LocalMemoryError::Corrupt(text::joined("invalid history id: ", error.as_str())),
            );
        },
    };
    let operation = if text::same_text(row.operation.as_str(), "created") {
        LocalMemoryOperation::Created
    } else if text::same_text(row.operation.as_str(), "updated") {
        LocalMemoryOperation::Updated
    } else if text::same_text(row.operation.as_str(), "deleted") {
        LocalMemoryOperation::Deleted
    } else {
        return Err(
            LocalMemoryError::Corrupt(text::joined("unknown operation ", row.operation.as_str())),
        );
    };
    match scope_from_parts(row.scope_kind.as_str(), row.scope_key.as_str()) {
        Err(error) => Err(error),
        Ok(scope) => Ok(
            LocalMemoryVersion {
                memory_id,
                revision: row.revision,
                operation,
                scope,
                title: row.title,
                content: row.content,
                recorded_at: row.recorded_at,
            },
        ),
    }
}

/// Takes a row of the history from the database.
pub fn version_from_row(row: StoredVersionRow) -> (r: Result<LocalMemoryVersion, LocalMemoryError>)
    ensures
        version_result(r) == version_outcome(row, ids::parsed_uuid(row.memory_id@)),
{
    let id = ids::parse_uuid(row.memory_id.as_str());
    version_from_row_as(row, id)
}

// ---------------------------------------------------------------------------
// The store.

/// The memories and all their versions.
#[derive(Debug)]
pub struct MemoryStore {
    memories: Vec<LocalMemoryRecord>,
    versions: Vec<LocalMemoryVersion>,
}

/// What a store holds.
#[verifier::ext_equal]
pub struct StoreModel {
    pub memories: Seq<MemoryModel>,
    pub versions: Seq<VersionModel>,
}

pub open spec fn memory_models(v: Seq<LocalMemoryRecord>) -> Seq<MemoryModel> {
    Seq::new(v.len(), |i: int| v[i]@)
}

pub open spec fn version_models(v: Seq<LocalMemoryVersion>) -> Seq<VersionModel> {
    Seq::new(v.len(), |i: int| v[i]@)
}

impl View for MemoryStore {
    type V = StoreModel;

    closed spec fn view(&self) -> StoreModel {
        StoreModel {
            memories: memory_models(self.memories@),
            versions: version_models(self.versions@),
        }
    }
}

/// The position of a memory, or their number.
pub open spec fn memory_at(memories: Seq<MemoryModel>, id: u128, from: int) -> int
    decreases memories.len() - from,
{
    if from >= memories.len() {
        memories.len() as int
    } else if memories[from].id == id {
        from
    } else {
        memory_at(memories, id, from + 1)
    }
}

/// The memory with an identifier.
pub open spec fn memory_of(memories: Seq<MemoryModel>, id: u128) -> Option<MemoryModel> {
    let at = memory_at(memories, id, 0);
    if 0 <= at < memories.len() {
        Some(memories[at])
    } else {
        None
    }
}

/// Whether a version of a memory was recorded.
pub open spec fn has_history(versions: Seq<VersionModel>, id: u128) -> bool {
    exists|i: int| 0 <= i < versions.len() && (#[trigger] versions[i]).memory_id == id
}

/// The version that records what was done to a memory.
pub open spec fn version_of(
    memory: MemoryModel,
    operation: LocalMemoryOperation,
    recorded_at: i64,
) -> VersionModel {
    LocalMemoryVersion {
        memory_id: memory.id,
        revision: memory.revision,
        operation,
        scope: memory.scope,
        title: memory.title,
        content: memory.content,
        recorded_at,
    }
}

impl StoreModel {
    /// Every memory is there once, every revision of a memory is recorded once,
    /// and no recorded revision is later than that of the memory.
    pub open spec fn valid(self) -> bool {
        &&& forall|i: int, j: int|
            #![trigger self.memories[i], self.memories[j]]
            0 <= i < j < self.memories.len() ==> self.memories[i].id != self.memories[j].id
        &&& forall|i: int|
            0 <= i < self.memories.len() ==> (#[trigger] self.memories[i]).revision >= 1
        &&& forall|i: int, j: int|
            #![trigger self.versions[i], self.versions[j]]
            0 <= i < j < self.versions.len() ==> !(self.versions[i].memory_id
                == self.versions[j].memory_id && self.versions[i].revision
                == self.versions[j].revision)
        &&& forall|i: int, j: int|
            #![trigger self.memories[i], self.versions[j]]
            0 <= i < self.memories.len() && 0 <= j < self.versions.len()
                && self.memories[i].id == self.versions[j].memory_id
                ==> self.versions[j].revision <= self.memories[i].revision
    }

    /// Why a memory cannot be created, if it cannot.
    pub open spec fn create_problem(
        self,
        scope: ScopeModel,
        resolved: Option<Seq<char>>,
        title: Seq<char>,
        content: Seq<char>,
        id: u128,
    ) -> Option<ErrorModel> {
        match resolved_scope(scope, resolved) {
            Err(e) => Some(e),
            Ok(_) => if text_problem(title, content) is Some {
                text_problem(title, content)
            } else if self.memories.len() >= MAX_MEMORY_COUNT {
                Some(LocalMemoryError::LimitReached)
            } else if memory_of(self.memories, id) is Some || has_history(self.versions, id) {
                Some(LocalMemoryError::Storage("local memory is already recorded"@))
            } else {
                None
            },
        }
    }

    /// A memory that was just created.
    pub open spec fn new_memory(
        scope: ScopeModel,
        resolved: Option<Seq<char>>,
        title: Seq<char>,
        content: Seq<char>,
        id: u128,
        now: i64,
    ) -> MemoryModel {
        LocalMemoryRecord {
            id,
            scope: resolved_scope(scope, resolved)->Ok_0,
            title: text::trimmed(title),
            content: text::trimmed(content),
            revision: 1,
            created_at: now,
            updated_at: now,
        }
    }

    /// The store with one more memory.
    pub open spec fn with_created(self, memory: MemoryModel) -> StoreModel {
        StoreModel {
            memories: self.memories.push(memory),
            versions: self.versions.push(
                version_of(memory, LocalMemoryOperation::Created, memory.updated_at),
            ),
        }
    }

    /// Why a revision of a memory cannot be followed by another, if it cannot.
    pub open spec fn revision_problem(self, id: u128, expected: i64) -> Option<ErrorModel> {
        match memory_of(self.memories, id) {
            None => Some(LocalMemoryError::NotFound(id)),
            Some(memory) => if memory.revision != expected {
                Some(LocalMemoryError::Conflict { id, expected, actual: memory.revision })
            } else if expected == i64::MAX {
                Some(LocalMemoryError::Storage("local memory revision overflow"@))
            } else {
                None
            },
        }
    }

    /// Why a memory cannot be updated, if it cannot.
    pub open spec fn update_problem(
        self,
        id: u128,
        expected: i64,
        scope: ScopeModel,
        resolved: Option<Seq<char>>,
        title: Seq<char>,
        content: Seq<char>,
    ) -> Option<ErrorModel> {
        match resolved_scope(scope, resolved) {
            Err(e) => Some(e),
            Ok(_) => if text_problem(title, content) is Some {
                text_problem(title, content)
            } else {
                self.revision_problem(id, expected)
            },
        }
    }

    /// A memory that was just updated.
    pub open spec fn updated_memory(
        self,
        id: u128,
        scope: ScopeModel,
        resolved: Option<Seq<char>>,
        title: Seq<char>,
        content: Seq<char>,
        now: i64,
    ) -> MemoryModel {
        let current = memory_of(self.memories, id)->0;
        LocalMemoryRecord {
            id,
            scope: resolved_scope(scope, resolved)->Ok_0,
            title: text::trimmed(title),
            content: text::trimmed(content),
            revision: (current.revision + 1) as i64,
            created_at: current.created_at,
            updated_at: now,
        }
    }

    /// The store with a memory in the place of the one with its identifier.
    pub open spec fn with_updated(self, memory: MemoryModel) -> StoreModel {
        StoreModel {
            memories: self.memories.update(memory_at(self.memories, memory.id, 0), memory),
            versions: self.versions.push(
                version_of(memory, LocalMemoryOperation::Updated, memory.updated_at),
            ),
        }
    }

    /// The store without a memory, whose end is recorded.
    pub open spec fn with_deleted(self, id: u128, now: i64) -> StoreModel {
        let current = memory_of(self.memories, id)->0;
        let end = LocalMemoryRecord {
            revision: (current.revision + 1) as i64,
            updated_at: now,
            ..current
        };
        StoreModel {
            memories: self.memories.remove(memory_at(self.memories, id, 0)),
            versions: self.versions.push(version_of(end, LocalMemoryOperation::Deleted, now)),
        }
    }
}

proof fn lemma_memory_at(memories: Seq<MemoryModel>, id: u128, from: int)
    requires
        0 <= from <= memories.len(),
    ensures
        from <= memory_at(memories, id, from) <= memories.len(),
        memory_at(memories, id, from) < memories.len() ==> memories[memory_at(
            memories,
            id,
            from,
        )].id == id,
        forall|i: int|
            from <= i < memory_at(memories, id, from) ==> (#[trigger] memories[i]).id != id,
    decreases memories.len() - from,
{
    if from < memories.len() && memories[from].id != id {
        lemma_memory_at(memories, id, from + 1);
    }
}

proof fn lemma_created_valid(m: StoreModel, memory: MemoryModel)
    requires
        m.valid(),
        memory_of(m.memories, memory.id) is None,
        !has_history(m.versions, memory.id),
        memory.revision == 1,
    ensures
        m.with_created(memory).valid(),
{
    let after = m.with_created(memory);
    lemma_memory_at(m.memories, memory.id, 0);
    let n = m.memories.len() as int;
    let k = m.versions.len() as int;
    assert forall|i: int, j: int|
        #![trigger after.memories[i], after.memories[j]]
        0 <= i < j < after.memories.len() implies after.memories[i].id != after.memories[j].id by {
        assert(after.memories[i] == m.memories[i]);
        if j < n {
            assert(after.memories[j] == m.memories[j]);
        }
    }
    assert forall|i: int| 0 <= i < after.memories.len() implies (
    #[trigger] after.memories[i]).revision >= 1 by {
        if i < n {
            assert(after.memories[i] == m.memories[i]);
        }
    }
    assert forall|i: int, j: int|
        #![trigger after.versions[i], after.versions[j]]
        0 <= i < j < after.versions.len() implies !(after.versions[i].memory_id
        == after.versions[j].memory_id && after.versions[i].revision
        == after.versions[j].revision) by {
        assert(after.versions[i] == m.versions[i]);
        if j < k {
            assert(after.versions[j] == m.versions[j]);
        }
    }
    assert forall|i: int, j: int|
        #![trigger after.memories[i], after.versions[j]]
        0 <= i < after.memories.len() && 0 <= j < after.versions.len() && after.memories[i].id
            == after.versions[j].memory_id implies after.versions[j].revision
        <= after.memories[i].revision by {
        if i < n && j < k {
            assert(after.memories[i] == m.memories[i] && after.versions[j] == m.versions[j]);
        } else if j < k {
            assert(after.versions[j] == m.versions[j]);
        } else if i < n {
            assert(after.memories[i] == m.memories[i]);
        }
    }
}

/// A version with a later revision than any of its memory keeps the versions
/// apart.
proof fn lemma_next_version(m: StoreModel, at: int, version: VersionModel)
    requires
        m.valid(),
        0 <= at < m.memories.len(),
        version.memory_id == m.memories[at].id,
        version.revision > m.memories[at].revision,
    ensures
        forall|i: int, j: int|
            #![trigger m.versions.push(version)[i], m.versions.push(version)[j]]
            0 <= i < j < m.versions.push(version).len() ==> !(m.versions.push(
                version,
            )[i].memory_id == m.versions.push(version)[j].memory_id && m.versions.push(
                version,
            )[i].revision == m.versions.push(version)[j].revision),
{
    let after = m.versions.push(version);
    assert forall|i: int, j: int|
        #![trigger after[i], after[j]]
        0 <= i < j < after.len() implies !(after[i].memory_id == after[j].memory_id
        && after[i].revision == after[j].revision) by {
        assert(after[i] == m.versions[i]);
        if j < m.versions.len() {
            assert(after[j] == m.versions[j]);
        } else if after[i].memory_id == version.memory_id {
            assert(m.versions[i].revision <= m.memories[at].revision);
        }
    }
}

proof fn lemma_updated_valid(m: StoreModel, memory: MemoryModel)
    requires
        m.valid(),
        memory_of(m.memories, memory.id) is Some,
        memory.revision == memory_of(m.memories, memory.id)->0.revision + 1,
    ensures
        m.with_updated(memory).valid(),
{
    let after = m.with_updated(memory);
    lemma_memory_at(m.memories, memory.id, 0);
    let at = memory_at(m.memories, memory.id, 0);
    let version = version_of(memory, LocalMemoryOperation::Updated, memory.updated_at);
    lemma_next_version(m, at, version);
    assert forall|i: int, j: int|
        #![trigger after.memories[i], after.memories[j]]
        0 <= i < j < after.memories.len() implies after.memories[i].id != after.memories[j].id by {
        assert(m.memories[i].id != m.memories[j].id);
        assert(after.memories[i].id == m.memories[i].id);
        assert(after.memories[j].id == m.memories[j].id);
    }
    assert forall|i: int| 0 <= i < after.memories.len() implies (
    #[trigger] after.memories[i]).revision >= 1 by {
        assert(m.memories[i].revision >= 1);
    }
    assert forall|i: int, j: int|
        #![trigger after.memories[i], after.versions[j]]
        0 <= i < after.memories.len() && 0 <= j < after.versions.len() && after.memories[i].id
            == after.versions[j].memory_id implies after.versions[j].revision
        <= after.memories[i].revision by {
        if j < m.versions.len() {
            assert(after.versions[j] == m.versions[j]);
            assert(after.memories[i].id == m.memories[i].id);
            assert(m.versions[j].revision <= m.memories[i].revision);
        } else if i != at {
            assert(after.memories[i] == m.memories[i]);
            if i < at {
                assert(m.memories[i].id != m.memories[at].id);
            } else {
                assert(m.memories[at].id != m.memories[i].id);
            }
        }
    }
}

proof fn lemma_deleted_valid(m: StoreModel, id: u128, now: i64)
    requires
        m.valid(),
        memory_of(m.memories, id) is Some,
        memory_of(m.memories, id)->0.revision < i64::MAX,
    ensures
        m.with_deleted(id, now).valid(),
{
    let after = m.with_deleted(id, now);
    lemma_memory_at(m.memories, id, 0);
    let at = memory_at(m.memories, id, 0);
    let version = after.versions.last();
    assert(after.versions =~= m.versions.push(version));
    lemma_next_version(m, at, version);
    assert forall|i: int, j: int|
        #![trigger after.memories[i], after.memories[j]]
        0 <= i < j < after.memories.len() implies after.memories[i].id != after.memories[j].id by {
        let a = if i < at {
            i
        } else {
            i + 1
        };
        let b = if j < at {
            j
        } else {
            j + 1
        };
        assert(after.memories[i] == m.memories[a] && after.memories[j] == m.memories[b]);
    }
    assert forall|i: int| 0 <= i < after.memories.len() implies (
    #[trigger] after.memories[i]).revision >= 1 by {
        let a = if i < at {
            i
        } else {
            i + 1
        };
        assert(after.memories[i] == m.memories[a]);
    }
    assert forall|i: int, j: int|
        #![trigger after.memories[i], after.versions[j]]
        0 <= i < after.memories.len() && 0 <= j < after.versions.len() && after.memories[i].id
            == after.versions[j].memory_id implies after.versions[j].revision
        <= after.memories[i].revision by {
        let a = if i < at {
            i
        } else {
            i + 1
        };
        assert(after.memories[i] == m.memories[a]);
        if j < m.versions.len() {
            assert(after.versions[j] == m.versions[j]);
        } else {
            if a < at {
                assert(m.memories[a].id != m.memories[at].id);
            } else {
                assert(m.memories[at].id != m.memories[a].id);
            }
        }
    }
}

fn record_version(record: &LocalMemoryRecord, operation: LocalMemoryOperation, recorded_at: i64) -> (r:
    LocalMemoryVersion)
    ensures
        r@ == version_of(record@, operation, recorded_at),
{
    LocalMemoryVersion {
        memory_id: record.id,
        revision: record.revision,
        operation,
        scope: record.scope.clone(),
        title: record.title.clone(),
        content: record.content.clone(),
        recorded_at,
    }
}

impl MemoryStore {
    pub open spec fn wf(&self) -> bool {
        self@.valid()
    }

    pub fn new() -> (r: Self)
        ensures
            r.wf(),
            r@ == (StoreModel { memories: Seq::empty(), versions: Seq::empty() }),
    {
        let r = MemoryStore { memories: Vec::new(), versions: Vec::new() };
        assert(r@ =~= (StoreModel { memories: Seq::empty(), versions: Seq::empty() }));
        r
    }

    fn position(&self, id: u128) -> (r: usize)
        ensures
            r == memory_at(self@.memories, id, 0),
            r <= self.memories.len(),
    {
        let ghost all = self@.memories;
        let mut i: usize = 0;
        while i < self.memories.len()
            invariant
                i <= self.memories.len(),
                all == self@.memories,
                all.len() == self.memories.len(),
                memory_at(all, id, 0) == memory_at(all, id, i as int),
            decreases self.memories.len() - i,
        {
            assert(all[i as int] == self.memories@[i as int]@);
            if self.memories[i].id == id {
                return i;
            }
            i += 1;
        }
        i
    }

    fn was_recorded(&self, id: u128) -> (r: bool)
        ensures
            r == has_history(self@.versions, id),
    {
        let ghost all = self@.versions;
        let mut i: usize = 0;
        while i < self.versions.len()
            invariant
                i <= self.versions.len(),
                all == self@.versions,
                all.len() == self.versions.len(),
                forall|j: int| 0 <= j < i ==> (#[trigger] all[j]).memory_id != id,
            decreases self.versions.len() - i,
        {
            assert(all[i as int] == self.versions@[i as int]@);
            if self.versions[i].memory_id == id {
                return true;
            }
            i += 1;
        }
        false
    }

    /// The store that the rows of a database make up, unless they do not fit
    /// together.
    pub fn restore(
        memories: Vec<LocalMemoryRecord>,
        versions: Vec<LocalMemoryVersion>,
    ) -> (r: Option<Self>)
        ensures
            match r {
                Some(store) => store.wf() && store@ == (StoreModel {
                    memories: memory_models(memories@),
                    versions: version_models(versions@),
                }),
                None => !(StoreModel {
                    memories: memory_models(memories@),
                    versions: version_models(versions@),
                }).valid(),
            },
    {
        let store = MemoryStore { memories, versions };
        let ghost m = store@;
        let mut i: usize = 0;
        while i < store.memories.len()
            invariant
                i <= store.memories.len(),
                m == store@,
                m.memories.len() == store.memories.len(),
                m.versions.len() == store.versions.len(),
                m == (StoreModel {
                    memories: memory_models(memories@),
                    versions: version_models(versions@),
                }),
                forall|a: int, b: int|
                    #![trigger m.memories[a], m.memories[b]]
                    0 <= a < b < i ==> m.memories[a].id != m.memories[b].id,
                forall|a: int| 0 <= a < i ==> (#[trigger] m.memories[a]).revision >= 1,
                forall|a: int, b: int|
                    #![trigger m.memories[a], m.versions[b]]
                    0 <= a < i && 0 <= b < m.versions.len() && m.memories[a].id
                        == m.versions[b].memory_id ==> m.versions[b].revision
                        <= m.memories[a].revision,
            decreases store.memories.len() - i,
        {
            assert(m.memories[i as int] == store.memories@[i as int]@);
            if store.memories[i].revision < 1 {
                return None;
            }
            let mut k: usize = 0;
            while k < i
                invariant
                    k <= i < store.memories.len(),
                    m == store@,
                    m.memories.len() == store.memories.len(),
                    m.versions.len() == store.versions.len(),
                    m == (StoreModel {
                        memories: memory_models(memories@),
                        versions: version_models(versions@),
                    }),
                    forall|a: int|
                        0 <= a < k ==> (#[trigger] m.memories[a]).id != m.memories[i as int].id,
                decreases i - k,
            {
                assert(m.memories[k as int] == store.memories@[k as int]@);
                assert(m.memories[i as int] == store.memories@[i as int]@);
                if store.memories[k].id == store.memories[i].id {
                    return None;
                }
                k += 1;
            }
            let mut v: usize = 0;
            while v < store.versions.len()
                invariant
                    v <= store.versions.len(),
                    i < store.memories.len(),
                    m == store@,
                    m.memories.len() == store.memories.len(),
                    m.versions.len() == store.versions.len(),
                    m == (StoreModel {
                        memories: memory_models(memories@),
                        versions: version_models(versions@),
                    }),
                    forall|b: int|
                        0 <= b < v && m.memories[i as int].id == (
                        #[trigger] m.versions[b]).memory_id ==> m.versions[b].revision
                            <= m.memories[i as int].revision,
                decreases store.versions.len() - v,
            {
                assert(m.versions[v as int] == store.versions@[v as int]@);
                assert(m.memories[i as int] == store.memories@[i as int]@);
                if store.versions[v].memory_id == store.memories[i].id
                    && store.versions[v].revision > store.memories[i].revision {
                    return None;
                }
                v += 1;
            }
            i += 1;
        }
        let mut j: usize = 0;
        while j < store.versions.len()
            invariant
                j <= store.versions.len(),
                m == store@,
                m.memories.len() == store.memories.len(),
                m.versions.len() == store.versions.len(),
                m == (StoreModel {
                    memories: memory_models(memories@),
                    versions: version_models(versions@),
                }),
                forall|a: int, b: int|
                    #![trigger m.versions[a], m.versions[b]]
                    0 <= a < b < j ==> !(m.versions[a].memory_id == m.versions[b].memory_id
                        && m.versions[a].revision == m.versions[b].revision),
            decreases store.versions.len() - j,
        {
            let mut k: usize = 0;
            while k < j
                invariant
                    k <= j < store.versions.len(),
                    m == store@,
                    m.versions.len() == store.versions.len(),
                    m == (StoreModel {
                        memories: memory_models(memories@),
                        versions: version_models(versions@),
                    }),
                    forall|a: int|
                        0 <= a < k ==> !((#[trigger] m.versions[a]).memory_id
                            == m.versions[j as int].memory_id && m.versions[a].revision
                            == m.versions[j as int].revision),
                decreases j - k,
            {
                assert(m.versions[k as int] == store.versions@[k as int]@);
                assert(m.versions[j as int] == store.versions@[j as int]@);
                if store.versions[k].memory_id == store.versions[j].memory_id
                    && store.versions[k].revision == store.versions[j].revision {
                    return None;
                }
                k += 1;
            }
            j += 1;
        }
        Some(store)
    }

    /// Creates a memory under a given identifier, where `resolved` is what the
    /// root of a project resolved to.
    pub fn create_as(
        &mut self,
        scope: LocalMemoryScope,
        resolved: Option<String>,
        title: &str,
        content: &str,
        id: u128,
        now: i64,
    ) -> (r: Result<LocalMemoryRecord, LocalMemoryError>)
        requires
            old(self).wf(),
        ensures
            final(self).wf(),
            match r {
                Ok(record) => old(self)@.create_problem(
                    scope@,
                    text::text_opt(resolved),
                    title@,
                    content@,
                    id,
                ) is None && record@ == StoreModel::new_memory(
                    scope@,
                    text::text_opt(resolved),
                    title@,
                    content@,
                    id,
                    now,
                ) && final(self)@ == old(self)@.with_created(record@),
                Err(e) => final(self)@ == old(self)@ && old(self)@.create_problem(
                    scope@,
                    text::text_opt(resolved),
                    title@,
                    content@,
                    id,
                ) == Some(e@),
            },
    {
        let ghost before = self@;
        let scope = match normalize_scope(scope, resolved) {
            Ok(scope) => scope,
            Err(error) => {
                return Err(error);
            },
        };
        let (title, content) = match validate_text(title, content) {
            Ok(parts) => parts,
            Err(error) => {
                return Err(error);
            },
        };
        if self.memories.len() >= MAX_MEMORY_COUNT {
            return Err(LocalMemoryError::LimitReached);
        }
        if self.position(id) < self.memories.len() || self.was_recorded(id) {
            return Err(LocalMemoryError::Storage("local memory is already recorded".to_owned()));
        }
        let record = LocalMemoryRecord {
            id,
            scope,
            title,
            content,
            revision: 1,
            created_at: now,
            updated_at: now,
        };
        let version = record_version(&record, LocalMemoryOperation::Created, now);
        let ghost version_model = version@;
        self.memories.push(record.clone());
        self.versions.push(version);
        proof {
            assert(self@.memories =~= before.memories.push(record@));
            assert(self@.versions =~= before.versions.push(version_model));
            assert(self@ =~= before.with_created(record@));
            lemma_created_valid(before, record@);
        }
        Ok(record)
    }

    /// Creates a memory under a fresh identifier.
    pub fn create(
        &mut self,
        scope: LocalMemoryScope,
        resolved: Option<String>,
        title: &str,
        content: &str,
        now: i64,
    ) -> (r: Result<LocalMemoryRecord, LocalMemoryError>)
        requires
            old(self).wf(),
        ensures
            final(self).wf(),
            match r {
                Ok(record) => old(self)@.create_problem(
                    scope@,
                    text::text_opt(resolved),
                    title@,
                    content@,
                    record@.id,
                ) is None && ids::is_v4(record@.id) && record@ == StoreModel::new_memory(
                    scope@,
                    text::text_opt(resolved),
                    title@,
                    content@,
                    record@.id,
                    now,
                ) && final(self)@ == old(self)@.with_created(record@),
                Err(e) => final(self)@ == old(self)@ && exists|id: u128|
                    ids::is_v4(id) && #[trigger] old(self)@.create_problem(
                        scope@,
                        text::text_opt(resolved),
                        title@,
                        content@,
                        id,
                    ) == Some(e@),
            },
    {
        let id: u128 = ids::random_uuid();
        self.create_as(scope, resolved, title, content, id, now)
    }

    fn check_revision(&self, id: u128, expected: i64) -> (r: Result<usize, LocalMemoryError>)
        ensures
            match r {
                Ok(at) => self@.revision_problem(id, expected) is None && at == memory_at(
                    self@.memories,
                    id,
                    0,
                ) && at < self.memories.len() && expected < i64::MAX
                    && self.memories@[at as int].revision == expected,
                Err(e) => self@.revision_problem(id, expected) == Some(e@),
            },
    {
        let at: usize = self.position(id);
        if at >= self.memories.len() {
            return Err(LocalMemoryError::NotFound(id));
        }
        assert(self@.memories[at as int] == self.memories@[at as int]@);
        let actual: i64 = self.memories[at].revision;
        if actual != expected {
            return Err(LocalMemoryError::Conflict { id, expected, actual });
        }
        if expected == i64::MAX {
            return Err(LocalMemoryError::Storage("local memory revision overflow".to_owned()));
        }
        Ok(at)
    }

    /// Updates a memory, if it still has the expected revision.
    pub fn update(
        &mut self,
        id: u128,
        expected_revision: i64,
        scope: LocalMemoryScope,
        resolved: Option<String>,
        title: &str,
        content: &str,
        now: i64,
    ) -> (r: Result<LocalMemoryRecord, LocalMemoryError>)
        requires
            old(self).wf(),
        ensures
            final(self).wf(),
            match r {
                Ok(record) => old(self)@.update_problem(
                    id,
                    expected_revision,
                    scope@,
                    text::text_opt(resolved),
                    title@,
                    content@,
                ) is None && record@ == old(self)@.updated_memory(
                    id,
                    scope@,
                    text::text_opt(resolved),
                    title@,
                    content@,
                    now,
                ) && final(self)@ == old(self)@.with_updated(record@),
                Err(e) => final(self)@ == old(self)@ && old(self)@.update_problem(
                    id,
                    expected_revision,
                    scope@,
                    text::text_opt(resolved),
                    title@,
                    content@,
                ) == Some(e@),
            },
    {
        let ghost before = self@;
        let scope = match normalize_scope(scope, resolved) {
            Ok(scope) => scope,
            Err(error) => {
                return Err(error);
            },
        };
        let (title, content) = match validate_text(title, content) {
            Ok(parts) => parts,
            Err(error) => {
                return Err(error);
            },
        };
        let at: usize = match self.check_revision(id, expected_revision) {
            Ok(at) => at,
            Err(error) => {
                return Err(error);
            },
        };
        assert(before.memories[at as int] == self.memories@[at as int]@);
        let record = LocalMemoryRecord {
            id,
            scope,
            title,
            content,
            revision: expected_revision + 1,
            created_at: self.memories[at].created_at,
            updated_at: now,
        };
        let version = record_version(&record, LocalMemoryOperation::Updated, now);
        let ghost version_model = version@;
        self.memories.set(at, record.clone());
        self.versions.push(version);
        proof {
            assert(self@.memories =~= before.memories.update(at as int, record@));
            assert(self@.versions =~= before.versions.push(version_model));
            assert(self@ =~= before.with_updated(record@));
            lemma_updated_valid(before, record@);
        }
        Ok(record)
    }

    /// Deletes a memory, if it still has the expected revision.
    pub fn delete(&mut self, id: u128, expected_revision: i64, now: i64) -> (r: Result<
        (),
        LocalMemoryError,
    >)
        requires
            old(self).wf(),
        ensures
            final(self).wf(),
            match r {
                Ok(_) => old(self)@.revision_problem(id, expected_revision) is None && final(self)@
                    == old(self)@.with_deleted(id, now),
                Err(e) => final(self)@ == old(self)@ && old(self)@.revision_problem(
                    id,
                    expected_revision,
                ) == Some(e@),
            },
    {
        let ghost before = self@;
        let at: usize = match self.check_revision(id, expected_revision) {
            Ok(at) => at,
            Err(error) => {
                return Err(error);
            },
        };
        assert(before.memories[at as int] == self.memories@[at as int]@);
        let mut end = self.memories.remove(at);
        end.revision = expected_revision + 1;
        end.updated_at = now;
        let version = record_version(&end, LocalMemoryOperation::Deleted, now);
        let ghost version_model = version@;
        self.versions.push(version);
        proof {
            lemma_memory_at(before.memories, id, 0);
            assert(self@.memories =~= before.memories.remove(at as int));
            assert(self@.versions =~= before.versions.push(version_model));
            assert(self@ =~= before.with_deleted(id, now));
            lemma_deleted_valid(before, id, now);
        }
        Ok(())
    }

    pub fn get(&self, id: u128) -> (r: Option<LocalMemoryRecord>)
        ensures
            match r {
                Some(record) => memory_of(self@.memories, id) == Some(record@),
                None => memory_of(self@.memories, id) is None,
            },
    {
        let at: usize = self.position(id);
        if at >= self.memories.len() {
            return None;
        }
        assert(self@.memories[at as int] == self.memories@[at as int]@);
        Some(self.memories[at].clone())
    }

    /// All memories, the one that was updated last first.
    pub fn list(&self) -> (r: Vec<LocalMemoryRecord>)
        ensures
            memory_models(r@) == listed(self@.memories),
    {
        let mut out: Vec<LocalMemoryRecord> = Vec::new();
        let mut i: usize = 0;
        while i < self.memories.len()
            invariant
                i <= self.memories.len(),
                out.len() == i,
                forall|j: int| 0 <= j < i ==> (#[trigger] out@[j])@ == self.memories@[j]@,
            decreases self.memories.len() - i,
        {
            out.push(self.memories[i].clone());
            i += 1;
        }
        let ghost unsorted = out@;
        let sorted = order::sort(out);
        proof {
            let f = |record: LocalMemoryRecord| record@;
            order::lemma_sorted_by(unsorted, f, list_order());
            assert(unsorted.map_values(f) =~= self@.memories);
            assert(memory_models(sorted@) =~= sorted@.map_values(f));
        }
        sorted
    }

    /// The versions of a memory, the first one first.
    pub fn history(&self, id: u128) -> (r: Vec<LocalMemoryVersion>)
        ensures
            version_models(r@) == history_of(self@.versions, id),
    {
        let ghost all = self@.versions;
        let ghost keep = versions_for(id);
        let mut out: Vec<LocalMemoryVersion> = Vec::new();
        let mut i: usize = 0;
        proof {
            reveal(Seq::filter);
            assert(all.subrange(0, 0) =~= Seq::<VersionModel>::empty());
            assert(version_models(out@) =~= all.subrange(0, 0).filter(keep));
        }
        while i < self.versions.len()
            invariant
                i <= self.versions.len(),
                all == self@.versions,
                all.len() == self.versions.len(),
                keep == versions_for(id),
                version_models(out@) == all.subrange(0, i as int).filter(keep),
            decreases self.versions.len() - i,
        {
            let version = &self.versions[i];
            let ghost part = all.subrange(0, i + 1);
            assert(part.drop_last() =~= all.subrange(0, i as int));
            assert(part.last() == version@);
            proof {
                reveal(Seq::filter);
            }
            if version.memory_id == id {
                let ghost before = version_models(out@);
                out.push(version.clone());
                assert(version_models(out@) =~= before.push(version@));
            }
            i += 1;
        }
        assert(all.subrange(0, all.len() as int) =~= all);
        let ghost unsorted = out@;
        let sorted = order::sort(out);
        proof {
            let f = |version: LocalMemoryVersion| version@;
            order::lemma_sorted_by(unsorted, f, revision_order());
            assert(unsorted.map_values(f) =~= version_models(unsorted));
            assert(version_models(sorted@) =~= sorted@.map_values(f));
        }
        sorted
    }
}

/// Whether a memory may stand before another in a list: the one that was
/// updated last first, then by identifier.
pub open spec fn listed_at_most(a: MemoryModel, b: MemoryModel) -> bool {
    if a.updated_at == b.updated_at {
        text::text_at_most(ids::hyphenated(a.id), ids::hyphenated(b.id))
    } else {
        a.updated_at > b.updated_at
    }
}

pub open spec fn list_order() -> spec_fn(MemoryModel, MemoryModel) -> bool {
    |a: MemoryModel, b: MemoryModel| listed_at_most(a, b)
}

pub open spec fn listed(memories: Seq<MemoryModel>) -> Seq<MemoryModel> {
    order::sorted_by(memories, list_order())
}

impl Ordered for LocalMemoryRecord<String> {
    open spec fn at_most(&self, other: &Self) -> bool {
        listed_at_most(self@, other@)
    }

    proof fn order_total(a: &Self, b: &Self) {
        text::lemma_text_total(ids::hyphenated(a@.id), ids::hyphenated(b@.id));
    }

    proof fn order_transitive(a: &Self, b: &Self, c: &Self) {
        if a@.updated_at == b@.updated_at && b@.updated_at == c@.updated_at {
            text::lemma_text_transitive(
                ids::hyphenated(a@.id),
                ids::hyphenated(b@.id),
                ids::hyphenated(c@.id),
            );
        }
    }

    fn is_at_most(&self, other: &Self) -> (r: bool) {
        if self.updated_at == other.updated_at {
            text::is_text_at_most(
                ids::uuid_text(self.id).as_str(),
                ids::uuid_text(other.id).as_str(),
            )
        } else {
            self.updated_at > other.updated_at
        }
    }
}

pub open spec fn revision_order() -> spec_fn(VersionModel, VersionModel) -> bool {
    |a: VersionModel, b: VersionModel| a.revision <= b.revision
}

pub open spec fn versions_for(id: u128) -> spec_fn(VersionModel) -> bool {
    |version: VersionModel| version.memory_id == id
}

pub open spec fn history_of(versions: Seq<VersionModel>, id: u128) -> Seq<VersionModel> {
    order::sorted_by(versions.filter(versions_for(id)), revision_order())
}

impl Ordered for LocalMemoryVersion<String> {
    open spec fn at_most(&self, other: &Self) -> bool {
        self@.revision <= other@.revision
    }

    proof fn order_total(a: &Self, b: &Self) {
    }

    proof fn order_transitive(a: &Self, b: &Self, c: &Self) {
    }

    fn is_at_most(&self, other: &Self) -> (r: bool) {
        self.revision <= other.revision
    }
}

// ---------------------------------------------------------------------------
// Searching.

/// A text in lower-case words with single spaces between them.
pub open spec fn normalized(s: Seq<char>) -> Seq<char> {
    tokens::joined_with(tokens::lexemes(s), " "@)
}

pub fn normalize_for_search(value: &str) -> (r: String)
    ensures
        r@ == normalized(value@),
{
    tokens::join_texts(&tokens::split_lexemes(value), " ")
}

/// The tokens of a query that count: the first different ones.
pub open spec fn query_tokens_of(query: Seq<char>) -> Seq<Seq<char>> {
    let all = tokens::distinct(tokens::lexemes(normalized(query)));
    if all.len() <= MAX_QUERY_TOKENS {
        all
    } else {
        all.subrange(0, MAX_QUERY_TOKENS as int)
    }
}

/// The tokens of a query that count.
pub fn query_tokens(query: &str) -> (r: Vec<String>)
    ensures
        text::texts(r@) == query_tokens_of(query@),
        r.len() <= MAX_QUERY_TOKENS,
{
    let mut all = tokens::distinct_texts(
        &tokens::split_lexemes(normalize_for_search(query).as_str()),
    );
    let ghost found = text::texts(all@);
    if all.len() > MAX_QUERY_TOKENS {
        all.truncate(MAX_QUERY_TOKENS);
        assert(text::texts(all@) =~= found.subrange(0, MAX_QUERY_TOKENS as int));
    }
    all
}

/// What a token adds to the score of a text: more where it is a word of the
/// text than where it is a part of it.
pub open spec fn token_score(token: Seq<char>, normal: Seq<char>, word: int, part: int) -> int {
    if tokens::lexemes(normal).contains(token) {
        word
    } else if text::occurs_in(token, normal) {
        part
    } else {
        0
    }
}

/// What the tokens add to the score of a memory.
pub open spec fn tokens_score(
    query: Seq<Seq<char>>,
    title: Seq<char>,
    content: Seq<char>,
) -> int
    decreases query.len(),
{
    if query.len() == 0 {
        0
    } else {
        tokens_score(query.drop_last(), title, content) + token_score(query.last(), title, 8, 3)
            + token_score(query.last(), content, 4, 1)
    }
}

/// The score of a memory, where `whole` is the query as a normal text.
pub open spec fn memory_score(
    query: Seq<Seq<char>>,
    whole: Seq<char>,
    memory: MemoryModel,
) -> int {
    let title = normalized(memory.title);
    let content = normalized(memory.content);
    tokens_score(query, title, content) + (if whole.len() > 0 && text::occurs_in(whole, title) {
        16int
    } else {
        0int
    }) + (if whole.len() > 0 && text::occurs_in(whole, content) {
        6int
    } else {
        0int
    })
}

/// Whether a memory applies in a directory.
pub open spec fn applies(scope: ScopeModel, directory: Option<Seq<char>>) -> bool {
    match scope {
        LocalMemoryScope::Global => true,
        LocalMemoryScope::Project { root } => directory is Some && paths::is_within(
            directory->0,
            root,
        ),
    }
}

pub fn scope_applies(scope: &LocalMemoryScope, current_directory: &Option<String>) -> (r: bool)
    ensures
        r == applies(scope@, text::text_opt(*current_directory)),
{
    match scope {
        LocalMemoryScope::Global => true,
        LocalMemoryScope::Project { root } => match current_directory {
            Some(directory) => paths::path_is_within(directory.as_str(), root.as_str()),
            None => false,
        },
    }
}

/// The memories that apply and match.
pub open spec fn eligible(
    query: Seq<Seq<char>>,
    whole: Seq<char>,
    directory: Option<Seq<char>>,
) -> spec_fn(MemoryModel) -> bool {
    |memory: MemoryModel|
        applies(memory.scope, directory) && memory_score(query, whole, memory) > 0
}

/// Whether a memory may stand before another: by score, then by when it was
/// updated, then by identifier.
pub open spec fn found_at_most(
    a_score: int,
    a: MemoryModel,
    b_score: int,
    b: MemoryModel,
) -> bool {
    if a_score != b_score {
        a_score > b_score
    } else if a.updated_at != b.updated_at {
        a.updated_at > b.updated_at
    } else {
        a.id <= b.id
    }
}

pub open spec fn search_order(query: Seq<Seq<char>>, whole: Seq<char>) -> spec_fn(
    MemoryModel,
    MemoryModel,
) -> bool {
    |a: MemoryModel, b: MemoryModel|
        found_at_most(memory_score(query, whole, a), a, memory_score(query, whole, b), b)
}

/// The memories that a search returns.
pub open spec fn found(
    memories: Seq<MemoryModel>,
    query: Seq<char>,
    directory: Option<Seq<char>>,
) -> Seq<MemoryModel> {
    let tokens = query_tokens_of(query);
    let whole = normalized(query);
    if tokens.len() == 0 {
        Seq::empty()
    } else {
        let all = order::sorted_by(
            listed(memories).filter(eligible(tokens, whole, directory)),
            search_order(tokens, whole),
        );
        if all.len() <= MAX_CONTEXT_MEMORIES {
            all
        } else {
            all.subrange(0, MAX_CONTEXT_MEMORIES as int)
        }
    }
}

fn score_of_token(token: &str, words: &Vec<String>, normal: &str, word: u32, part: u32) -> (r: u32)
    requires
        text::texts(words@) == tokens::lexemes(normal@),
    ensures
        r == token_score(token@, normal@, word as int, part as int),
{
    if text::strings_contain(words, token) {
        word
    } else if text::str_contains(normal, token) {
        part
    } else {
        0
    }
}

/// Scores a memory, where `whole` is the query as a normal text.
pub fn score_memory(query: &Vec<String>, whole: &str, memory: &LocalMemoryRecord) -> (r: u32)
    requires
        query.len() <= MAX_QUERY_TOKENS,
    ensures
        r == memory_score(text::texts(query@), whole@, memory@),
{
    let title = normalize_for_search(memory.title.as_str());
    let content = normalize_for_search(memory.content.as_str());
    let title_words = tokens::split_lexemes(title.as_str());
    let content_words = tokens::split_lexemes(content.as_str());
    let ghost q = text::texts(query@);
    let mut score: u32 = 0;
    let mut i: usize = 0;
    assert(q.subrange(0, 0) =~= Seq::<Seq<char>>::empty());
    while i < query.len()
        invariant
            i <= query.len() <= MAX_QUERY_TOKENS,
            q == text::texts(query@),
            text::texts(title_words@) == tokens::lexemes(title@),
            text::texts(content_words@) == tokens::lexemes(content@),
            score == tokens_score(q.subrange(0, i as int), title@, content@),
            score <= 12 * i,
        decreases query.len() - i,
    {
        let ghost part = q.subrange(0, i + 1);
        assert(part.drop_last() =~= q.subrange(0, i as int));
        assert(part.last() == query@[i as int]@);
        let token = query[i].as_str();
        let in_title: u32 = score_of_token(token, &title_words, title.as_str(), 8, 3);
        let in_content: u32 = score_of_token(token, &content_words, content.as_str(), 4, 1);
        score = score + in_title + in_content;
        i += 1;
    }
    assert(q.subrange(0, q.len() as int) =~= q);
    if text::char_count(whole) > 0 {
        if text::str_contains(title.as_str(), whole) {
            score = score + 16;
        }
        if text::str_contains(content.as_str(), whole) {
            score = score + 6;
        }
    }
    score
}

/// A memory with its score.
struct ScoredMemory {
    score: u32,
    record: LocalMemoryRecord,
}

impl Ordered for ScoredMemory {
    closed spec fn at_most(&self, other: &Self) -> bool {
        found_at_most(self.score as int, self.record@, other.score as int, other.record@)
    }

    proof fn order_total(a: &Self, b: &Self) {
    }

    proof fn order_transitive(a: &Self, b: &Self, c: &Self) {
    }

    fn is_at_most(&self, other: &Self) -> (r: bool) {
        if self.score != other.score {
            self.score > other.score
        } else if self.record.updated_at != other.record.updated_at {
            self.record.updated_at > other.record.updated_at
        } else {
            self.record.id <= other.record.id
        }
    }
}

spec fn scored_view() -> spec_fn(ScoredMemory) -> MemoryModel {
    |scored: ScoredMemory| scored.record@
}

impl MemoryStore {
    fn score_eligible(
        &self,
        tokens: &Vec<String>,
        whole: &str,
        current_directory: &Option<String>,
    ) -> (r: Vec<ScoredMemory>)
        requires
            tokens.len() <= MAX_QUERY_TOKENS,
        ensures
            r@.map_values(scored_view()) == listed(self@.memories).filter(
                eligible(
                    text::texts(tokens@),
                    whole@,
                    text::text_opt(*current_directory),
                ),
            ),
            forall|j: int|
                0 <= j < r@.len() ==> (#[trigger] r@[j]).score == memory_score(
                    text::texts(tokens@),
                    whole@,
                    r@[j].record@,
                ),
    {
        let records = self.list();
        let ghost all = memory_models(records@);
        let ghost keep = eligible(
            text::texts(tokens@),
            whole@,
            text::text_opt(*current_directory),
        );
        let mut out: Vec<ScoredMemory> = Vec::new();
        let mut i: usize = 0;
        proof {
            reveal(Seq::filter);
            assert(all.subrange(0, 0) =~= Seq::<MemoryModel>::empty());
            assert(out@.map_values(scored_view()) =~= all.subrange(0, 0).filter(keep));
        }
        while i < records.len()
            invariant
                i <= records.len(),
                tokens.len() <= MAX_QUERY_TOKENS,
                all == memory_models(records@),
                keep == eligible(
                    text::texts(tokens@),
                    whole@,
                    text::text_opt(*current_directory),
                ),
                out@.map_values(scored_view()) == all.subrange(0, i as int).filter(keep),
                forall|j: int|
                    0 <= j < out@.len() ==> (#[trigger] out@[j]).score == memory_score(
                        text::texts(tokens@),
                        whole@,
                        out@[j].record@,
                    ),
            decreases records.len() - i,
        {
            let record = &records[i];
            let ghost part = all.subrange(0, i + 1);
            assert(part.drop_last() =~= all.subrange(0, i as int));
            assert(part.last() == record@);
            proof {
                reveal(Seq::filter);
            }
            let score: u32 = score_memory(tokens, whole, record);
            if scope_applies(&record.scope, current_directory) && score > 0 {
                assert(keep(record@));
                let ghost before = out@.map_values(scored_view());
                out.push(ScoredMemory { score, record: record.clone() });
                assert(out@.map_values(scored_view()) =~= before.push(record@));
            }
            i += 1;
        }
        assert(all.subrange(0, all.len() as int) =~= all);
        out
    }

    /// The memories that bear on a query in a directory, the best first.
    pub fn search(&self, query: &str, current_directory: &Option<String>) -> (r: Vec<
        LocalMemoryRecord,
    >)
        ensures
            memory_models(r@) == found(
                self@.memories,
                query@,
                text::text_opt(*current_directory),
            ),
            r.len() <= MAX_CONTEXT_MEMORIES,
    {
        let tokens = query_tokens(query);
        let ghost q = text::texts(tokens@);
        let mut out: Vec<LocalMemoryRecord> = Vec::new();
        assert(q.len() == tokens.len());
        if tokens.len() == 0 {
            assert(memory_models(out@) =~= Seq::<MemoryModel>::empty());
            return out;
        }
        let whole = normalize_for_search(query);
        let scored = self.score_eligible(&tokens, whole.as_str(), current_directory);
        let ghost unsorted = scored@;
        proof {
            assert forall|x: ScoredMemory, y: ScoredMemory|
                unsorted.contains(x) && unsorted.contains(y) implies #[trigger] x.at_most(&y)
                == search_order(q, whole@)(scored_view()(x), scored_view()(y)) by {
                let a = choose|a: int| 0 <= a < unsorted.len() && unsorted[a] == x;
                let b = choose|b: int| 0 <= b < unsorted.len() && unsorted[b] == y;
                assert(unsorted[a].score == memory_score(q, whole@, unsorted[a].record@));
                assert(unsorted[b].score == memory_score(q, whole@, unsorted[b].record@));
            }
            order::lemma_sorted_by(unsorted, scored_view(), search_order(q, whole@));
        }
        let ranked = order::sort(scored);
        let ghost all = ranked@.map_values(scored_view());
        let mut i: usize = 0;
        while i < ranked.len() && i < MAX_CONTEXT_MEMORIES
            invariant
                i <= ranked.len(),
                i <= MAX_CONTEXT_MEMORIES,
                out.len() == i,
                forall|j: int| 0 <= j < i ==> (#[trigger] out@[j])@ == ranked@[j].record@,
            decreases ranked.len() - i,
        {
            out.push(ranked[i].record.clone());
            i += 1;
        }
        assert(memory_models(out@) =~= found(
            self@.memories,
            query@,
            text::text_opt(*current_directory),
        ));
        out
    }
}

// ---------------------------------------------------------------------------
// A repository, whose storage may be missing.

/// The memories, or why they cannot be reached.
pub enum LocalMemoryRepository {
    Available(MemoryStore),
    Unavailable(String),
}

pub enum RepositoryModel {
    Available(StoreModel),
    Unavailable(Seq<char>),
}

impl View for LocalMemoryRepository {
    type V = RepositoryModel;

    open spec fn view(&self) -> RepositoryModel {
        match self {
            LocalMemoryRepository::Available(store) => RepositoryModel::Available(store@),
            LocalMemoryRepository::Unavailable(message) => RepositoryModel::Unavailable(message@),
        }
    }
}

impl RepositoryModel {
    /// The memories in the repository.
    pub open spec fn memories(self) -> Seq<MemoryModel> {
        match self {
            RepositoryModel::Available(m) => m.memories,
            RepositoryModel::Unavailable(_) => Seq::empty(),
        }
    }

    /// Why nothing can be read, if nothing can.
    pub open spec fn outage(self) -> Option<ErrorModel> {
        match self {
            RepositoryModel::Available(_) => None,
            RepositoryModel::Unavailable(message) => Some(LocalMemoryError::Storage(message)),
        }
    }

    /// Why a memory cannot be created, if it cannot.
    pub open spec fn create_problem(
        self,
        scope: ScopeModel,
        resolved: Option<Seq<char>>,
        title: Seq<char>,
        content: Seq<char>,
        id: u128,
    ) -> Option<ErrorModel> {
        match self {
            RepositoryModel::Available(m) => m.create_problem(scope, resolved, title, content, id),
            RepositoryModel::Unavailable(_) => match resolved_scope(scope, resolved) {
                Err(e) => Some(e),
                Ok(_) => if text_problem(title, content) is Some {
                    text_problem(title, content)
                } else {
                    self.outage()
                },
            },
        }
    }

    /// Why a memory cannot be updated, if it cannot.
    pub open spec fn update_problem(
        self,
        id: u128,
        expected: i64,
        scope: ScopeModel,
        resolved: Option<Seq<char>>,
        title: Seq<char>,
        content: Seq<char>,
    ) -> Option<ErrorModel> {
        match self {
            RepositoryModel::Available(m) => m.update_problem(
                id,
                expected,
                scope,
                resolved,
                title,
                content,
            ),
            RepositoryModel::Unavailable(_) => match resolved_scope(scope, resolved) {
                Err(e) => Some(e),
                Ok(_) => if text_problem(title, content) is Some {
                    text_problem(title, content)
                } else {
                    self.outage()
                },
            },
        }
    }

    /// Why a memory cannot be deleted, if it cannot.
    pub open spec fn delete_problem(self, id: u128, expected: i64) -> Option<ErrorModel> {
        match self {
            RepositoryModel::Available(m) => m.revision_problem(id, expected),
            RepositoryModel::Unavailable(_) => self.outage(),
        }
    }
}

/// Refuses what no storage could hold, and then the lack of storage.
fn refuse_unstored(
    scope: LocalMemoryScope,
    resolved: Option<String>,
    title: &str,
    content: &str,
    message: &str,
) -> (r: LocalMemoryError)
    ensures
        forall|id: u128|
            #[trigger] RepositoryModel::Unavailable(message@).create_problem(
                scope@,
                text::text_opt(resolved),
                title@,
                content@,
                id,
            ) == Some(r@),
{
    match normalize_scope(scope, resolved) {
        Ok(_) => match validate_text(title, content) {
            Ok(_) => LocalMemoryError::Storage(message.to_owned()),
            Err(error) => error,
        },
        Err(error) => error,
    }
}

impl LocalMemoryRepository {
    pub open spec fn wf(&self) -> bool {
        match self {
            LocalMemoryRepository::Available(store) => store.wf(),
            LocalMemoryRepository::Unavailable(_) => true,
        }
    }

    /// A repository without any memory.
    pub fn in_memory() -> (r: Self)
        ensures
            r.wf(),
            r@ == RepositoryModel::Available(
                StoreModel { memories: Seq::empty(), versions: Seq::empty() },
            ),
    {
        LocalMemoryRepository::Available(MemoryStore::new())
    }

    /// A repository whose storage is missing.
    pub fn unavailable(message: String) -> (r: Self)
        ensures
            r.wf(),
            r@ == RepositoryModel::Unavailable(message@),
    {
        LocalMemoryRepository::Unavailable(message)
    }

    pub fn startup_error(&self) -> (r: Option<String>)
        ensures
            text::text_opt(r) == match self@ {
                RepositoryModel::Available(_) => None,
                RepositoryModel::Unavailable(message) => Some(message),
            },
    {
        match self {
            LocalMemoryRepository::Available(_) => None,
            LocalMemoryRepository::Unavailable(message) => Some(message.clone()),
        }
    }

    /// Creates a memory under a fresh identifier.
    pub fn create(
        &mut self,
        scope: LocalMemoryScope,
        resolved: Option<String>,
        title: &str,
        content: &str,
        now: i64,
    ) -> (r: Result<LocalMemoryRecord, LocalMemoryError>)
        requires
            old(self).wf(),
        ensures
            final(self).wf(),
            match r {
                Ok(record) => old(self)@.create_problem(
                    scope@,
                    text::text_opt(resolved),
                    title@,
                    content@,
                    record@.id,
                ) is None && ids::is_v4(record@.id) && record@ == StoreModel::new_memory(
                    scope@,
                    text::text_opt(resolved),
                    title@,
                    content@,
                    record@.id,
                    now,
                ) && final(self)@ == RepositoryModel::Available(
                    old(self)@->Available_0.with_created(record@),
                ),
                Err(e) => final(self)@ == old(self)@ && exists|id: u128|
                    ids::is_v4(id) && #[trigger] old(self)@.create_problem(
                        scope@,
                        text::text_opt(resolved),
                        title@,
                        content@,
                        id,
                    ) == Some(e@),
            },
    {
        match self {
            LocalMemoryRepository::Available(store) => {
                let ghost before = store@;
                let r = store.create(scope, resolved, title, content, now);
                proof {
                    if r is Err {
                        let e = r->Err_0;
                        let id = choose|id: u128|
                            ids::is_v4(id) && #[trigger] before.create_problem(
                                scope@,
                                text::text_opt(resolved),
                                title@,
                                content@,
                                id,
                            ) == Some(e@);
                        assert(RepositoryModel::Available(before).create_problem(
                            scope@,
                            text::text_opt(resolved),
                            title@,
                            content@,
                            id,
                        ) == Some(e@));
                    }
                }
                r
            },
            LocalMemoryRepository::Unavailable(message) => {
                let error = refuse_unstored(scope, resolved, title, content, message.as_str());
                proof {
                    let id: u128 = 0x4000_8000_0000_0000_0000;
                    assert(ids::is_v4(0x4000_8000_0000_0000_0000)) by (bit_vector);
                    assert(RepositoryModel::Unavailable(message@).create_problem(
                        scope@,
                        text::text_opt(resolved),
                        title@,
                        content@,
                        id,
                    ) == Some(error@));
                }
                Err(error)
            },
        }
    }

    /// Updates a memory, if it still has the expected revision.
    pub fn update(
        &mut self,
        id: u128,
        expected_revision: i64,
        scope: LocalMemoryScope,
        resolved: Option<String>,
        title: &str,
        content: &str,
        now: i64,
    ) -> (r: Result<LocalMemoryRecord, LocalMemoryError>)
        requires
            old(self).wf(),
        ensures
            final(self).wf(),
            match r {
                Ok(record) => old(self)@.update_problem(
                    id,
                    expected_revision,
                    scope@,
                    text::text_opt(resolved),
                    title@,
                    content@,
                ) is None && record@ == old(self)@->Available_0.updated_memory(
                    id,
                    scope@,
                    text::text_opt(resolved),
                    title@,
                    content@,
                    now,
                ) && final(self)@ == RepositoryModel::Available(
                    old(self)@->Available_0.with_updated(record@),
                ),
                Err(e) => final(self)@ == old(self)@ && old(self)@.update_problem(
                    id,
                    expected_revision,
                    scope@,
                    text::text_opt(resolved),
                    title@,
                    content@,
                ) == Some(e@),
            },
    {
        match self {
            LocalMemoryRepository::Available(store) => store.update(
                id,
                expected_revision,
                scope,
                resolved,
                title,
                content,
                now,
            ),
            LocalMemoryRepository::Unavailable(message) => {
                let error = refuse_unstored(scope, resolved, title, content, message.as_str());
                assert(RepositoryModel::Unavailable(message@).create_problem(
                    scope@,
                    text::text_opt(resolved),
                    title@,
                    content@,
                    id,
                ) == Some(error@));
                Err(error)
            },
        }
    }

    /// Deletes a memory, if it still has the expected revision.
    pub fn delete(&mut self, id: u128, expected_revision: i64, now: i64) -> (r: Result<
        (),
        LocalMemoryError,
    >)
        requires
            old(self).wf(),
        ensures
            final(self).wf(),
            match r {
                Ok(_) => old(self)@.delete_problem(id, expected_revision) is None && final(self)@
                    == RepositoryModel::Available(old(self)@->Available_0.with_deleted(id, now)),
                Err(e) => final(self)@ == old(self)@ && old(self)@.delete_problem(
                    id,
                    expected_revision,
                ) == Some(e@),
            },
    {
        match self {
            LocalMemoryRepository::Available(store) => store.delete(id, expected_revision, now),
            LocalMemoryRepository::Unavailable(message) => Err(
                LocalMemoryError::Storage(message.clone()),
            ),
        }
    }

    pub fn get(&self, id: u128) -> (r: Result<Option<LocalMemoryRecord>, LocalMemoryError>)
        ensures
            match r {
                Ok(found) => self@.outage() is None && match found {
                    Some(record) => memory_of(self@.memories(), id) == Some(record@),
                    None => memory_of(self@.memories(), id) is None,
                },
                Err(e) => self@.outage() == Some(e@),
            },
    {
        match self {
            LocalMemoryRepository::Available(store) => Ok(store.get(id)),
            LocalMemoryRepository::Unavailable(message) => Err(
                LocalMemoryError::Storage(message.clone()),
            ),
        }
    }

    /// All memories, the one that was updated last first.
    pub fn list(&self) -> (r: Result<Vec<LocalMemoryRecord>, LocalMemoryError>)
        ensures
            match r {
                Ok(records) => self@.outage() is None && memory_models(records@) == listed(
                    self@.memories(),
                ),
                Err(e) => self@.outage() == Some(e@),
            },
    {
        match self {
            LocalMemoryRepository::Available(store) => Ok(store.list()),
            LocalMemoryRepository::Unavailable(message) => Err(
                LocalMemoryError::Storage(message.clone()),
            ),
        }
    }

    /// The versions of a memory, the first one first.
    pub fn history(&self, id: u128) -> (r: Result<Vec<LocalMemoryVersion>, LocalMemoryError>)
        ensures
            match r {
                Ok(versions) => self@.outage() is None && version_models(versions@) == history_of(
                    self@->Available_0.versions,
                    id,
                ),
                Err(e) => self@.outage() == Some(e@),
            },
    {
        match self {
            LocalMemoryRepository::Available(store) => Ok(store.history(id)),
            LocalMemoryRepository::Unavailable(message) => Err(
                LocalMemoryError::Storage(message.clone()),
            ),
        }
    }

    /// The memories that bear on a query in a directory, the best first. A query
    /// without words finds nothing, whatever became of the storage.
    pub fn search(&self, query: &str, current_directory: &Option<String>) -> (r: Result<
        Vec<LocalMemoryRecord>,
        LocalMemoryError,
    >)
        ensures
            match r {
                Ok(records) => (self@.outage() is None || query_tokens_of(query@).len() == 0)
                    && memory_models(records@) == found(
                    self@.memories(),
                    query@,
                    text::text_opt(*current_directory),
                ),
                Err(e) => self@.outage() == Some(e@) && query_tokens_of(query@).len() > 0,
            },
    {
        match self {
            LocalMemoryRepository::Available(store) => Ok(store.search(query, current_directory)),
            LocalMemoryRepository::Unavailable(message) => {
                let tokens = query_tokens(query);
                assert(text::texts(tokens@).len() == tokens.len());
                if tokens.len() == 0 {
                    let none: Vec<LocalMemoryRecord> = Vec::new();
                    assert(memory_models(none@) =~= Seq::<MemoryModel>::empty());
                    Ok(none)
                } else {
                    Err(LocalMemoryError::Storage(message.clone()))
                }
            },
        }
    }
}

/// A content that fits into a context: as it is, or its beginning with an
/// ellipsis.
pub fn truncate_context_content(content: &str, max_chars: usize) -> (r: String)
    ensures
        r@ == text::ellipsized(content@, max_chars as int),
{
    text::ellipsize(content, max_chars)
}

// ---------------------------------------------------------------------------
// Laws.

/// A stale writer is refused: an update or a deletion that expects another
/// revision than the current one changes nothing.
pub proof fn law_stale_writer_is_refused(m: StoreModel, id: u128, expected: i64)
    requires
        memory_of(m.memories, id) is Some,
        memory_of(m.memories, id)->0.revision != expected,
    ensures
        m.revision_problem(id, expected) == Some(
            LocalMemoryError::<Seq<char>>::Conflict {
                id,
                expected,
                actual: memory_of(m.memories, id)->0.revision,
            },
        ),
{
}

/// No change forgets what was recorded before it.
pub proof fn law_history_is_kept(m: StoreModel, memory: MemoryModel, id: u128, now: i64)
    ensures
        m.with_created(memory).versions.drop_last() == m.versions,
        m.with_updated(memory).versions.drop_last() == m.versions,
        m.with_deleted(id, now).versions.drop_last() == m.versions,
{
    assert(m.with_created(memory).versions.drop_last() =~= m.versions);
    assert(m.with_updated(memory).versions.drop_last() =~= m.versions);
    assert(m.with_deleted(id, now).versions.drop_last() =~= m.versions);
}

/// What was created is found again, and its history starts with it.
pub proof fn law_created_memory_is_found(m: StoreModel, memory: MemoryModel)
    requires
        memory_of(m.memories, memory.id) is None,
        !has_history(m.versions, memory.id),
    ensures
        memory_of(m.with_created(memory).memories, memory.id) == Some(memory),
        m.with_created(memory).versions.filter(versions_for(memory.id)) == seq![
            version_of(memory, LocalMemoryOperation::Created, memory.updated_at),
        ],
{
    let after = m.with_created(memory);
    lemma_memory_at(m.memories, memory.id, 0);
    lemma_memory_at(after.memories, memory.id, 0);
    let at = memory_at(after.memories, memory.id, 0);
    let n = m.memories.len() as int;
    assert(after.memories[n] == memory);
    if at < n {
        assert(after.memories[at] == m.memories[at]);
    }
    lemma_filter_none(m.versions, memory.id);
    reveal(Seq::filter);
    assert(after.versions.drop_last() =~= m.versions);
}

proof fn lemma_filter_none(versions: Seq<VersionModel>, id: u128)
    requires
        !has_history(versions, id),
    ensures
        versions.filter(versions_for(id)) == Seq::<VersionModel>::empty(),
    decreases versions.len(),
{
    reveal(Seq::filter);
    if versions.len() > 0 {
        let init = versions.drop_last();
        assert(versions[versions.len() - 1].memory_id != id);
        assert forall|i: int| 0 <= i < init.len() implies (#[trigger] init[i]).memory_id != id by {
            assert(versions[i].memory_id != id);
        }
        lemma_filter_none(init, id);
    }
}

/// What was updated is found again with the next revision, no other memory
/// changes, and the history goes on.
pub proof fn law_updated_memory_is_found(m: StoreModel, memory: MemoryModel, other: u128)
    requires
        m.valid(),
        memory_of(m.memories, memory.id) is Some,
        other != memory.id,
    ensures
        memory_of(m.with_updated(memory).memories, memory.id) == Some(memory),
        memory_of(m.with_updated(memory).memories, other) == memory_of(m.memories, other),
        m.with_updated(memory).versions.filter(versions_for(memory.id)) == m.versions.filter(
            versions_for(memory.id),
        ).push(version_of(memory, LocalMemoryOperation::Updated, memory.updated_at)),
{
    let after = m.with_updated(memory);
    let at = memory_at(m.memories, memory.id, 0);
    lemma_memory_at(m.memories, memory.id, 0);
    lemma_memory_at(after.memories, memory.id, 0);
    let k = memory_at(after.memories, memory.id, 0);
    assert(after.memories[at] == memory);
    if k < at {
        assert(after.memories[k] == m.memories[k]);
    }
    assert(k == at);
    lemma_same_others(m.memories, after.memories, at, other, 0);
    reveal(Seq::filter);
    assert(after.versions.drop_last() =~= m.versions);
}

/// Changing one memory leaves the others where they are.
proof fn lemma_same_others(
    a: Seq<MemoryModel>,
    b: Seq<MemoryModel>,
    at: int,
    other: u128,
    from: int,
)
    requires
        a.len() == b.len(),
        0 <= at < a.len(),
        0 <= from <= a.len(),
        b == a.update(at, b[at]),
        a[at].id != other,
        b[at].id != other,
    ensures
        memory_at(a, other, from) == memory_at(b, other, from),
        memory_at(a, other, from) < a.len() ==> a[memory_at(a, other, from)] == b[memory_at(
            b,
            other,
            from,
        )],
    decreases a.len() - from,
{
    lemma_memory_at(a, other, from);
    if from < a.len() {
        if from != at {
            assert(a[from] == b[from]);
        }
        if a[from].id != other {
            lemma_same_others(a, b, at, other, from + 1);
        }
    }
}

/// What was deleted is not found again, and its end is in the history.
pub proof fn law_deleted_memory_is_gone(m: StoreModel, id: u128, now: i64)
    requires
        m.valid(),
        memory_of(m.memories, id) is Some,
    ensures
        memory_of(m.with_deleted(id, now).memories, id) is None,
        m.with_deleted(id, now).versions.last().operation is Deleted,
        m.with_deleted(id, now).versions.last().memory_id == id,
        m.with_deleted(id, now).versions.drop_last() == m.versions,
{
    let after = m.with_deleted(id, now);
    let at = memory_at(m.memories, id, 0);
    lemma_memory_at(m.memories, id, 0);
    lemma_memory_at(after.memories, id, 0);
    let k = memory_at(after.memories, id, 0);
    if k < after.memories.len() {
        let back = if k < at {
            k
        } else {
            k + 1
        };
        assert(after.memories[k] == m.memories[back]);
        if back < at {
            assert(m.memories[back].id != m.memories[at].id);
        } else {
            assert(m.memories[at].id != m.memories[back].id);
        }
    }
    assert(after.versions.drop_last() =~= m.versions);
}

/// A scope is read back as it was written, where the root of a project is not
/// empty.
pub proof fn law_scope_reads_back(scope: ScopeModel)
    requires
        scope is Project ==> scope->root.len() > 0,
    ensures
        scope_of(parts_of(scope).0, parts_of(scope).1) == Ok::<ScopeModel, ErrorModel>(scope),
{
    reveal_strlit("global");
    reveal_strlit("project");
    assert("global"@.len() == 6 && "project"@.len() == 7);
}

/// A search returns only memories of the store that apply in the directory.
pub proof fn law_search_respects_scopes(
    memories: Seq<MemoryModel>,
    query: Seq<char>,
    directory: Option<Seq<char>>,
    i: int,
)
    requires
        0 <= i < found(memories, query, directory).len(),
    ensures
        memories.contains(found(memories, query, directory)[i]),
        applies(found(memories, query, directory)[i].scope, directory),
        memory_score(
            query_tokens_of(query),
            normalized(query),
            found(memories, query, directory)[i],
        ) > 0,
{
    broadcast use vstd::seq_lib::group_to_multiset_ensures;

    let tokens = query_tokens_of(query);
    let whole = normalized(query);
    let keep = eligible(tokens, whole, directory);
    let all = listed(memories);
    let matching = all.filter(keep);
    let ranked = order::sorted_by(matching, search_order(tokens, whole));
    let x = found(memories, query, directory)[i];
    assert(x == ranked[i]);
    order::lemma_sorted_by_permutes(matching, search_order(tokens, whole));
    order::lemma_sorted_by_permutes(memories, list_order());
    assert(ranked.contains(x));
    assert(ranked.to_multiset().count(x) > 0);
    assert(matching.contains(x));
    let k = choose|k: int| 0 <= k < matching.len() && matching[k] == x;
    order::lemma_filtered(all, keep, k);
    assert(all.contains(x));
    assert(all.to_multiset().count(x) > 0);
    assert(memories.contains(x));
}

/// The order of a search is a total preorder.
proof fn lemma_search_preorder(query: Seq<Seq<char>>, whole: Seq<char>)
    ensures
        order::is_preorder(search_order(query, whole)),
{
}

/// A search returns the memories in the order of their scores.
pub proof fn law_search_is_in_order(
    memories: Seq<MemoryModel>,
    query: Seq<char>,
    directory: Option<Seq<char>>,
    i: int,
    j: int,
)
    requires
        0 <= i < j < found(memories, query, directory).len(),
    ensures
        search_order(query_tokens_of(query), normalized(query))(
            found(memories, query, directory)[i],
            found(memories, query, directory)[j],
        ),
{
    let tokens = query_tokens_of(query);
    let whole = normalized(query);
    let matching = listed(memories).filter(eligible(tokens, whole, directory));
    let ranked = order::sorted_by(matching, search_order(tokens, whole));
    lemma_search_preorder(tokens, whole);
    order::lemma_sorted_by_in_order(matching, search_order(tokens, whole));
    assert(found(memories, query, directory)[i] == ranked[i]);
    assert(found(memories, query, directory)[j] == ranked[j]);
}

spec fn distinct_ids(memories: Seq<MemoryModel>) -> bool {
    forall|i: int, j: int|
        #![trigger memories[i], memories[j]]
        0 <= i < j < memories.len() ==> memories[i].id != memories[j].id
}

proof fn lemma_permuted_ids(a: Seq<MemoryModel>, b: Seq<MemoryModel>)
    requires
        distinct_ids(a),
        a.to_multiset() == b.to_multiset(),
    ensures
        distinct_ids(b),
{
    let f = |memory: MemoryModel| memory.id;
    order::lemma_same_images(a, b, f);
    let x = a.map_values(f);
    let y = b.map_values(f);
    assert(x.no_duplicates()) by {
        assert forall|i: int, j: int| 0 <= i < x.len() && 0 <= j < x.len() && i != j implies x[i]
            != x[j] by {
            if i < j {
                assert(a[i].id != a[j].id);
            } else {
                assert(a[j].id != a[i].id);
            }
        }
    }
    x.lemma_multiset_has_no_duplicates();
    y.lemma_multiset_has_no_duplicates_conv();
    assert forall|i: int, j: int|
        #![trigger b[i], b[j]]
        0 <= i < j < b.len() implies b[i].id != b[j].id by {
        assert(y[i] != y[j]);
    }
}

proof fn lemma_filtered_ids(memories: Seq<MemoryModel>, keep: spec_fn(MemoryModel) -> bool)
    requires
        distinct_ids(memories),
    ensures
        distinct_ids(memories.filter(keep)),
    decreases memories.len(),
{
    reveal(Seq::filter);
    let out = memories.filter(keep);
    if memories.len() > 0 {
        let init = memories.drop_last();
        let kept = init.filter(keep);
        lemma_filtered_ids(init, keep);
        assert forall|i: int, j: int|
            #![trigger out[i], out[j]]
            0 <= i < j < out.len() implies out[i].id != out[j].id by {
            assert(out[i] == kept[i]);
            if j < kept.len() {
                assert(out[j] == kept[j]);
            } else {
                order::lemma_filtered(init, keep, i);
                let k = choose|k: int| 0 <= k < init.len() && init[k] == kept[i];
                assert(memories[k].id != memories[memories.len() - 1].id);
            }
        }
    }
}

/// A search returns no memory twice, and no more than fit into a context.
pub proof fn law_search_repeats_nothing(
    m: StoreModel,
    query: Seq<char>,
    directory: Option<Seq<char>>,
    i: int,
    j: int,
)
    requires
        m.valid(),
        0 <= i < j < found(m.memories, query, directory).len(),
    ensures
        found(m.memories, query, directory)[i].id != found(m.memories, query, directory)[j].id,
        found(m.memories, query, directory).len() <= MAX_CONTEXT_MEMORIES,
{
    let tokens = query_tokens_of(query);
    let whole = normalized(query);
    let keep = eligible(tokens, whole, directory);
    let all = listed(m.memories);
    let matching = all.filter(keep);
    let ranked = order::sorted_by(matching, search_order(tokens, whole));
    assert(distinct_ids(m.memories));
    order::lemma_sorted_by_permutes(m.memories, list_order());
    lemma_permuted_ids(m.memories, all);
    lemma_filtered_ids(all, keep);
    order::lemma_sorted_by_permutes(matching, search_order(tokens, whole));
    lemma_permuted_ids(matching, ranked);
    assert(found(m.memories, query, directory)[i] == ranked[i]);
    assert(found(m.memories, query, directory)[j] == ranked[j]);
}

/// Whether no character of a text, in lower case, is a letter or a digit.
pub open spec fn without_words(s: Seq<char>) -> bool {
    forall|i: int, k: int|
        0 <= i < s.len() && 0 <= k < text::lower_mapping(s[i]).len() ==> !text::is_alnum(
            #[trigger] text::lower_mapping(s[i])[k],
        )
}

proof fn lemma_blank_words(s: Seq<char>)
    requires
        forall|i: int| 0 <= i < s.len() ==> #[trigger] s[i] == ' ',
    ensures
        text::words(s) == Seq::<Seq<char>>::empty(),
    decreases s.len(),
{
    if s.len() > 0 {
        assert(s[s.len() - 1] == ' ');
        assert forall|i: int| 0 <= i < s.drop_last().len() implies #[trigger] s.drop_last()[i]
            == ' ' by {
            assert(s[i] == ' ');
        }
        lemma_blank_words(s.drop_last());
    }
}

proof fn lemma_folded_blank(s: Seq<char>)
    requires
        without_words(s),
    ensures
        forall|i: int| 0 <= i < tokens::folded(s).len() ==> #[trigger] tokens::folded(s)[i] == ' ',
    decreases s.len(),
{
    if s.len() > 0 {
        let init = s.drop_last();
        assert forall|i: int, k: int|
            0 <= i < init.len() && 0 <= k < text::lower_mapping(init[i]).len() implies !text::is_alnum(
            #[trigger] text::lower_mapping(init[i])[k],
        ) by {
            assert(!text::is_alnum(text::lower_mapping(s[i])[k]));
        }
        lemma_folded_blank(init);
        let image = text::lower_mapping(s.last());
        let start = tokens::folded(init);
        assert forall|i: int| 0 <= i < tokens::folded(s).len() implies #[trigger] tokens::folded(
            s,
        )[i] == ' ' by {
            if i < start.len() {
                assert(start[i] == ' ');
            } else {
                let k = i - start.len();
                assert(!text::is_alnum(text::lower_mapping(s[s.len() - 1])[k]));
                assert(tokens::blanked(image)[k] == ' ');
            }
        }
    }
}

/// A query without letters and digits finds nothing.
pub proof fn law_query_without_words_finds_nothing(
    memories: Seq<MemoryModel>,
    query: Seq<char>,
    directory: Option<Seq<char>>,
)
    requires
        without_words(query),
    ensures
        found(memories, query, directory) == Seq::<MemoryModel>::empty(),
{
    lemma_folded_blank(query);
    lemma_blank_words(tokens::folded(query));
    assert(normalized(query) == Seq::<char>::empty());
    assert(tokens::folded(normalized(query)) == Seq::<char>::empty());
    lemma_blank_words(tokens::folded(normalized(query)));
}

// ---------------------------------------------------------------------------
// What recall promises.

/// What one more word of a query is worth: it counts in the title and in the
/// content, each by itself, and more as a word than as a part of one.
pub proof fn law_every_word_of_a_query_counts(
    query: Seq<Seq<char>>,
    word: Seq<char>,
    whole: Seq<char>,
    memory: MemoryModel,
)
    ensures
        ({
            let title = normalized(memory.title);
            let content = normalized(memory.content);
            let gain = memory_score(query.push(word), whole, memory) - memory_score(
                query,
                whole,
                memory,
            );
            let in_title = tokens::lexemes(title).contains(word);
            let part_of_title = text::occurs_in(word, title);
            let in_content = tokens::lexemes(content).contains(word);
            let part_of_content = text::occurs_in(word, content);
            &&& in_title && in_content ==> gain == 12
            &&& in_title && !in_content && part_of_content ==> gain == 9
            &&& in_title && !in_content && !part_of_content ==> gain == 8
            &&& !in_title && part_of_title && in_content ==> gain == 7
            &&& !in_title && part_of_title && !in_content && part_of_content ==> gain == 4
            &&& !in_title && part_of_title && !in_content && !part_of_content ==> gain == 3
            &&& !in_title && !part_of_title && in_content ==> gain == 4
            &&& !in_title && !part_of_title && !in_content && part_of_content ==> gain == 1
            &&& !in_title && !part_of_title && !in_content && !part_of_content ==> gain == 0
        }),
{
    assert(query.push(word).drop_last() =~= query);
}

/// The query as a whole counts beside its words: most in the title, less in
/// the content, and not at all where there is none.
pub proof fn law_the_whole_query_counts(
    query: Seq<Seq<char>>,
    whole: Seq<char>,
    memory: MemoryModel,
)
    ensures
        memory_score(Seq::empty(), Seq::empty(), memory) == 0,
        whole.len() > 0 && text::occurs_in(whole, normalized(memory.title)) && text::occurs_in(
            whole,
            normalized(memory.content),
        ) ==> memory_score(query, whole, memory) - memory_score(query, Seq::empty(), memory) == 22,
        whole.len() > 0 && text::occurs_in(whole, normalized(memory.title)) && !text::occurs_in(
            whole,
            normalized(memory.content),
        ) ==> memory_score(query, whole, memory) - memory_score(query, Seq::empty(), memory) == 16,
        whole.len() > 0 && !text::occurs_in(whole, normalized(memory.title)) && text::occurs_in(
            whole,
            normalized(memory.content),
        ) ==> memory_score(query, whole, memory) - memory_score(query, Seq::empty(), memory) == 6,
        !text::occurs_in(whole, normalized(memory.title)) && !text::occurs_in(
            whole,
            normalized(memory.content),
        ) ==> memory_score(query, whole, memory) == memory_score(query, Seq::empty(), memory),
{
}

/// Whether a word of a query is found in a text, as a word or as a part of one.
pub open spec fn mentions(s: Seq<char>, word: Seq<char>) -> bool {
    tokens::lexemes(normalized(s)).contains(word) || text::occurs_in(word, normalized(s))
}

proof fn lemma_mention_counts(
    query: Seq<Seq<char>>,
    title: Seq<char>,
    content: Seq<char>,
    k: int,
)
    ensures
        tokens_score(query, title, content) >= 0,
        0 <= k < query.len() && (token_score(query[k], title, 8, 3) > 0 || token_score(
            query[k],
            content,
            4,
            1,
        ) > 0) ==> tokens_score(query, title, content) > 0,
    decreases query.len(),
{
    if query.len() > 0 {
        lemma_mention_counts(query.drop_last(), title, content, k);
        if 0 <= k < query.len() - 1 {
            assert(query.drop_last()[k] == query[k]);
        }
    }
}

proof fn lemma_no_mention(query: Seq<Seq<char>>, title: Seq<char>, content: Seq<char>)
    requires
        forall|k: int|
            0 <= k < query.len() ==> token_score(#[trigger] query[k], title, 8, 3) == 0
                && token_score(query[k], content, 4, 1) == 0,
    ensures
        tokens_score(query, title, content) == 0,
    decreases query.len(),
{
    if query.len() > 0 {
        let init = query.drop_last();
        assert forall|k: int| 0 <= k < init.len() implies token_score(
            #[trigger] init[k],
            title,
            8,
            3,
        ) == 0 && token_score(init[k], content, 4, 1) == 0 by {
            assert(init[k] == query[k]);
        }
        assert(query[query.len() - 1] == query.last());
        lemma_no_mention(init, title, content);
    }
}

/// A memory bears on a query exactly where its title or its content mentions a
/// word of the query, or holds the query as a whole.
pub proof fn law_score_tells_what_bears_on_a_query(
    query: Seq<Seq<char>>,
    whole: Seq<char>,
    memory: MemoryModel,
)
    ensures
        memory_score(query, whole, memory) > 0 <==> {
            ||| exists|k: int|
                #![trigger query[k]]
                0 <= k < query.len() && (mentions(memory.title, query[k]) || mentions(
                    memory.content,
                    query[k],
                ))
            ||| whole.len() > 0 && (text::occurs_in(whole, normalized(memory.title))
                || text::occurs_in(whole, normalized(memory.content)))
        },
{
    let title = normalized(memory.title);
    let content = normalized(memory.content);
    lemma_mention_counts(query, title, content, 0);
    if exists|k: int|
        #![trigger query[k]]
        0 <= k < query.len() && (mentions(memory.title, query[k]) || mentions(
            memory.content,
            query[k],
        )) {
        let k = choose|k: int|
            #![trigger query[k]]
            0 <= k < query.len() && (mentions(memory.title, query[k]) || mentions(
                memory.content,
                query[k],
            ));
        lemma_mention_counts(query, title, content, k);
    } else {
        lemma_no_mention(query, title, content);
    }
}

/// Recall is complete: a memory that applies where the search is made and that
/// mentions a word of the query is found, unless as many others as a search
/// gives back come before it: by a higher score, by a later change, or by a
/// smaller identifier.
pub proof fn law_recall_is_complete(
    memories: Seq<MemoryModel>,
    query: Seq<char>,
    directory: Option<Seq<char>>,
    i: int,
    k: int,
)
    requires
        0 <= i < memories.len(),
        memories[i].scope matches LocalMemoryScope::Project { root } ==> directory matches Some(
            inside,
        ) && paths::is_within(inside, root),
        0 <= k < query_tokens_of(query).len(),
        mentions(memories[i].title, query_tokens_of(query)[k]) || mentions(
            memories[i].content,
            query_tokens_of(query)[k],
        ),
    ensures
        ({
            let words = query_tokens_of(query);
            let whole = normalized(query);
            let hits = found(memories, query, directory);
            &&& hits.len() <= 8
            &&& hits.contains(memories[i]) || (hits.len() == 8 && forall|j: int|
                0 <= j < 8 ==> {
                    let ahead = memory_score(words, whole, #[trigger] hits[j]);
                    let behind = memory_score(words, whole, memories[i]);
                    ahead > behind || (ahead == behind && (hits[j].updated_at
                        > memories[i].updated_at || (hits[j].updated_at == memories[i].updated_at
                        && hits[j].id <= memories[i].id)))
                })
            &&& memories.to_multiset().filter(eligible(words, whole, directory)).len() <= 8
                ==> hits.contains(memories[i])
        }),
{
    broadcast use vstd::seq_lib::group_to_multiset_ensures;

    let words = query_tokens_of(query);
    let whole = normalized(query);
    let keep = eligible(words, whole, directory);
    let rank = search_order(words, whole);
    let all = listed(memories);
    let matching = all.filter(keep);
    let ranked = order::sorted_by(matching, rank);
    let hits = found(memories, query, directory);
    let x = memories[i];
    law_score_tells_what_bears_on_a_query(words, whole, x);
    assert(mentions(x.title, words[k]) || mentions(x.content, words[k]));
    assert(keep(x));
    order::lemma_sorted_by_permutes(memories, list_order());
    order::lemma_sorted_by_permutes(matching, rank);
    assert(memories.contains(x));
    assert(memories.to_multiset().count(x) > 0);
    assert(all.contains(x));
    lemma_filter_multiset(all, keep);
    assert(matching.to_multiset().count(x) > 0);
    assert(ranked.to_multiset().count(x) > 0);
    assert(ranked.contains(x));
    let at = choose|at: int| 0 <= at < ranked.len() && ranked[at] == x;
    lemma_search_preorder(words, whole);
    order::lemma_sorted_by_in_order(matching, rank);
    if at < hits.len() {
        assert(hits[at] == x);
    } else {
        assert forall|j: int| 0 <= j < 8 implies rank(#[trigger] hits[j], x) by {
            assert(hits[j] == ranked[j]);
            assert(ranked[at] == x);
        }
    }
    if memories.to_multiset().filter(keep).len() <= 8 {
        assert(matching.to_multiset().len() == matching.len());
        assert(hits == ranked);
    }
}

proof fn lemma_filter_multiset(s: Seq<MemoryModel>, keep: spec_fn(MemoryModel) -> bool)
    ensures
        s.filter(keep).to_multiset() == s.to_multiset().filter(keep),
    decreases s.len(),
{
    broadcast use vstd::seq_lib::group_to_multiset_ensures;

    reveal(Seq::filter);
    if s.len() > 0 {
        let init = s.drop_last();
        lemma_filter_multiset(init, keep);
        assert(s =~= init.push(s.last()));
        assert(s.filter(keep).to_multiset() =~= s.to_multiset().filter(keep));
    } else {
        assert(s.filter(keep).to_multiset() =~= s.to_multiset().filter(keep));
    }
}

/// The memories that apply are those for everywhere, and those of a project
/// around the directory.
pub proof fn law_scopes(root: Seq<char>, directory: Seq<char>)
    ensures
        applies(LocalMemoryScope::Global, None),
        applies(LocalMemoryScope::Global, Some(directory)),
        !applies(LocalMemoryScope::Project { root }, None),
        applies(LocalMemoryScope::Project { root }, Some(directory)) <==> paths::is_within(
            directory,
            root,
        ),
{
}

/// The words of a query that count are words of it, none twice; where there are
/// at most 32 of them they all count.
pub proof fn law_query_words(query: Seq<char>)
    ensures
        ({
            let words = query_tokens_of(query);
            let all = tokens::lexemes(normalized(query));
            &&& words.len() <= 32
            &&& words.no_duplicates()
            &&& forall|word: Seq<char>| #[trigger] words.contains(word) ==> all.contains(word)
            &&& words.len() < 32 ==> forall|word: Seq<char>| #[trigger]
                all.contains(word) ==> words.contains(word)
        }),
{
    let words = query_tokens_of(query);
    let all = tokens::lexemes(normalized(query));
    let once = tokens::distinct(all);
    tokens::law_distinct_texts(all);
    assert forall|word: Seq<char>| #[trigger] words.contains(word) implies all.contains(word) by {
        let k = choose|k: int| 0 <= k < words.len() && words[k] == word;
        assert(once[k] == word);
        assert(once.contains(word));
    }
}

// ---------------------------------------------------------------------------
// What the store promises.

/// A title and a content can be stored where both say something and neither is
/// too long, without the white space around them.
pub proof fn law_storable_texts(title: Seq<char>, content: Seq<char>)
    ensures
        text_problem(title, content) is None <==> !text::is_blank(title) && !text::is_blank(content)
            && text::trimmed(title).len() <= 160 && text::trimmed(content).len() <= 16_000,
        text::is_blank(title) ==> text_problem(title, content) == Some(
            LocalMemoryError::<Seq<char>>::EmptyTitle,
        ),
        !text::is_blank(title) && text::is_blank(content) ==> text_problem(title, content) == Some(
            LocalMemoryError::<Seq<char>>::EmptyContent,
        ),
{
    text::lemma_trimmed_empty(title);
    text::lemma_trimmed_empty(content);
}

/// A memory is created as it was given, as its first revision, wherever there
/// is room and its identifier is free; the memories that are there stay.
pub proof fn law_memory_is_created_as_given(
    m: StoreModel,
    scope: ScopeModel,
    resolved: Option<Seq<char>>,
    title: Seq<char>,
    content: Seq<char>,
    id: u128,
    now: i64,
    other: u128,
)
    requires
        other != id,
    ensures
        (scope is Project ==> resolved is Some) && text_problem(title, content) is None
            && m.memories.len() < 1_024 && memory_of(m.memories, id) is None && !has_history(
            m.versions,
            id,
        ) <==> m.create_problem(scope, resolved, title, content, id) is None,
        m.create_problem(scope, resolved, title, content, id) is None ==> {
            let memory = StoreModel::new_memory(scope, resolved, title, content, id, now);
            let after = m.with_created(memory);
            &&& memory.id == id
            &&& memory.title == text::trimmed(title)
            &&& memory.content == text::trimmed(content)
            &&& memory.revision == 1
            &&& memory.created_at == now
            &&& memory.updated_at == now
            &&& scope is Global ==> memory.scope is Global
            &&& scope is Project ==> memory.scope == (LocalMemoryScope::Project {
                root: resolved->0,
            })
            &&& memory_of(after.memories, id) == Some(memory)
            &&& memory_of(after.memories, other) == memory_of(m.memories, other)
            &&& after.memories.len() == m.memories.len() + 1
            &&& after.versions.last().memory_id == id
            &&& after.versions.last().operation is Created
            &&& after.versions.last().revision == 1
            &&& after.versions.last().title == memory.title
            &&& after.versions.last().content == memory.content
            &&& after.versions.last().scope == memory.scope
            &&& after.versions.last().recorded_at == now
        },
{
    if m.create_problem(scope, resolved, title, content, id) is None {
        let memory = StoreModel::new_memory(scope, resolved, title, content, id, now);
        law_created_memory_is_found(m, memory);
        lemma_pushed_memory(m.memories, memory, other, 0);
    }
}

proof fn lemma_pushed_memory(
    memories: Seq<MemoryModel>,
    memory: MemoryModel,
    other: u128,
    from: int,
)
    requires
        0 <= from <= memories.len(),
        memory.id != other,
    ensures
        ({
            let a = memory_at(memories, other, from);
            let b = memory_at(memories.push(memory), other, from);
            if a < memories.len() {
                b == a && memories.push(memory)[b] == memories[a]
            } else {
                b == memories.len() + 1
            }
        }),
    decreases memories.len() - from,
{
    lemma_memory_at(memories, other, from);
    if from < memories.len() {
        assert(memories.push(memory)[from] == memories[from]);
        if memories[from].id != other {
            lemma_pushed_memory(memories, memory, other, from + 1);
        }
    } else {
        assert(memories.push(memory)[from] == memory);
        assert(memory_at(memories.push(memory), other, from + 1) == memories.len() + 1);
    }
}

/// An update keeps the identity and the time of creation of a memory, gives it
/// the next revision, and records what it now says; it is refused where the
/// expected revision is not the current one.
pub proof fn law_memory_is_updated_as_given(
    m: StoreModel,
    id: u128,
    expected: i64,
    scope: ScopeModel,
    resolved: Option<Seq<char>>,
    title: Seq<char>,
    content: Seq<char>,
    now: i64,
)
    requires
        m.valid(),
        memory_of(m.memories, id) is Some,
    ensures
        m.update_problem(id, expected, scope, resolved, title, content) is None <==> (
        scope is Project ==> resolved is Some) && text_problem(title, content) is None
            && memory_of(m.memories, id)->0.revision == expected && expected < i64::MAX,
        m.update_problem(id, expected, scope, resolved, title, content) is None ==> {
            let memory = m.updated_memory(id, scope, resolved, title, content, now);
            let after = m.with_updated(memory);
            let current = memory_of(m.memories, id)->0;
            &&& memory.id == id
            &&& memory.title == text::trimmed(title)
            &&& memory.content == text::trimmed(content)
            &&& memory.revision == expected + 1
            &&& memory.created_at == current.created_at
            &&& memory.updated_at == now
            &&& scope is Global ==> memory.scope is Global
            &&& scope is Project ==> memory.scope == (LocalMemoryScope::Project {
                root: resolved->0,
            })
            &&& memory_of(after.memories, id) == Some(memory)
            &&& after.memories.len() == m.memories.len()
            &&& after.versions.last().memory_id == id
            &&& after.versions.last().operation is Updated
            &&& after.versions.last().revision == expected + 1
            &&& after.versions.last().title == memory.title
            &&& after.versions.last().content == memory.content
            &&& after.versions.last().scope == memory.scope
            &&& after.versions.last().recorded_at == now
        },
{
    lemma_memory_at(m.memories, id, 0);
    if m.update_problem(id, expected, scope, resolved, title, content) is None {
        let memory = m.updated_memory(id, scope, resolved, title, content, now);
        let other = if id == 0 {
            1u128
        } else {
            0u128
        };
        law_updated_memory_is_found(m, memory, other);
    }
}

/// A deletion takes away one memory and no other, and records what it last
/// said under the next revision.
pub proof fn law_deletion_takes_one_memory(m: StoreModel, id: u128, now: i64, other: u128)
    requires
        m.valid(),
        memory_of(m.memories, id) is Some,
        memory_of(m.memories, id)->0.revision < i64::MAX,
        other != id,
    ensures
        ({
            let after = m.with_deleted(id, now);
            let current = memory_of(m.memories, id)->0;
            &&& memory_of(after.memories, id) is None
            &&& memory_of(after.memories, other) == memory_of(m.memories, other)
            &&& after.memories.len() + 1 == m.memories.len()
            &&& after.versions.last().revision == current.revision + 1
            &&& after.versions.last().title == current.title
            &&& after.versions.last().content == current.content
            &&& after.versions.last().scope == current.scope
            &&& after.versions.last().recorded_at == now
        }),
{
    law_deleted_memory_is_gone(m, id, now);
    lemma_memory_at(m.memories, id, 0);
    lemma_memory_at(m.memories, other, 0);
    let after = m.with_deleted(id, now);
    lemma_memory_at(after.memories, other, 0);
    let gone = memory_at(m.memories, id, 0);
    let a = memory_at(m.memories, other, 0);
    let b = memory_at(after.memories, other, 0);
    if a < m.memories.len() {
        let moved = if a < gone {
            a
        } else {
            a - 1
        };
        assert(after.memories[moved] == m.memories[a]);
        assert(b <= moved);
    }
    if b < after.memories.len() {
        let back = if b < gone {
            b
        } else {
            b + 1
        };
        assert(after.memories[b] == m.memories[back]);
        assert(a <= back);
    }
}

/// A list holds every memory once, the one that was changed last first.
pub proof fn law_list_is_newest_first(memories: Seq<MemoryModel>, i: int, j: int)
    ensures
        listed(memories).to_multiset() == memories.to_multiset(),
        0 <= i < j < memories.len() ==> listed(memories)[i].updated_at
            >= listed(memories)[j].updated_at,
{
    order::lemma_sorted_by_permutes(memories, list_order());
    lemma_list_preorder();
    order::lemma_sorted_by_in_order(memories, list_order());
    if 0 <= i < j < memories.len() {
        assert(list_order()(listed(memories)[i], listed(memories)[j]));
    }
}

proof fn lemma_list_preorder()
    ensures
        order::is_preorder(list_order()),
{
    let at_most = list_order();
    assert forall|a: MemoryModel, b: MemoryModel| #[trigger] at_most(a, b) || at_most(b, a) by {
        text::lemma_text_total(ids::hyphenated(a.id), ids::hyphenated(b.id));
    }
    assert forall|a: MemoryModel, b: MemoryModel, c: MemoryModel|
        #![trigger at_most(a, b), at_most(b, c)]
        at_most(a, b) && at_most(b, c) implies at_most(a, c) by {
        if a.updated_at == b.updated_at && b.updated_at == c.updated_at {
            text::lemma_text_transitive(
                ids::hyphenated(a.id),
                ids::hyphenated(b.id),
                ids::hyphenated(c.id),
            );
        }
    }
}

/// The history of a memory holds every version of it and no other, in the order
/// of the revisions.
pub proof fn law_history_is_in_order(versions: Seq<VersionModel>, id: u128, i: int, j: int)
    ensures
        history_of(versions, id).to_multiset() == versions.to_multiset().filter(
            |version: VersionModel| version.memory_id == id,
        ),
        0 <= i < j < history_of(versions, id).len() ==> history_of(versions, id)[i].revision
            <= history_of(versions, id)[j].revision,
{
    let keep = versions_for(id);
    order::lemma_sorted_by_permutes(versions.filter(keep), revision_order());
    assert(order::is_preorder(revision_order()));
    order::lemma_sorted_by_in_order(versions.filter(keep), revision_order());
    lemma_filter_versions(versions, keep);
    assert(versions.to_multiset().filter(keep) =~= versions.to_multiset().filter(
        |version: VersionModel| version.memory_id == id,
    ));
    if 0 <= i < j < history_of(versions, id).len() {
        assert(revision_order()(history_of(versions, id)[i], history_of(versions, id)[j]));
    }
}

proof fn lemma_filter_versions(s: Seq<VersionModel>, keep: spec_fn(VersionModel) -> bool)
    ensures
        s.filter(keep).to_multiset() == s.to_multiset().filter(keep),
    decreases s.len(),
{
    broadcast use vstd::seq_lib::group_to_multiset_ensures;

    reveal(Seq::filter);
    if s.len() > 0 {
        let init = s.drop_last();
        lemma_filter_versions(init, keep);
        assert(s =~= init.push(s.last()));
        assert(s.filter(keep).to_multiset() =~= s.to_multiset().filter(keep));
    } else {
        assert(s.filter(keep).to_multiset() =~= s.to_multiset().filter(keep));
    }
}

/// A stored memory is read exactly where its identifier, its revision and its
/// scope are sound, and each of its fields is what it holds.
pub proof fn law_stored_memories(
    row: StoredMemoryRow,
    id: Result<u128, Seq<char>>,
    memory: LocalMemoryRecord,
)
    ensures
        memory_outcome(row, id) is Ok <==> id is Ok && row.revision >= 1 && scope_of(
            row.scope_kind@,
            row.scope_key@,
        ) is Ok,
        memory_outcome(row, id) == Ok::<MemoryModel, ErrorModel>(memory@) ==> {
            &&& memory.id == id->Ok_0
            &&& memory.scope@ == scope_of(row.scope_kind@, row.scope_key@)->Ok_0
            &&& memory.title@ == row.title@
            &&& memory.content@ == row.content@
            &&& memory.revision == row.revision
            &&& memory.created_at == row.created_at
            &&& memory.updated_at == row.updated_at
        },
{
}

/// A stored version is read exactly where its identifier, its operation and its
/// scope are sound, and each of its fields is what it holds.
pub proof fn law_stored_versions(
    row: StoredVersionRow,
    id: Result<u128, Seq<char>>,
    version: LocalMemoryVersion,
)
    ensures
        version_outcome(row, id) is Ok <==> id is Ok && (row.operation@ == "created"@
            || row.operation@ == "updated"@ || row.operation@ == "deleted"@) && scope_of(
            row.scope_kind@,
            row.scope_key@,
        ) is Ok,
        version_outcome(row, id) == Ok::<VersionModel, ErrorModel>(version@) ==> {
            &&& version.memory_id == id->Ok_0
            &&& version.revision == row.revision
            &&& row.operation@ == "created"@ ==> version.operation is Created
            &&& row.operation@ == "updated"@ && row.operation@ != "created"@
                ==> version.operation is Updated
            &&& row.operation@ == "deleted"@ && row.operation@ != "created"@ && row.operation@
                != "updated"@ ==> version.operation is Deleted
            &&& version.scope@ == scope_of(row.scope_kind@, row.scope_key@)->Ok_0
            &&& version.title@ == row.title@
            &&& version.content@ == row.content@
            &&& version.recorded_at == row.recorded_at
        },
{
}

/// The name of an operation reads back as the operation.
pub proof fn law_operations_read_back(operation: LocalMemoryOperation)
    ensures
        operation_of(operation_name(operation)) == Some(operation),
        operation is Created ==> operation_name(operation) == "created"@,
        operation is Updated ==> operation_name(operation) == "updated"@,
        operation is Deleted ==> operation_name(operation) == "deleted"@,
{
    reveal_strlit("created");
    reveal_strlit("updated");
    reveal_strlit("deleted");
    assert("created"@[0] == 'c' && "updated"@[0] == 'u' && "deleted"@[0] == 'd');
}

} // verus!
