//! Files and screenshots that the agents keep: what is recorded of them, who
//! owns them, and how one is taken in.

use crate::digest;
use crate::ids;
use crate::order;
use crate::order::Ordered;
use crate::paths;
use crate::text;
use vstd::prelude::*;

verus! {

/// The directory of the artifacts beside the database.
pub const LOCAL_ARTIFACT_DIRECTORY: &'static str = "local-artifacts";

/// The largest artifact, in bytes.
pub const MAX_ARTIFACT_BYTES: u64 = 268_435_456;

/// The longest description, in characters.
pub const MAX_DESCRIPTION_CHARS: usize = 2_000;

/// The longest kind or identifier of an owner, in characters.
pub const MAX_OWNER_FIELD_CHARS: usize = 256;

/// What an artifact is.
#[derive(Clone, Copy, Debug, PartialEq, Eq, Structural)]
pub enum LocalArtifactKind {
    File,
    Screenshot,
}

pub open spec fn kind_text(kind: LocalArtifactKind) -> Seq<char> {
    match kind {
        LocalArtifactKind::File => "file"@,
        LocalArtifactKind::Screenshot => "screenshot"@,
    }
}

impl LocalArtifactKind {
    pub fn as_str(self) -> (r: &'static str)
        ensures
            r@ == kind_text(self),
    {
        match self {
            LocalArtifactKind::File => "file",
            LocalArtifactKind::Screenshot => "screenshot",
        }
    }
}

/// Who an artifact is kept for.
#[derive(Debug, PartialEq, Eq)]
pub struct LocalArtifactOwner<S = String> {
    pub kind: S,
    pub id: S,
}

pub type OwnerModel = LocalArtifactOwner<Seq<char>>;

impl View for LocalArtifactOwner<String> {
    type V = OwnerModel;

    open spec fn view(&self) -> OwnerModel {
        LocalArtifactOwner { kind: self.kind@, id: self.id@ }
    }
}

impl Clone for LocalArtifactOwner<String> {
    fn clone(&self) -> (r: Self)
        ensures
            r@ == self@,
    {
        LocalArtifactOwner { kind: self.kind.clone(), id: self.id.clone() }
    }
}

impl LocalArtifactOwner {
    pub fn conversation(id: &str) -> (r: Self)
        ensures
            r@ == (LocalArtifactOwner { kind: "conversation"@, id: id@ }),
    {
        LocalArtifactOwner { kind: "conversation".to_owned(), id: id.to_owned() }
    }

    pub fn manual(id: &str) -> (r: Self)
        ensures
            r@ == (LocalArtifactOwner { kind: "manual"@, id: id@ }),
    {
        LocalArtifactOwner { kind: "manual".to_owned(), id: id.to_owned() }
    }

    /// Whether two owners are the same.
    pub fn same(&self, other: &LocalArtifactOwner) -> (r: bool)
        ensures
            r == (self@ == other@),
    {
        text::same_text(self.kind.as_str(), other.kind.as_str()) && text::same_text(
            self.id.as_str(),
            other.id.as_str(),
        )
    }
}

impl Ordered for LocalArtifactOwner<String> {
    /// By kind, then by identifier.
    open spec fn at_most(&self, other: &Self) -> bool {
        if self@.kind == other@.kind {
            text::text_at_most(self@.id, other@.id)
        } else {
            text::text_at_most(self@.kind, other@.kind)
        }
    }

    proof fn order_total(a: &Self, b: &Self) {
        text::lemma_text_total(a@.kind, b@.kind);
        text::lemma_text_total(a@.id, b@.id);
    }

    proof fn order_transitive(a: &Self, b: &Self, c: &Self) {
        let x = a@.kind;
        let y = b@.kind;
        let z = c@.kind;
        if x == y && y == z {
            text::lemma_text_transitive(a@.id, b@.id, c@.id);
        } else if x != y && y != z {
            text::lemma_text_transitive(x, y, z);
            if x == z {
                text::lemma_text_antisymmetric(x, y);
            }
        }
    }

    fn is_at_most(&self, other: &Self) -> (r: bool) {
        if text::same_text(self.kind.as_str(), other.kind.as_str()) {
            text::is_text_at_most(self.id.as_str(), other.id.as_str())
        } else {
            text::is_text_at_most(self.kind.as_str(), other.kind.as_str())
        }
    }
}

/// Why an artifact cannot be kept or found.
#[derive(Debug)]
pub enum LocalArtifactError<S = String> {
    InvalidSource(S),
    EmptySource,
    TooLarge,
    DescriptionTooLong,
    InvalidOwner,
    NotFound(u128),
    UnsafeManagedPath,
    ChecksumMismatch { artifact_uid: u128 },
    Corrupt(S),
    Storage(S),
}

pub type ErrorModel = LocalArtifactError<Seq<char>>;

impl View for LocalArtifactError<String> {
    type V = ErrorModel;

    open spec fn view(&self) -> ErrorModel {
        match self {
            LocalArtifactError::InvalidSource(path) => LocalArtifactError::InvalidSource(path@),
            LocalArtifactError::EmptySource => LocalArtifactError::EmptySource,
            LocalArtifactError::TooLarge => LocalArtifactError::TooLarge,
            LocalArtifactError::DescriptionTooLong => LocalArtifactError::DescriptionTooLong,
            LocalArtifactError::InvalidOwner => LocalArtifactError::InvalidOwner,
            LocalArtifactError::NotFound(uid) => LocalArtifactError::NotFound(*uid),
            LocalArtifactError::UnsafeManagedPath => LocalArtifactError::UnsafeManagedPath,
            LocalArtifactError::ChecksumMismatch { artifact_uid } =>
                LocalArtifactError::ChecksumMismatch { artifact_uid: *artifact_uid },
            LocalArtifactError::Corrupt(message) => LocalArtifactError::Corrupt(message@),
            LocalArtifactError::Storage(message) => LocalArtifactError::Storage(message@),
        }
    }
}

/// The text of an error.
pub open spec fn error_text(error: ErrorModel) -> Seq<char> {
    match error {
        LocalArtifactError::InvalidSource(path) =>
            "artifact source does not exist or is not a regular file: "@ + path,
        LocalArtifactError::EmptySource => "artifact source is empty"@,
        LocalArtifactError::TooLarge => "artifact exceeds the local 268435456 byte limit"@,
        LocalArtifactError::DescriptionTooLong => "artifact description exceeds 2000 characters"@,
        LocalArtifactError::InvalidOwner =>
            "artifact owner kind and id must be non-empty and at most 256 characters"@,
        LocalArtifactError::NotFound(uid) => "local artifact "@ + ids::hyphenated(uid)
            + " was not found"@,
        LocalArtifactError::UnsafeManagedPath =>
            "local artifact path escaped the managed artifact directory"@,
        LocalArtifactError::ChecksumMismatch { artifact_uid } => "local artifact "@
            + ids::hyphenated(artifact_uid) + " failed checksum verification"@,
        LocalArtifactError::Corrupt(message) => "invalid local artifact row: "@ + message,
        LocalArtifactError::Storage(message) => "local artifact storage error: "@ + message,
    }
}

impl LocalArtifactError {
    /// The text of the error.
    pub fn message(&self) -> (r: String)
        ensures
            r@ == error_text(self@),
    {
        match self {
            LocalArtifactError::InvalidSource(path) => text::joined(
                "artifact source does not exist or is not a regular file: ",
                path.as_str(),
            ),
            LocalArtifactError::EmptySource => "artifact source is empty".to_owned(),
            LocalArtifactError::TooLarge =>
                "artifact exceeds the local 268435456 byte limit".to_owned(),
            LocalArtifactError::DescriptionTooLong =>
                "artifact description exceeds 2000 characters".to_owned(),
            LocalArtifactError::InvalidOwner =>
                "artifact owner kind and id must be non-empty and at most 256 characters".to_owned(),
            LocalArtifactError::NotFound(uid) => text::concat3(
                "local artifact ",
                ids::uuid_text(*uid).as_str(),
                " was not found",
            ),
            LocalArtifactError::UnsafeManagedPath =>
                "local artifact path escaped the managed artifact directory".to_owned(),
            LocalArtifactError::ChecksumMismatch { artifact_uid } => text::concat3(
                "local artifact ",
                ids::uuid_text(*artifact_uid).as_str(),
                " failed checksum verification",
            ),
            LocalArtifactError::Corrupt(message) => text::joined(
                "invalid local artifact row: ",
                message.as_str(),
            ),
            LocalArtifactError::Storage(message) => text::joined(
                "local artifact storage error: ",
                message.as_str(),
            ),
        }
    }
}

// ---------------------------------------------------------------------------
// What is checked.

/// Whether a text can be the kind or the identifier of an owner.
pub open spec fn owner_field_ok(value: Seq<char>) -> bool {
    let v = text::trimmed(value);
    &&& v.len() > 0
    &&& v.len() <= MAX_OWNER_FIELD_CHARS
    &&& forall|i: int| 0 <= i < v.len() ==> !text::is_control_code(#[trigger] v[i])
}

pub open spec fn owner_ok(owner: OwnerModel) -> bool {
    owner_field_ok(owner.kind) && owner_field_ok(owner.id)
}

fn check_owner_field(value: &str) -> (r: bool)
    ensures
        r == owner_field_ok(value@),
{
    let v = text::chars_of(text::trim(value).as_str());
    if v.len() == 0 || v.len() > MAX_OWNER_FIELD_CHARS {
        return false;
    }
    let mut i: usize = 0;
    while i < v.len()
        invariant
            i <= v.len(),
            v@ == text::trimmed(value@),
            forall|j: int| 0 <= j < i ==> !text::is_control_code(#[trigger] v@[j]),
        decreases v.len() - i,
    {
        if v[i].is_control() {
            return false;
        }
        i += 1;
    }
    true
}

pub fn validate_owner(owner: &LocalArtifactOwner) -> (r: Result<(), LocalArtifactError>)
    ensures
        match r {
            Ok(_) => owner_ok(owner@),
            Err(e) => !owner_ok(owner@) && e@ is InvalidOwner,
        },
{
    if check_owner_field(owner.kind.as_str()) && check_owner_field(owner.id.as_str()) {
        Ok(())
    } else {
        Err(LocalArtifactError::InvalidOwner)
    }
}

/// A description without surrounding white space, unless nothing is left.
pub open spec fn normal_description(description: Option<Seq<char>>) -> Option<Seq<char>> {
    match description {
        Some(d) => if text::trimmed(d).len() == 0 {
            None
        } else {
            Some(text::trimmed(d))
        },
        None => None,
    }
}

pub open spec fn description_ok(description: Option<Seq<char>>) -> bool {
    match normal_description(description) {
        Some(d) => d.len() <= MAX_DESCRIPTION_CHARS,
        None => true,
    }
}

pub fn normalize_description(description: Option<String>) -> (r: Result<
    Option<String>,
    LocalArtifactError,
>)
    ensures
        match r {
            Ok(d) => description_ok(text::text_opt(description)) && text::text_opt(d)
                == normal_description(text::text_opt(description)),
            Err(e) => !description_ok(text::text_opt(description)) && e@ is DescriptionTooLong,
        },
{
    match description {
        None => Ok(None),
        Some(d) => {
            let d = text::trim(d.as_str());
            if d.as_str().is_empty() {
                return Ok(None);
            }
            if text::char_count(d.as_str()) > MAX_DESCRIPTION_CHARS {
                return Err(LocalArtifactError::DescriptionTooLong);
            }
            Ok(Some(d))
        },
    }
}

/// The extension that a kept file gets: that of its source in small letters, if
/// it is short and plain.
pub open spec fn kept_extension(path: Seq<char>) -> Option<Seq<char>> {
    match paths::extension(path) {
        Some(e) => if 0 < e.len() <= 16 && forall|i: int|
            0 <= i < e.len() ==> text::is_ascii_alnum(#[trigger] e[i]) {
            Some(text::ascii_lowered(e))
        } else {
            None
        },
        None => None,
    }
}

pub fn safe_extension(path: &str) -> (r: Option<String>)
    ensures
        text::text_opt(r) == kept_extension(path@),
{
    let extension = match paths::path_extension(path) {
        Some(extension) => extension,
        None => {
            return None;
        },
    };
    let chars = text::chars_of(extension.as_str());
    if chars.len() == 0 || chars.len() > 16 {
        return None;
    }
    let ghost e = chars@;
    let mut i: usize = 0;
    while i < chars.len()
        invariant
            i <= chars.len(),
            e == chars@,
            paths::extension(path@) == Some(e),
            0 < e.len() <= 16,
            forall|j: int| 0 <= j < i ==> text::is_ascii_alnum(#[trigger] e[j]),
        decreases chars.len() - i,
    {
        if !text::ascii_alnum(chars[i]) {
            assert(!text::is_ascii_alnum(e[i as int]));
            return None;
        }
        i += 1;
    }
    Some(text::ascii_lowercase(extension.as_str()))
}

// ---------------------------------------------------------------------------
// Records.

/// What is recorded of an artifact, apart from its owners.
pub struct ArtifactRow<S = String> {
    pub artifact_uid: u128,
    pub kind: LocalArtifactKind,
    pub local_path: S,
    pub source_path: S,
    pub filename: S,
    pub mime_type: S,
    pub checksum_sha256: S,
    pub size_bytes: i64,
    pub description: Option<S>,
    pub created_at: i64,
}

pub type RowModel = ArtifactRow<Seq<char>>;

impl View for ArtifactRow<String> {
    type V = RowModel;

    open spec fn view(&self) -> RowModel {
        ArtifactRow {
            artifact_uid: self.artifact_uid,
            kind: self.kind,
            local_path: self.local_path@,
            source_path: self.source_path@,
            filename: self.filename@,
            mime_type: self.mime_type@,
            checksum_sha256: self.checksum_sha256@,
            size_bytes: self.size_bytes,
            description: text::text_opt(self.description),
            created_at: self.created_at,
        }
    }
}

impl Clone for ArtifactRow<String> {
    fn clone(&self) -> (r: Self)
        ensures
            r@ == self@,
    {
        ArtifactRow {
            artifact_uid: self.artifact_uid,
            kind: self.kind,
            local_path: self.local_path.clone(),
            source_path: self.source_path.clone(),
            filename: self.filename.clone(),
            mime_type: self.mime_type.clone(),
            checksum_sha256: self.checksum_sha256.clone(),
            size_bytes: self.size_bytes,
            description: text::clone_opt(&self.description),
            created_at: self.created_at,
        }
    }
}

impl Ordered for ArtifactRow<String> {
    /// The most recent first, then by identifier.
    open spec fn at_most(&self, other: &Self) -> bool {
        row_at_most(self@, other@)
    }

    proof fn order_total(a: &Self, b: &Self) {
        text::lemma_text_total(
            ids::hyphenated(a@.artifact_uid),
            ids::hyphenated(b@.artifact_uid),
        );
    }

    proof fn order_transitive(a: &Self, b: &Self, c: &Self) {
        if a@.created_at == b@.created_at && b@.created_at == c@.created_at {
            text::lemma_text_transitive(
                ids::hyphenated(a@.artifact_uid),
                ids::hyphenated(b@.artifact_uid),
                ids::hyphenated(c@.artifact_uid),
            );
        }
    }

    fn is_at_most(&self, other: &Self) -> (r: bool) {
        if self.created_at == other.created_at {
            text::is_text_at_most(
                ids::uuid_text(self.artifact_uid).as_str(),
                ids::uuid_text(other.artifact_uid).as_str(),
            )
        } else {
            self.created_at > other.created_at
        }
    }
}

/// An artifact with its owners.
#[derive(Clone, Debug, PartialEq, Eq)]
pub struct LocalArtifactRecord {
    pub artifact_uid: u128,
    pub kind: LocalArtifactKind,
    pub local_path: String,
    pub source_path: String,
    pub filename: String,
    pub mime_type: String,
    pub checksum_sha256: String,
    pub size_bytes: i64,
    pub description: Option<String>,
    pub created_at: i64,
    pub owners: Vec<LocalArtifactOwner>,
}

impl LocalArtifactRecord {
    /// What the record says apart from the owners.
    pub open spec fn row(&self) -> RowModel {
        ArtifactRow {
            artifact_uid: self.artifact_uid,
            kind: self.kind,
            local_path: self.local_path@,
            source_path: self.source_path@,
            filename: self.filename@,
            mime_type: self.mime_type@,
            checksum_sha256: self.checksum_sha256@,
            size_bytes: self.size_bytes,
            description: text::text_opt(self.description),
            created_at: self.created_at,
        }
    }

    fn of_row(row: ArtifactRow, owners: Vec<LocalArtifactOwner>) -> (r: Self)
        ensures
            r.row() == row@,
            r.owners == owners,
    {
        LocalArtifactRecord {
            artifact_uid: row.artifact_uid,
            kind: row.kind,
            local_path: row.local_path,
            source_path: row.source_path,
            filename: row.filename,
            mime_type: row.mime_type,
            checksum_sha256: row.checksum_sha256,
            size_bytes: row.size_bytes,
            description: row.description,
            created_at: row.created_at,
            owners,
        }
    }
}

pub open spec fn owner_models(v: Seq<LocalArtifactOwner>) -> Seq<OwnerModel> {
    Seq::new(v.len(), |i: int| v[i]@)
}

/// A row as the database holds it.
pub struct StoredArtifactRow {
    pub artifact_uid: String,
    pub kind: String,
    pub local_path: String,
    pub source_path: String,
    pub filename: String,
    pub mime_type: String,
    pub checksum_sha256: String,
    pub size_bytes: i64,
    pub description: Option<String>,
    pub created_at: i64,
}

pub open spec fn is_hex_digit(c: char) -> bool {
    ||| '0' <= c <= '9'
    ||| 'a' <= c <= 'f'
    ||| 'A' <= c <= 'F'
}

/// Whether a text can be a SHA-256 digest in hexadecimal digits.
pub open spec fn is_checksum(s: Seq<char>) -> bool {
    s.len() == 64 && forall|i: int| 0 <= i < s.len() ==> is_hex_digit(#[trigger] s[i])
}

fn check_checksum(s: &str) -> (r: bool)
    ensures
        r == is_checksum(s@),
{
    let chars = text::chars_of(s);
    if chars.len() != 64 {
        return false;
    }
    let mut i: usize = 0;
    while i < chars.len()
        invariant
            i <= chars.len(),
            chars@ == s@,
            forall|j: int| 0 <= j < i ==> is_hex_digit(#[trigger] s@[j]),
        decreases chars.len() - i,
    {
        let c = chars[i];
        if !(('0' <= c && c <= '9') || ('a' <= c && c <= 'f') || ('A' <= c && c <= 'F')) {
            assert(!is_hex_digit(s@[i as int]));
            return false;
        }
        i += 1;
    }
    true
}

/// What a row of the database says, or why it is corrupt, where `uid` is what
/// its identifier says.
pub open spec fn row_outcome(row: StoredArtifactRow, uid: Result<u128, Seq<char>>) -> Result<
    RowModel,
    ErrorModel,
> {
    if uid is Err {
        Err(LocalArtifactError::Corrupt("invalid uid: "@ + uid->Err_0))
    } else if row.kind@ != "file"@ && row.kind@ != "screenshot"@ {
        Err(LocalArtifactError::Corrupt("invalid artifact kind "@ + row.kind@))
    } else if row.size_bytes < 1 || !is_checksum(row.checksum_sha256@) {
        Err(LocalArtifactError::Corrupt("invalid size or checksum"@))
    } else {
        Ok(
            ArtifactRow {
                artifact_uid: uid->Ok_0,
                kind: if row.kind@ == "file"@ {
                    LocalArtifactKind::File
                } else {
                    LocalArtifactKind::Screenshot
                },
                local_path: row.local_path@,
                source_path: row.source_path@,
                filename: row.filename@,
                mime_type: row.mime_type@,
                checksum_sha256: row.checksum_sha256@,
                size_bytes: row.size_bytes,
                description: text::text_opt(row.description),
                created_at: row.created_at,
            },
        )
    }
}

/// Whether a result is what a row was found to say.
pub open spec fn row_result(r: Result<ArtifactRow, LocalArtifactError>) -> Result<
    RowModel,
    ErrorModel,
> {
    match r {
        Ok(row) => Ok(row@),
        Err(e) => Err(e@),
    }
}

/// Takes a row from the database, where `uid` is what its identifier says.
pub fn artifact_from_row_as(row: StoredArtifactRow, uid: Result<u128, String>) -> (r: Result<
    ArtifactRow,
    LocalArtifactError,
>)
    ensures
        row_result(r) == row_outcome(row, ids::uuid_result(uid)),
{
    let artifact_uid: u128 = match uid {
        Ok(uid) => uid,
        Err(error) => {
            return Err(
                LocalArtifactError::Corrupt(text::joined("invalid uid: ", error.as_str())),
            );
        },
    };
    let kind = if text::same_text(row.kind.as_str(), "file") {
        LocalArtifactKind::File
    } else if text::same_text(row.kind.as_str(), "screenshot") {
        LocalArtifactKind::Screenshot
    } else {
        return Err(
            LocalArtifactError::Corrupt(
                text::joined("invalid artifact kind ", row.kind.as_str()),
            ),
        );
    };
    if row.size_bytes < 1 || !check_checksum(row.checksum_sha256.as_str()) {
        return Err(LocalArtifactError::Corrupt("invalid size or checksum".to_owned()));
    }
    Ok(
        ArtifactRow {
            artifact_uid,
            kind,
            local_path: row.local_path,
            source_path: row.source_path,
            filename: row.filename,
            mime_type: row.mime_type,
            checksum_sha256: row.checksum_sha256,
            size_bytes: row.size_bytes,
            description: row.description,
            created_at: row.created_at,
        },
    )
}

/// Takes a row from the database.
pub fn artifact_from_row(row: StoredArtifactRow) -> (r: Result<ArtifactRow, LocalArtifactError>)
    ensures
        row_result(r) == row_outcome(row, ids::parsed_uuid(row.artifact_uid@)),
{
    let uid = ids::parse_uuid(row.artifact_uid.as_str());
    artifact_from_row_as(row, uid)
}

/// A row as the database is to hold it.
pub fn stored_row(row: &ArtifactRow) -> (r: StoredArtifactRow)
    ensures
        row.size_bytes >= 1 && is_checksum(row.checksum_sha256@) ==> row_outcome(
            r,
            ids::parsed_uuid(r.artifact_uid@),
        ) == Ok::<RowModel, ErrorModel>(row@),
        r.artifact_uid@ == ids::hyphenated(row.artifact_uid),
        r.kind@ == kind_text(row.kind),
        r.local_path@ == row.local_path@,
        r.source_path@ == row.source_path@,
        r.filename@ == row.filename@,
        r.mime_type@ == row.mime_type@,
        r.checksum_sha256@ == row.checksum_sha256@,
        r.size_bytes == row.size_bytes,
        text::text_opt(r.description) == text::text_opt(row.description),
        r.created_at == row.created_at,
{
    proof {
        reveal_strlit("file");
        reveal_strlit("screenshot");
        assert("file"@.len() == 4 && "screenshot"@.len() == 10);
    }
    StoredArtifactRow {
        artifact_uid: ids::uuid_text(row.artifact_uid),
        kind: row.kind.as_str().to_owned(),
        local_path: row.local_path.clone(),
        source_path: row.source_path.clone(),
        filename: row.filename.clone(),
        mime_type: row.mime_type.clone(),
        checksum_sha256: row.checksum_sha256.clone(),
        size_bytes: row.size_bytes,
        description: text::clone_opt(&row.description),
        created_at: row.created_at,
    }
}

// ---------------------------------------------------------------------------
// The index.

/// That an artifact is kept for someone.
pub struct OwnerRow<S = String> {
    pub artifact_uid: u128,
    pub owner: LocalArtifactOwner<S>,
    pub created_at: i64,
}

pub type OwnedModel = OwnerRow<Seq<char>>;

impl View for OwnerRow<String> {
    type V = OwnedModel;

    open spec fn view(&self) -> OwnedModel {
        OwnerRow {
            artifact_uid: self.artifact_uid,
            owner: self.owner@,
            created_at: self.created_at,
        }
    }
}

/// A row that says for whom an artifact is kept, as the database holds it.
pub struct StoredOwnerRow {
    pub artifact_uid: String,
    pub owner_kind: String,
    pub owner_id: String,
    pub created_at: i64,
}

/// What such a row says, where `uid` is what its identifier says.
pub open spec fn owner_row_outcome(row: StoredOwnerRow, uid: Result<u128, Seq<char>>) -> Result<
    OwnedModel,
    ErrorModel,
> {
    match uid {
        Ok(artifact_uid) => Ok(
            OwnerRow {
                artifact_uid,
                owner: LocalArtifactOwner { kind: row.owner_kind@, id: row.owner_id@ },
                created_at: row.created_at,
            },
        ),
        Err(error) => Err(LocalArtifactError::Corrupt("invalid uid: "@ + error)),
    }
}

pub open spec fn owner_row_result(r: Result<OwnerRow, LocalArtifactError>) -> Result<
    OwnedModel,
    ErrorModel,
> {
    match r {
        Ok(row) => Ok(row@),
        Err(e) => Err(e@),
    }
}

/// Takes a row from the database, where `uid` is what its identifier says.
pub fn owner_from_row_as(row: StoredOwnerRow, uid: Result<u128, String>) -> (r: Result<
    OwnerRow,
    LocalArtifactError,
>)
    ensures
        owner_row_result(r) == owner_row_outcome(row, ids::uuid_result(uid)),
{
    match uid {
        Ok(artifact_uid) => Ok(
            OwnerRow {
                artifact_uid,
                owner: LocalArtifactOwner { kind: row.owner_kind, id: row.owner_id },
                created_at: row.created_at,
            },
        ),
        Err(error) => Err(
            LocalArtifactError::Corrupt(text::joined("invalid uid: ", error.as_str())),
        ),
    }
}

/// Takes a row from the database.
pub fn owner_from_row(row: StoredOwnerRow) -> (r: Result<OwnerRow, LocalArtifactError>)
    ensures
        owner_row_result(r) == owner_row_outcome(row, ids::parsed_uuid(row.artifact_uid@)),
{
    let uid = ids::parse_uuid(row.artifact_uid.as_str());
    owner_from_row_as(row, uid)
}

/// The artifacts and who they are kept for.
pub struct ArtifactIndex {
    artifacts: Vec<ArtifactRow>,
    owners: Vec<OwnerRow>,
}

/// What the index holds.
#[verifier::ext_equal]
pub struct IndexModel {
    pub artifacts: Seq<RowModel>,
    pub owners: Seq<OwnedModel>,
}

pub open spec fn row_models(v: Seq<ArtifactRow>) -> Seq<RowModel> {
    Seq::new(v.len(), |i: int| v[i]@)
}

pub open spec fn owned_models(v: Seq<OwnerRow>) -> Seq<OwnedModel> {
    Seq::new(v.len(), |i: int| v[i]@)
}

impl View for ArtifactIndex {
    type V = IndexModel;

    closed spec fn view(&self) -> IndexModel {
        IndexModel {
            artifacts: row_models(self.artifacts@),
            owners: owned_models(self.owners@),
        }
    }
}

/// Whether an artifact is in a list.
pub open spec fn is_listed(artifacts: Seq<RowModel>, uid: u128) -> bool {
    exists|i: int| 0 <= i < artifacts.len() && (#[trigger] artifacts[i]).artifact_uid == uid
}

/// Whether an artifact is kept for anyone.
pub open spec fn has_owner(owners: Seq<OwnedModel>, uid: u128) -> bool {
    exists|i: int| 0 <= i < owners.len() && (#[trigger] owners[i]).artifact_uid == uid
}

/// Whether an artifact is kept for an owner.
pub open spec fn is_owned_by(owners: Seq<OwnedModel>, uid: u128, owner: OwnerModel) -> bool {
    exists|i: int|
        0 <= i < owners.len() && (#[trigger] owners[i]).artifact_uid == uid && owners[i].owner
            == owner
}

/// The position of an artifact, or their number.
pub open spec fn row_position(artifacts: Seq<RowModel>, uid: u128, from: int) -> int
    decreases artifacts.len() - from,
{
    if from >= artifacts.len() {
        artifacts.len() as int
    } else if artifacts[from].artifact_uid == uid {
        from
    } else {
        row_position(artifacts, uid, from + 1)
    }
}

/// What is kept for others than an owner.
pub open spec fn kept_for_others(owners: Seq<OwnedModel>, owner: OwnerModel) -> Seq<OwnedModel>
    decreases owners.len(),
{
    if owners.len() == 0 {
        Seq::empty()
    } else {
        let init = kept_for_others(owners.drop_last(), owner);
        if owners.last().owner == owner {
            init
        } else {
            init.push(owners.last())
        }
    }
}

/// The artifacts that are left when an owner lets go: those that were not kept
/// for it, and those that are kept for someone else.
pub open spec fn left_by(
    artifacts: Seq<RowModel>,
    owners: Seq<OwnedModel>,
    owner: OwnerModel,
) -> Seq<RowModel>
    decreases artifacts.len(),
{
    if artifacts.len() == 0 {
        Seq::empty()
    } else {
        let init = left_by(artifacts.drop_last(), owners, owner);
        let uid = artifacts.last().artifact_uid;
        if is_owned_by(owners, uid, owner) && !has_owner(kept_for_others(owners, owner), uid) {
            init
        } else {
            init.push(artifacts.last())
        }
    }
}

/// The artifacts that an owner was the last one of, with their paths.
pub open spec fn let_go(
    artifacts: Seq<RowModel>,
    owners: Seq<OwnedModel>,
    owner: OwnerModel,
) -> Seq<(u128, Seq<char>)>
    decreases artifacts.len(),
{
    if artifacts.len() == 0 {
        Seq::empty()
    } else {
        let init = let_go(artifacts.drop_last(), owners, owner);
        let row = artifacts.last();
        if is_owned_by(owners, row.artifact_uid, owner) && !has_owner(
            kept_for_others(owners, owner),
            row.artifact_uid,
        ) {
            init.push((row.artifact_uid, row.local_path))
        } else {
            init
        }
    }
}

/// The artifacts that are kept for someone.
pub open spec fn kept_artifacts(artifacts: Seq<RowModel>, owners: Seq<OwnedModel>) -> Seq<RowModel>
    decreases artifacts.len(),
{
    if artifacts.len() == 0 {
        Seq::empty()
    } else {
        let init = kept_artifacts(artifacts.drop_last(), owners);
        if has_owner(owners, artifacts.last().artifact_uid) {
            init.push(artifacts.last())
        } else {
            init
        }
    }
}

/// The artifacts that are kept for nobody, with their paths.
pub open spec fn unkept_artifacts(artifacts: Seq<RowModel>, owners: Seq<OwnedModel>) -> Seq<
    (u128, Seq<char>),
>
    decreases artifacts.len(),
{
    if artifacts.len() == 0 {
        Seq::empty()
    } else {
        let init = unkept_artifacts(artifacts.drop_last(), owners);
        let row = artifacts.last();
        if has_owner(owners, row.artifact_uid) {
            init
        } else {
            init.push((row.artifact_uid, row.local_path))
        }
    }
}

/// The owners of an artifact, as they were added.
pub open spec fn owners_of(owners: Seq<OwnedModel>, uid: u128) -> Seq<OwnerModel>
    decreases owners.len(),
{
    if owners.len() == 0 {
        Seq::empty()
    } else {
        let init = owners_of(owners.drop_last(), uid);
        if owners.last().artifact_uid == uid {
            init.push(owners.last().owner)
        } else {
            init
        }
    }
}

impl IndexModel {
    /// Every artifact and every path is there once, every owner of an artifact
    /// is there once, and only artifacts that are there have owners.
    pub open spec fn valid(self) -> bool {
        &&& forall|i: int, j: int|
            #![trigger self.artifacts[i], self.artifacts[j]]
            0 <= i < j < self.artifacts.len() ==> self.artifacts[i].artifact_uid
                != self.artifacts[j].artifact_uid && self.artifacts[i].local_path
                != self.artifacts[j].local_path
        &&& forall|i: int, j: int|
            #![trigger self.owners[i], self.owners[j]]
            0 <= i < j < self.owners.len() ==> !(self.owners[i].artifact_uid
                == self.owners[j].artifact_uid && self.owners[i].owner == self.owners[j].owner)
        &&& forall|i: int|
            0 <= i < self.owners.len() ==> is_listed(
                self.artifacts,
                (#[trigger] self.owners[i]).artifact_uid,
            )
    }

    /// Whether a new artifact would clash with one that is there.
    pub open spec fn clashes(self, row: RowModel) -> bool {
        exists|i: int|
            0 <= i < self.artifacts.len() && ((#[trigger] self.artifacts[i]).artifact_uid
                == row.artifact_uid || self.artifacts[i].local_path == row.local_path)
    }

    /// The index with one more artifact.
    pub open spec fn insert(self, row: RowModel, owner: OwnerModel) -> IndexModel {
        IndexModel {
            artifacts: self.artifacts.push(row),
            owners: self.owners.push(
                OwnerRow { artifact_uid: row.artifact_uid, owner, created_at: row.created_at },
            ),
        }
    }

    /// The index with one more owner of an artifact, unless there is nothing to
    /// own or it is owned already.
    pub open spec fn attach(self, uid: u128, owner: OwnerModel, created_at: i64) -> IndexModel {
        if is_listed(self.artifacts, uid) && !is_owned_by(self.owners, uid, owner) {
            IndexModel {
                owners: self.owners.push(OwnerRow { artifact_uid: uid, owner, created_at }),
                ..self
            }
        } else {
            self
        }
    }

    /// The index when an owner has let go.
    pub open spec fn release(self, owner: OwnerModel) -> IndexModel {
        IndexModel {
            artifacts: left_by(self.artifacts, self.owners, owner),
            owners: kept_for_others(self.owners, owner),
        }
    }

    /// The index without what is kept for nobody.
    pub open spec fn cleanup(self) -> IndexModel {
        IndexModel { artifacts: kept_artifacts(self.artifacts, self.owners), ..self }
    }
}

pub open spec fn removals(v: Seq<(u128, String)>) -> Seq<(u128, Seq<char>)> {
    Seq::new(v.len(), |i: int| (v[i].0, v[i].1@))
}

/// Whether a uid has an owner among the rows.
fn rows_have_owner(owners: &Vec<OwnerRow>, uid: u128) -> (r: bool)
    ensures
        r == has_owner(owned_models(owners@), uid),
{
    let ghost models = owned_models(owners@);
    let mut i: usize = 0;
    while i < owners.len()
        invariant
            i <= owners.len(),
            models == owned_models(owners@),
            forall|j: int| 0 <= j < i ==> (#[trigger] models[j]).artifact_uid != uid,
        decreases owners.len() - i,
    {
        assert(models[i as int] == owners@[i as int]@);
        if owners[i].artifact_uid == uid {
            return true;
        }
        i += 1;
    }
    false
}

fn rows_have_owned(owners: &Vec<OwnerRow>, uid: u128, owner: &LocalArtifactOwner) -> (r: bool)
    ensures
        r == is_owned_by(owned_models(owners@), uid, owner@),
{
    let ghost models = owned_models(owners@);
    let mut i: usize = 0;
    while i < owners.len()
        invariant
            i <= owners.len(),
            models == owned_models(owners@),
            forall|j: int|
                0 <= j < i ==> !((#[trigger] models[j]).artifact_uid == uid && models[j].owner
                    == owner@),
        decreases owners.len() - i,
    {
        assert(models[i as int] == owners@[i as int]@);
        if owners[i].artifact_uid == uid && owners[i].owner.same(owner) {
            return true;
        }
        i += 1;
    }
    false
}

impl ArtifactIndex {
    pub open spec fn wf(&self) -> bool {
        self@.valid()
    }

    pub fn new() -> (r: Self)
        ensures
            r.wf(),
            r@ == (IndexModel { artifacts: Seq::empty(), owners: Seq::empty() }),
    {
        let r = ArtifactIndex { artifacts: Vec::new(), owners: Vec::new() };
        assert(r@ =~= (IndexModel { artifacts: Seq::empty(), owners: Seq::empty() }));
        r
    }

    fn position(&self, uid: u128) -> (r: usize)
        ensures
            r <= self.artifacts.len(),
            r < self.artifacts.len() ==> self.artifacts@[r as int].artifact_uid == uid
                && is_listed(self@.artifacts, uid),
            r == self.artifacts.len() ==> !is_listed(self@.artifacts, uid),
            r == row_position(self@.artifacts, uid, 0),
    {
        let ghost models = row_models(self.artifacts@);
        let mut i: usize = 0;
        while i < self.artifacts.len()
            invariant
                i <= self.artifacts.len(),
                models == row_models(self.artifacts@),
                row_position(models, uid, 0) == row_position(models, uid, i as int),
                forall|j: int| 0 <= j < i ==> (#[trigger] models[j]).artifact_uid != uid,
            decreases self.artifacts.len() - i,
        {
            assert(models[i as int] == self.artifacts@[i as int]@);
            if self.artifacts[i].artifact_uid == uid {
                return i;
            }
            i += 1;
        }
        i
    }

    fn owners_for(&self, uid: u128) -> (r: Vec<LocalArtifactOwner>)
        ensures
            owner_models(r@) == owners_of(self@.owners, uid),
    {
        let ghost models = owned_models(self.owners@);
        let mut out: Vec<LocalArtifactOwner> = Vec::new();
        let mut i: usize = 0;
        assert(owner_models(out@) =~= Seq::<OwnerModel>::empty());
        assert(models.subrange(0, 0) =~= Seq::<OwnedModel>::empty());
        while i < self.owners.len()
            invariant
                i <= self.owners.len(),
                models == owned_models(self.owners@),
                owner_models(out@) == owners_of(models.subrange(0, i as int), uid),
            decreases self.owners.len() - i,
        {
            let ghost part = models.subrange(0, i + 1);
            assert(part.drop_last() =~= models.subrange(0, i as int));
            assert(part.last() == self.owners@[i as int]@);
            if self.owners[i].artifact_uid == uid {
                let ghost before = owner_models(out@);
                out.push(self.owners[i].owner.clone());
                assert(owner_models(out@) =~= before.push(self.owners@[i as int].owner@));
            }
            i += 1;
        }
        assert(models.subrange(0, models.len() as int) =~= models);
        out
    }

    /// The index that the rows of a database make up, unless they do not fit
    /// together.
    pub fn restore(artifacts: Vec<ArtifactRow>, owners: Vec<OwnerRow>) -> (r: Option<Self>)
        ensures
            ({
                let m = IndexModel {
                    artifacts: row_models(artifacts@),
                    owners: owned_models(owners@),
                };
                match r {
                    Some(index) => index.wf() && index@ == m,
                    None => !m.valid(),
                }
            }),
    {
        let index = ArtifactIndex { artifacts, owners };
        let ghost m = index@;
        let mut i: usize = 0;
        while i < index.artifacts.len()
            invariant
                i <= index.artifacts.len(),
                m == index@,
                m == (IndexModel {
                    artifacts: row_models(artifacts@),
                    owners: owned_models(owners@),
                }),
                m.artifacts.len() == index.artifacts.len(),
                forall|a: int, b: int|
                    #![trigger m.artifacts[a], m.artifacts[b]]
                    0 <= a < b < i ==> m.artifacts[a].artifact_uid != m.artifacts[b].artifact_uid
                        && m.artifacts[a].local_path != m.artifacts[b].local_path,
            decreases index.artifacts.len() - i,
        {
            let mut k: usize = 0;
            assert(m.artifacts[i as int] == index.artifacts@[i as int]@);
            while k < i
                invariant
                    k <= i < index.artifacts.len(),
                    m == index@,
                    m == (IndexModel {
                        artifacts: row_models(artifacts@),
                        owners: owned_models(owners@),
                    }),
                    m.artifacts.len() == index.artifacts.len(),
                    m.artifacts[i as int] == index.artifacts@[i as int]@,
                    forall|a: int|
                        0 <= a < k ==> (#[trigger] m.artifacts[a]).artifact_uid
                            != m.artifacts[i as int].artifact_uid && m.artifacts[a].local_path
                            != m.artifacts[i as int].local_path,
                decreases i - k,
            {
                assert(m.artifacts[k as int] == index.artifacts@[k as int]@);
                if index.artifacts[k].artifact_uid == index.artifacts[i].artifact_uid
                    || text::same_text(
                    index.artifacts[k].local_path.as_str(),
                    index.artifacts[i].local_path.as_str(),
                ) {
                    assert(!m.valid());
                    return None;
                }
                k += 1;
            }
            i += 1;
        }
        let mut i: usize = 0;
        while i < index.owners.len()
            invariant
                i <= index.owners.len(),
                m == index@,
                m == (IndexModel {
                    artifacts: row_models(artifacts@),
                    owners: owned_models(owners@),
                }),
                m.owners.len() == index.owners.len(),
                forall|a: int, b: int|
                    #![trigger m.artifacts[a], m.artifacts[b]]
                    0 <= a < b < m.artifacts.len() ==> m.artifacts[a].artifact_uid
                        != m.artifacts[b].artifact_uid && m.artifacts[a].local_path
                        != m.artifacts[b].local_path,
                forall|a: int, b: int|
                    #![trigger m.owners[a], m.owners[b]]
                    0 <= a < b < i ==> !(m.owners[a].artifact_uid == m.owners[b].artifact_uid
                        && m.owners[a].owner == m.owners[b].owner),
                forall|a: int|
                    0 <= a < i ==> is_listed(
                        m.artifacts,
                        (#[trigger] m.owners[a]).artifact_uid,
                    ),
            decreases index.owners.len() - i,
        {
            assert(m.owners[i as int] == index.owners@[i as int]@);
            if index.position(index.owners[i].artifact_uid) == index.artifacts.len() {
                assert(!m.valid());
                return None;
            }
            let mut k: usize = 0;
            while k < i
                invariant
                    k <= i < index.owners.len(),
                    m == index@,
                    m == (IndexModel {
                        artifacts: row_models(artifacts@),
                        owners: owned_models(owners@),
                    }),
                    m.owners.len() == index.owners.len(),
                    m.owners[i as int] == index.owners@[i as int]@,
                    forall|a: int|
                        0 <= a < k ==> !((#[trigger] m.owners[a]).artifact_uid
                            == m.owners[i as int].artifact_uid && m.owners[a].owner
                            == m.owners[i as int].owner),
                decreases i - k,
            {
                assert(m.owners[k as int] == index.owners@[k as int]@);
                if index.owners[k].artifact_uid == index.owners[i].artifact_uid
                    && index.owners[k].owner.same(&index.owners[i].owner) {
                    assert(!m.valid());
                    return None;
                }
                k += 1;
            }
            i += 1;
        }
        Some(index)
    }

    /// Records a new artifact with its first owner.
    pub fn insert(&mut self, row: ArtifactRow, owner: LocalArtifactOwner) -> (r: Result<
        (),
        LocalArtifactError,
    >)
        requires
            old(self).wf(),
        ensures
            final(self).wf(),
            match r {
                Ok(_) => !old(self)@.clashes(row@) && final(self)@ == old(self)@.insert(
                    row@,
                    owner@,
                ),
                Err(e) => old(self)@.clashes(row@) && final(self)@ == old(self)@ && e@
                    == LocalArtifactError::<Seq<char>>::Storage(
                    "recording local artifact: it is already recorded"@,
                ),
            },
    {
        let ghost before = self@;
        let mut i: usize = 0;
        while i < self.artifacts.len()
            invariant
                i <= self.artifacts.len(),
                before == self@,
                before == old(self)@,
                before.valid(),
                forall|j: int|
                    0 <= j < i ==> (#[trigger] before.artifacts[j]).artifact_uid
                        != row@.artifact_uid && before.artifacts[j].local_path != row@.local_path,
            decreases self.artifacts.len() - i,
        {
            assert(before.artifacts[i as int] == self.artifacts@[i as int]@);
            if self.artifacts[i].artifact_uid == row.artifact_uid || text::same_text(
                self.artifacts[i].local_path.as_str(),
                row.local_path.as_str(),
            ) {
                assert(before.clashes(row@));
                return Err(
                    LocalArtifactError::Storage(
                        "recording local artifact: it is already recorded".to_owned(),
                    ),
                );
            }
            i += 1;
        }
        let ghost new_row = row@;
        let ghost new_owner = owner@;
        let first = OwnerRow {
            artifact_uid: row.artifact_uid,
            owner,
            created_at: row.created_at,
        };
        self.artifacts.push(row);
        self.owners.push(first);
        proof {
            let after = before.insert(new_row, new_owner);
            assert(self@ =~= after) by {
                assert(self@.artifacts =~= after.artifacts);
                assert(self@.owners =~= after.owners);
            }
            lemma_insert_valid(before, new_row, new_owner);
        }
        Ok(())
    }

    /// What is recorded of an artifact, with its owners in order.
    pub fn get(&self, artifact_uid: u128) -> (r: Option<LocalArtifactRecord>)
        ensures
            match r {
                Some(record) => {
                    let i = row_position(self@.artifacts, artifact_uid, 0);
                    &&& 0 <= i < self@.artifacts.len()
                    &&& record.row() == self@.artifacts[i]
                    &&& order::sorted(record.owners@)
                    &&& owner_models(record.owners@).to_multiset() == owners_of(
                        self@.owners,
                        artifact_uid,
                    ).to_multiset()
                },
                None => !is_listed(self@.artifacts, artifact_uid),
            },
    {
        let i: usize = self.position(artifact_uid);
        if i >= self.artifacts.len() {
            return None;
        }
        assert(self@.artifacts[i as int] == self.artifacts@[i as int]@);
        Some(self.record_at(i))
    }

    fn record_at(&self, i: usize) -> (r: LocalArtifactRecord)
        requires
            i < self@.artifacts.len(),
        ensures
            r.row() == self@.artifacts[i as int],
            order::sorted(r.owners@),
            owner_models(r.owners@).to_multiset() == owners_of(
                self@.owners,
                self@.artifacts[i as int].artifact_uid,
            ).to_multiset(),
    {
        assert(self@.artifacts[i as int] == self.artifacts@[i as int]@);
        let row = self.artifacts[i].clone();
        let owners = self.owners_in_order(row.artifact_uid);
        LocalArtifactRecord::of_row(row, owners)
    }

    /// Gives an artifact one more owner, if it is there.
    pub fn attach_owner_if_present(
        &mut self,
        artifact_uid: u128,
        owner: &LocalArtifactOwner,
        created_at: i64,
    ) -> (r: Result<bool, LocalArtifactError>)
        requires
            old(self).wf(),
        ensures
            final(self).wf(),
            match r {
                Ok(present) => owner_ok(owner@) && present == is_listed(
                    old(self)@.artifacts,
                    artifact_uid,
                ) && final(self)@ == old(self)@.attach(artifact_uid, owner@, created_at),
                Err(e) => !owner_ok(owner@) && e@ is InvalidOwner && final(self)@ == old(self)@,
            },
    {
        match validate_owner(owner) {
            Ok(_) => {},
            Err(error) => {
                return Err(error);
            },
        }
        let ghost before = self@;
        if self.position(artifact_uid) >= self.artifacts.len() {
            return Ok(false);
        }
        if !rows_have_owned(&self.owners, artifact_uid, owner) {
            self.owners.push(OwnerRow { artifact_uid, owner: owner.clone(), created_at });
            proof {
                let after = before.attach(artifact_uid, owner@, created_at);
                assert(self@ =~= after) by {
                    assert(self@.owners =~= after.owners);
                }
                assert forall|i: int, j: int|
                    #![trigger after.owners[i], after.owners[j]]
                    0 <= i < j < after.owners.len() implies !(after.owners[i].artifact_uid
                    == after.owners[j].artifact_uid && after.owners[i].owner
                    == after.owners[j].owner) by {
                    assert(after.owners[i] == before.owners[i]);
                    if j < before.owners.len() {
                        assert(after.owners[j] == before.owners[j]);
                    }
                }
                assert forall|i: int| 0 <= i < after.owners.len() implies is_listed(
                    after.artifacts,
                    (#[trigger] after.owners[i]).artifact_uid,
                ) by {
                    if i < before.owners.len() {
                        assert(after.owners[i] == before.owners[i]);
                    }
                }
            }
        }
        Ok(true)
    }

    /// Lets an owner go. What nobody else owns is no longer recorded; its files
    /// are returned, to be removed.
    pub fn release_owner(&mut self, owner: &LocalArtifactOwner) -> (r: Result<
        Vec<(u128, String)>,
        LocalArtifactError,
    >)
        requires
            old(self).wf(),
        ensures
            final(self).wf(),
            match r {
                Ok(gone) => owner_ok(owner@) && final(self)@ == old(self)@.release(owner@)
                    && removals(gone@) == let_go(
                    old(self)@.artifacts,
                    old(self)@.owners,
                    owner@,
                ),
                Err(e) => !owner_ok(owner@) && e@ is InvalidOwner && final(self)@ == old(self)@,
            },
    {
        match validate_owner(owner) {
            Ok(_) => {},
            Err(error) => {
                return Err(error);
            },
        }
        let ghost before = self@;
        let ghost who = owner@;
        let mut others: Vec<OwnerRow> = Vec::new();
        let mut i: usize = 0;
        assert(owned_models(others@) =~= Seq::<OwnedModel>::empty());
        assert(before.owners.subrange(0, 0) =~= Seq::<OwnedModel>::empty());
        while i < self.owners.len()
            invariant
                i <= self.owners.len(),
                before == self@,
                who == owner@,
                owned_models(others@) == kept_for_others(
                    before.owners.subrange(0, i as int),
                    who,
                ),
            decreases self.owners.len() - i,
        {
            let row = &self.owners[i];
            let ghost part = before.owners.subrange(0, i + 1);
            assert(part.drop_last() =~= before.owners.subrange(0, i as int));
            assert(part.last() == row@);
            if !row.owner.same(owner) {
                let ghost kept = owned_models(others@);
                others.push(
                    OwnerRow {
                        artifact_uid: row.artifact_uid,
                        owner: row.owner.clone(),
                        created_at: row.created_at,
                    },
                );
                assert(owned_models(others@) =~= kept.push(row@));
            }
            i += 1;
        }
        assert(before.owners.subrange(0, before.owners.len() as int) =~= before.owners);
        let mut left: Vec<ArtifactRow> = Vec::new();
        let mut gone: Vec<(u128, String)> = Vec::new();
        let mut k: usize = 0;
        assert(row_models(left@) =~= Seq::<RowModel>::empty());
        assert(removals(gone@) =~= Seq::<(u128, Seq<char>)>::empty());
        assert(before.artifacts.subrange(0, 0) =~= Seq::<RowModel>::empty());
        while k < self.artifacts.len()
            invariant
                k <= self.artifacts.len(),
                before == self@,
                who == owner@,
                owned_models(others@) == kept_for_others(before.owners, who),
                row_models(left@) == left_by(
                    before.artifacts.subrange(0, k as int),
                    before.owners,
                    who,
                ),
                removals(gone@) == let_go(
                    before.artifacts.subrange(0, k as int),
                    before.owners,
                    who,
                ),
            decreases self.artifacts.len() - k,
        {
            let row = &self.artifacts[k];
            let ghost part = before.artifacts.subrange(0, k + 1);
            assert(part.drop_last() =~= before.artifacts.subrange(0, k as int));
            assert(part.last() == row@);
            let ghost old_left = row_models(left@);
            let ghost old_gone = removals(gone@);
            if rows_have_owned(&self.owners, row.artifact_uid, owner) && !rows_have_owner(
                &others,
                row.artifact_uid,
            ) {
                gone.push((row.artifact_uid, row.local_path.clone()));
                assert(removals(gone@) =~= old_gone.push((row@.artifact_uid, row@.local_path)));
            } else {
                left.push(row.clone());
                assert(row_models(left@) =~= old_left.push(row@));
            }
            k += 1;
        }
        assert(before.artifacts.subrange(0, before.artifacts.len() as int) =~= before.artifacts);
        self.artifacts = left;
        self.owners = others;
        proof {
            lemma_release_valid(before, who);
            assert(self@ =~= before.release(who));
        }
        Ok(gone)
    }

    /// Drops what is kept for nobody; its files are returned, to be removed.
    pub fn cleanup_unowned(&mut self) -> (r: Vec<(u128, String)>)
        requires
            old(self).wf(),
        ensures
            final(self).wf(),
            final(self)@ == old(self)@.cleanup(),
            removals(r@) == unkept_artifacts(old(self)@.artifacts, old(self)@.owners),
    {
        let ghost before = self@;
        let mut left: Vec<ArtifactRow> = Vec::new();
        let mut gone: Vec<(u128, String)> = Vec::new();
        let mut k: usize = 0;
        assert(row_models(left@) =~= Seq::<RowModel>::empty());
        assert(removals(gone@) =~= Seq::<(u128, Seq<char>)>::empty());
        assert(before.artifacts.subrange(0, 0) =~= Seq::<RowModel>::empty());
        while k < self.artifacts.len()
            invariant
                k <= self.artifacts.len(),
                before == self@,
                row_models(left@) == kept_artifacts(
                    before.artifacts.subrange(0, k as int),
                    before.owners,
                ),
                removals(gone@) == unkept_artifacts(
                    before.artifacts.subrange(0, k as int),
                    before.owners,
                ),
            decreases self.artifacts.len() - k,
        {
            let row = &self.artifacts[k];
            let ghost part = before.artifacts.subrange(0, k + 1);
            assert(part.drop_last() =~= before.artifacts.subrange(0, k as int));
            assert(part.last() == row@);
            let ghost old_left = row_models(left@);
            let ghost old_gone = removals(gone@);
            if rows_have_owner(&self.owners, row.artifact_uid) {
                left.push(row.clone());
                assert(row_models(left@) =~= old_left.push(row@));
            } else {
                gone.push((row.artifact_uid, row.local_path.clone()));
                assert(removals(gone@) =~= old_gone.push((row@.artifact_uid, row@.local_path)));
            }
            k += 1;
        }
        assert(before.artifacts.subrange(0, before.artifacts.len() as int) =~= before.artifacts);
        self.artifacts = left;
        proof {
            lemma_cleanup_valid(before);
            assert(self@ =~= before.cleanup());
        }
        gone
    }
}

proof fn lemma_insert_valid(m: IndexModel, row: RowModel, owner: OwnerModel)
    requires
        m.valid(),
        !m.clashes(row),
    ensures
        m.insert(row, owner).valid(),
{
    let after = m.insert(row, owner);
    assert forall|i: int, j: int|
        #![trigger after.artifacts[i], after.artifacts[j]]
        0 <= i < j < after.artifacts.len() implies after.artifacts[i].artifact_uid
        != after.artifacts[j].artifact_uid && after.artifacts[i].local_path
        != after.artifacts[j].local_path by {
        assert(after.artifacts[i] == m.artifacts[i]);
        if j < m.artifacts.len() {
            assert(after.artifacts[j] == m.artifacts[j]);
        }
    }
    assert forall|i: int, j: int|
        #![trigger after.owners[i], after.owners[j]]
        0 <= i < j < after.owners.len() implies !(after.owners[i].artifact_uid
        == after.owners[j].artifact_uid && after.owners[i].owner == after.owners[j].owner) by {
        assert(after.owners[i] == m.owners[i]);
        if j < m.owners.len() {
            assert(after.owners[j] == m.owners[j]);
        } else {
            assert(is_listed(m.artifacts, m.owners[i].artifact_uid));
            let k = choose|k: int|
                0 <= k < m.artifacts.len() && (#[trigger] m.artifacts[k]).artifact_uid
                    == m.owners[i].artifact_uid;
            assert(m.artifacts[k].artifact_uid != row.artifact_uid);
        }
    }
    assert forall|i: int| 0 <= i < after.owners.len() implies is_listed(
        after.artifacts,
        (#[trigger] after.owners[i]).artifact_uid,
    ) by {
        if i < m.owners.len() {
            assert(after.owners[i] == m.owners[i]);
            let k = choose|k: int|
                0 <= k < m.artifacts.len() && (#[trigger] m.artifacts[k]).artifact_uid
                    == m.owners[i].artifact_uid;
            assert(after.artifacts[k].artifact_uid == m.owners[i].artifact_uid);
        } else {
            assert(after.artifacts[m.artifacts.len() as int].artifact_uid == row.artifact_uid);
        }
    }
}

/// Lists that hold the same owners hold the same owner models.
proof fn lemma_same_owners(a: Seq<LocalArtifactOwner>, b: Seq<LocalArtifactOwner>)
    requires
        a.to_multiset() == b.to_multiset(),
    ensures
        owner_models(a).to_multiset() == owner_models(b).to_multiset(),
{
    order::lemma_same_images(a, b, |owner: LocalArtifactOwner| owner@);
    assert(owner_models(a) =~= a.map_values(|owner: LocalArtifactOwner| owner@));
    assert(owner_models(b) =~= b.map_values(|owner: LocalArtifactOwner| owner@));
}

// The lists that are kept.

/// Whether an element stands before another in a list.
spec fn precedes<T>(s: Seq<T>, x: T, y: T) -> bool {
    exists|a: int, b: int|
        #![trigger s[a], s[b]]
        0 <= a < b < s.len() && s[a] == x && s[b] == y
}

/// What is kept for others is part of what was there, in its order.
proof fn lemma_kept_for_others(owners: Seq<OwnedModel>, owner: OwnerModel)
    ensures
        forall|x: OwnedModel| #[trigger]
            kept_for_others(owners, owner).contains(x) <==> owners.contains(x) && x.owner != owner,
        kept_for_others(owners, owner).len() <= owners.len(),
        forall|i: int, j: int|
            #![trigger kept_for_others(owners, owner)[i], kept_for_others(owners, owner)[j]]
            0 <= i < j < kept_for_others(owners, owner).len() ==> precedes(
                owners,
                kept_for_others(owners, owner)[i],
                kept_for_others(owners, owner)[j],
            ),
    decreases owners.len(),
{
    let out = kept_for_others(owners, owner);
    if owners.len() > 0 {
        let init = owners.drop_last();
        let kept = kept_for_others(init, owner);
        lemma_kept_for_others(init, owner);
        assert forall|x: OwnedModel| #[trigger] out.contains(x) implies owners.contains(x)
            && x.owner != owner by {
            if kept.contains(x) {
                let k = choose|k: int| 0 <= k < init.len() && init[k] == x;
                assert(owners[k] == x);
            } else {
                let k = choose|k: int| 0 <= k < out.len() && out[k] == x;
                if k < kept.len() {
                    assert(kept[k] == x);
                }
                assert(owners[owners.len() - 1] == x);
            }
        }
        assert forall|x: OwnedModel| owners.contains(x) && x.owner != owner implies #[trigger]
        out.contains(x) by {
            let k = choose|k: int| 0 <= k < owners.len() && owners[k] == x;
            if k < init.len() {
                assert(init[k] == x);
                assert(kept.contains(x));
                let m = choose|m: int| 0 <= m < kept.len() && kept[m] == x;
                assert(out[m] == x);
            } else {
                assert(out[out.len() - 1] == x);
            }
        }
        assert forall|i: int, j: int|
            #![trigger out[i], out[j]]
            0 <= i < j < out.len() implies precedes(owners, out[i], out[j]) by {
            if j < kept.len() {
                assert(kept[i] == out[i] && kept[j] == out[j]);
                let (a, b) = choose|a: int, b: int|
                    #![trigger init[a], init[b]]
                    0 <= a < b < init.len() && init[a] == kept[i] && init[b] == kept[j];
                assert(owners[a] == out[i] && owners[b] == out[j]);
            } else {
                assert(kept[i] == out[i]);
                assert(kept.contains(out[i]));
                let a = choose|a: int| 0 <= a < init.len() && init[a] == out[i];
                assert(owners[a] == out[i]);
                assert(owners[owners.len() - 1] == out[j]);
            }
        }
    }
}

/// Whether an artifact stays when an owner lets go.
pub open spec fn stays(owners: Seq<OwnedModel>, owner: OwnerModel, uid: u128) -> bool {
    !is_owned_by(owners, uid, owner) || has_owner(kept_for_others(owners, owner), uid)
}

/// What is left is part of what was there, in its order.
proof fn lemma_left_by(artifacts: Seq<RowModel>, owners: Seq<OwnedModel>, owner: OwnerModel)
    ensures
        forall|x: RowModel| #[trigger]
            left_by(artifacts, owners, owner).contains(x) <==> artifacts.contains(x) && stays(
                owners,
                owner,
                x.artifact_uid,
            ),
        forall|i: int, j: int|
            #![trigger left_by(artifacts, owners, owner)[i], left_by(artifacts, owners, owner)[j]]
            0 <= i < j < left_by(artifacts, owners, owner).len() ==> precedes(
                artifacts,
                left_by(artifacts, owners, owner)[i],
                left_by(artifacts, owners, owner)[j],
            ),
    decreases artifacts.len(),
{
    let out = left_by(artifacts, owners, owner);
    if artifacts.len() > 0 {
        let init = artifacts.drop_last();
        let kept = left_by(init, owners, owner);
        lemma_left_by(init, owners, owner);
        assert forall|x: RowModel| #[trigger] out.contains(x) implies artifacts.contains(x)
            && stays(owners, owner, x.artifact_uid) by {
            if kept.contains(x) {
                let k = choose|k: int| 0 <= k < init.len() && init[k] == x;
                assert(artifacts[k] == x);
            } else {
                let k = choose|k: int| 0 <= k < out.len() && out[k] == x;
                if k < kept.len() {
                    assert(kept[k] == x);
                }
                assert(artifacts[artifacts.len() - 1] == x);
            }
        }
        assert forall|x: RowModel|
            artifacts.contains(x) && stays(owners, owner, x.artifact_uid) implies #[trigger]
        out.contains(x) by {
            let k = choose|k: int| 0 <= k < artifacts.len() && artifacts[k] == x;
            if k < init.len() {
                assert(init[k] == x);
                assert(kept.contains(x));
                let m = choose|m: int| 0 <= m < kept.len() && kept[m] == x;
                assert(out[m] == x);
            } else {
                assert(out[out.len() - 1] == x);
            }
        }
        assert forall|i: int, j: int|
            #![trigger out[i], out[j]]
            0 <= i < j < out.len() implies precedes(artifacts, out[i], out[j]) by {
            if j < kept.len() {
                assert(kept[i] == out[i] && kept[j] == out[j]);
                let (a, b) = choose|a: int, b: int|
                    #![trigger init[a], init[b]]
                    0 <= a < b < init.len() && init[a] == kept[i] && init[b] == kept[j];
                assert(artifacts[a] == out[i] && artifacts[b] == out[j]);
            } else {
                assert(kept[i] == out[i]);
                assert(kept.contains(out[i]));
                let a = choose|a: int| 0 <= a < init.len() && init[a] == out[i];
                assert(artifacts[a] == out[i]);
                assert(artifacts[artifacts.len() - 1] == out[j]);
            }
        }
    }
}

/// What is kept for someone is part of what was there, in its order.
proof fn lemma_kept_artifacts(artifacts: Seq<RowModel>, owners: Seq<OwnedModel>)
    ensures
        forall|x: RowModel| #[trigger]
            kept_artifacts(artifacts, owners).contains(x) <==> artifacts.contains(x) && has_owner(
                owners,
                x.artifact_uid,
            ),
        forall|i: int, j: int|
            #![trigger kept_artifacts(artifacts, owners)[i], kept_artifacts(artifacts, owners)[j]]
            0 <= i < j < kept_artifacts(artifacts, owners).len() ==> precedes(
                artifacts,
                kept_artifacts(artifacts, owners)[i],
                kept_artifacts(artifacts, owners)[j],
            ),
    decreases artifacts.len(),
{
    let out = kept_artifacts(artifacts, owners);
    if artifacts.len() > 0 {
        let init = artifacts.drop_last();
        let kept = kept_artifacts(init, owners);
        lemma_kept_artifacts(init, owners);
        assert forall|x: RowModel| #[trigger] out.contains(x) implies artifacts.contains(x)
            && has_owner(owners, x.artifact_uid) by {
            if kept.contains(x) {
                let k = choose|k: int| 0 <= k < init.len() && init[k] == x;
                assert(artifacts[k] == x);
            } else {
                let k = choose|k: int| 0 <= k < out.len() && out[k] == x;
                if k < kept.len() {
                    assert(kept[k] == x);
                }
                assert(artifacts[artifacts.len() - 1] == x);
            }
        }
        assert forall|x: RowModel|
            artifacts.contains(x) && has_owner(owners, x.artifact_uid) implies #[trigger]
        out.contains(x) by {
            let k = choose|k: int| 0 <= k < artifacts.len() && artifacts[k] == x;
            if k < init.len() {
                assert(init[k] == x);
                assert(kept.contains(x));
                let m = choose|m: int| 0 <= m < kept.len() && kept[m] == x;
                assert(out[m] == x);
            } else {
                assert(out[out.len() - 1] == x);
            }
        }
        assert forall|i: int, j: int|
            #![trigger out[i], out[j]]
            0 <= i < j < out.len() implies precedes(artifacts, out[i], out[j]) by {
            if j < kept.len() {
                assert(kept[i] == out[i] && kept[j] == out[j]);
                let (a, b) = choose|a: int, b: int|
                    #![trigger init[a], init[b]]
                    0 <= a < b < init.len() && init[a] == kept[i] && init[b] == kept[j];
                assert(artifacts[a] == out[i] && artifacts[b] == out[j]);
            } else {
                assert(kept[i] == out[i]);
                assert(kept.contains(out[i]));
                let a = choose|a: int| 0 <= a < init.len() && init[a] == out[i];
                assert(artifacts[a] == out[i]);
                assert(artifacts[artifacts.len() - 1] == out[j]);
            }
        }
    }
}

proof fn lemma_release_valid(m: IndexModel, owner: OwnerModel)
    requires
        m.valid(),
    ensures
        m.release(owner).valid(),
{
    let after = m.release(owner);
    lemma_kept_for_others(m.owners, owner);
    lemma_left_by(m.artifacts, m.owners, owner);
    assert forall|i: int| 0 <= i < after.owners.len() implies is_listed(
        after.artifacts,
        (#[trigger] after.owners[i]).artifact_uid,
    ) by {
        let x = after.owners[i];
        assert(after.owners.contains(x));
        let k = choose|k: int| 0 <= k < m.owners.len() && m.owners[k] == x;
        assert(is_listed(m.artifacts, m.owners[k].artifact_uid));
        let a = choose|a: int|
            0 <= a < m.artifacts.len() && (#[trigger] m.artifacts[a]).artifact_uid
                == x.artifact_uid;
        let row = m.artifacts[a];
        assert(m.artifacts.contains(row));
        assert(has_owner(after.owners, x.artifact_uid));
        assert(after.artifacts.contains(row));
        let b = choose|b: int| 0 <= b < after.artifacts.len() && after.artifacts[b] == row;
        assert(after.artifacts[b].artifact_uid == x.artifact_uid);
    }
}

proof fn lemma_cleanup_valid(m: IndexModel)
    requires
        m.valid(),
    ensures
        m.cleanup().valid(),
{
    let after = m.cleanup();
    lemma_kept_artifacts(m.artifacts, m.owners);
    assert forall|i: int| 0 <= i < after.owners.len() implies is_listed(
        after.artifacts,
        (#[trigger] after.owners[i]).artifact_uid,
    ) by {
        let x = m.owners[i];
        assert(is_listed(m.artifacts, x.artifact_uid));
        let a = choose|a: int|
            0 <= a < m.artifacts.len() && (#[trigger] m.artifacts[a]).artifact_uid
                == x.artifact_uid;
        let row = m.artifacts[a];
        assert(m.artifacts.contains(row));
        assert(has_owner(m.owners, x.artifact_uid));
        assert(after.artifacts.contains(row));
        let b = choose|b: int| 0 <= b < after.artifacts.len() && after.artifacts[b] == row;
        assert(after.artifacts[b].artifact_uid == x.artifact_uid);
    }
}

// ---------------------------------------------------------------------------
// Listing.

/// Whether a row may stand before another: the most recent first, then by
/// identifier.
pub open spec fn row_at_most(a: RowModel, b: RowModel) -> bool {
    if a.created_at == b.created_at {
        text::text_at_most(ids::hyphenated(a.artifact_uid), ids::hyphenated(b.artifact_uid))
    } else {
        a.created_at > b.created_at
    }
}

/// The artifacts that are kept for an owner, or all of them.
pub open spec fn rows_for(m: IndexModel, owner: Option<OwnerModel>) -> Seq<RowModel> {
    m.artifacts.filter(
        |row: RowModel| owner is None || is_owned_by(m.owners, row.artifact_uid, owner->0),
    )
}

pub open spec fn record_rows(v: Seq<LocalArtifactRecord>) -> Seq<RowModel> {
    Seq::new(v.len(), |i: int| v[i].row())
}

pub open spec fn owner_opt(o: Option<&LocalArtifactOwner>) -> Option<OwnerModel> {
    match o {
        Some(owner) => Some(owner@),
        None => None,
    }
}

/// Lists that hold the same rows hold the same row models.
proof fn lemma_same_rows(a: Seq<ArtifactRow>, b: Seq<ArtifactRow>)
    requires
        a.to_multiset() == b.to_multiset(),
    ensures
        row_models(a).to_multiset() == row_models(b).to_multiset(),
{
    order::lemma_same_images(a, b, |row: ArtifactRow| row@);
    assert(row_models(a) =~= a.map_values(|row: ArtifactRow| row@));
    assert(row_models(b) =~= b.map_values(|row: ArtifactRow| row@));
}

impl ArtifactIndex {
    fn owners_in_order(&self, uid: u128) -> (r: Vec<LocalArtifactOwner>)
        ensures
            order::sorted(r@),
            owner_models(r@).to_multiset() == owners_of(self@.owners, uid).to_multiset(),
    {
        let unsorted = self.owners_for(uid);
        let ghost given = unsorted@;
        let owners = order::sort(unsorted);
        proof {
            lemma_same_owners(owners@, given);
        }
        owners
    }

    /// The artifacts of an owner, or all of them: the most recent first, then
    /// by identifier.
    pub fn list(&self, owner: Option<&LocalArtifactOwner>) -> (r: Result<
        Vec<LocalArtifactRecord>,
        LocalArtifactError,
    >)
        ensures
            match r {
                Ok(records) => {
                    &&& owner is None || owner_ok(owner->0@)
                    &&& record_rows(records@).to_multiset() == rows_for(
                        self@,
                        owner_opt(owner),
                    ).to_multiset()
                    &&& forall|i: int, j: int|
                        #![trigger records@[i], records@[j]]
                        0 <= i <= j < records@.len() ==> row_at_most(
                            records@[i].row(),
                            records@[j].row(),
                        )
                    &&& forall|i: int|
                        0 <= i < records@.len() ==> order::sorted(
                            (#[trigger] records@[i]).owners@,
                        ) && owner_models(records@[i].owners@).to_multiset() == owners_of(
                            self@.owners,
                            records@[i].artifact_uid,
                        ).to_multiset()
                },
                Err(e) => owner is Some && !owner_ok(owner->0@) && e@ is InvalidOwner,
            },
    {
        if let Some(owner) = owner {
            match validate_owner(owner) {
                Ok(_) => {},
                Err(error) => {
                    return Err(error);
                },
            }
        }
        let ghost who = owner_opt(owner);
        let ghost keep = |row: RowModel|
            who is None || is_owned_by(self@.owners, row.artifact_uid, who->0);
        let ghost all = self@.artifacts;
        let mut rows: Vec<ArtifactRow> = Vec::new();
        let mut i: usize = 0;
        assert(all.subrange(0, 0) =~= Seq::<RowModel>::empty());
        proof {
            reveal(Seq::filter);
            assert(row_models(rows@) =~= all.subrange(0, 0).filter(keep));
        }
        while i < self.artifacts.len()
            invariant
                i <= self.artifacts.len(),
                all == self@.artifacts,
                who == owner_opt(owner),
                keep == (|row: RowModel|
                    who is None || is_owned_by(self@.owners, row.artifact_uid, who->0)),
                row_models(rows@) == all.subrange(0, i as int).filter(keep),
            decreases self.artifacts.len() - i,
        {
            let row = &self.artifacts[i];
            let ghost part = all.subrange(0, i + 1);
            assert(part.drop_last() =~= all.subrange(0, i as int));
            assert(part.last() == row@);
            proof {
                reveal(Seq::filter);
            }
            let wanted = match owner {
                Some(owner) => rows_have_owned(&self.owners, row.artifact_uid, owner),
                None => true,
            };
            assert(wanted == keep(row@));
            if wanted {
                let ghost before = row_models(rows@);
                rows.push(row.clone());
                assert(row_models(rows@) =~= before.push(row@));
            }
            i += 1;
        }
        assert(all.subrange(0, all.len() as int) =~= all);
        let ghost unsorted = rows@;
        let rows = order::sort(rows);
        proof {
            lemma_same_rows(rows@, unsorted);
        }
        let mut records: Vec<LocalArtifactRecord> = Vec::new();
        let mut k: usize = 0;
        while k < rows.len()
            invariant
                k <= rows.len(),
                records.len() == k,
                order::sorted(rows@),
                forall|j: int| 0 <= j < k ==> (#[trigger] records@[j]).row() == rows@[j]@,
                forall|j: int|
                    0 <= j < k ==> order::sorted((#[trigger] records@[j]).owners@)
                        && owner_models(records@[j].owners@).to_multiset() == owners_of(
                        self@.owners,
                        records@[j].artifact_uid,
                    ).to_multiset(),
            decreases rows.len() - k,
        {
            let row = rows[k].clone();
            let owners = self.owners_in_order(row.artifact_uid);
            records.push(LocalArtifactRecord::of_row(row, owners));
            k += 1;
        }
        assert(record_rows(records@) =~= row_models(rows@));
        proof {
            assert forall|i: int, j: int|
                #![trigger records@[i], records@[j]]
                0 <= i <= j < records@.len() implies row_at_most(
                records@[i].row(),
                records@[j].row(),
            ) by {
                assert(rows@[i].at_most(&rows@[j]));
            }
        }
        Ok(records)
    }
}

// ---------------------------------------------------------------------------
// Taking a file in.

/// Where the artifacts and their database are.
#[derive(Clone, Debug)]
pub struct LocalArtifactRepository {
    database_path: String,
    root: String,
}

/// The paths that a repository holds.
pub struct RepositoryModel {
    pub database_path: Seq<char>,
    pub root: Seq<char>,
}

impl View for LocalArtifactRepository {
    type V = RepositoryModel;

    closed spec fn view(&self) -> RepositoryModel {
        RepositoryModel { database_path: self.database_path@, root: self.root@ }
    }
}

/// The directory of the kept files.
pub open spec fn objects_of(root: Seq<char>) -> Seq<char> {
    paths::join(root, "objects"@)
}

/// What was found when a directory was resolved: its path, or what went wrong.
pub type Resolved = Result<String, String>;

/// The paths of a repository before its root is resolved.
pub struct RepositoryPaths {
    pub database_path: String,
    pub root: String,
}

impl LocalArtifactRepository {
    /// The paths that belong to the database of the current scope, where
    /// `parent` is the directory of the database, if it has one.
    pub fn open_current_scope(database_path: &str, parent: Option<&str>) -> (r: Result<
        RepositoryPaths,
        LocalArtifactError,
    >)
        ensures
            match r {
                Ok(p) => parent is Some && p.database_path@ == database_path@ && p.root@
                    == paths::join(parent->0@, LOCAL_ARTIFACT_DIRECTORY@),
                Err(e) => parent is None && e@ == LocalArtifactError::<Seq<char>>::Storage(
                    "local persistence path has no parent: "@ + database_path@,
                ),
            },
    {
        match parent {
            Some(parent) => Ok(
                RepositoryPaths {
                    database_path: database_path.to_owned(),
                    root: paths::join_path(parent, LOCAL_ARTIFACT_DIRECTORY),
                },
            ),
            None => Err(
                LocalArtifactError::Storage(
                    text::joined("local persistence path has no parent: ", database_path),
                ),
            ),
        }
    }

    /// The paths of a repository that lies in a directory of its own.
    pub fn in_directory(directory: &str) -> (r: RepositoryPaths)
        ensures
            r.database_path@ == paths::join(directory@, "local-artifacts.sqlite"@),
            r.root@ == paths::join(directory@, LOCAL_ARTIFACT_DIRECTORY@),
    {
        RepositoryPaths {
            database_path: paths::join_path(directory, "local-artifacts.sqlite"),
            root: paths::join_path(directory, LOCAL_ARTIFACT_DIRECTORY),
        }
    }

    /// The repository at these paths, once its directories are there and its
    /// root has been resolved.
    pub fn open(paths: RepositoryPaths, resolved_root: Resolved) -> (r: Result<
        Self,
        LocalArtifactError,
    >)
        ensures
            match r {
                Ok(repository) => resolved_root is Ok && repository@.database_path
                    == paths.database_path@ && repository@.root == resolved_root->Ok_0@,
                Err(e) => resolved_root is Err && e@ == LocalArtifactError::<Seq<char>>::Storage(
                    "resolving artifact root: "@ + resolved_root->Err_0@,
                ),
            },
    {
        match resolved_root {
            Ok(root) => Ok(LocalArtifactRepository { database_path: paths.database_path, root }),
            Err(error) => Err(
                LocalArtifactError::Storage(
                    text::joined("resolving artifact root: ", error.as_str()),
                ),
            ),
        }
    }

    pub fn root(&self) -> (r: &str)
        ensures
            r@ == self@.root,
    {
        self.root.as_str()
    }

    pub fn database_path(&self) -> (r: &str)
        ensures
            r@ == self@.database_path,
    {
        self.database_path.as_str()
    }

    /// The directory of the kept files.
    pub fn objects_root(&self) -> (r: String)
        ensures
            r@ == objects_of(self@.root),
    {
        paths::join_path(self.root.as_str(), "objects")
    }
}

/// What kind of file a source is.
#[derive(Clone, Copy, Debug, PartialEq, Eq, Structural)]
pub struct SourceMetadata {
    /// Whether it is a regular file.
    pub is_file: bool,
    pub len: u64,
}

/// What was found at the path of a source.
pub struct SourceProbe {
    /// The resolved path, if there is one.
    pub resolved: Option<String>,
    /// What the file is, if it could be examined.
    pub metadata: Option<SourceMetadata>,
}

/// Why a source cannot be taken in, if it cannot.
pub open spec fn source_problem(source: Seq<char>, probe: SourceProbe) -> Option<ErrorModel> {
    match probe.resolved {
        None => Some(LocalArtifactError::InvalidSource(source)),
        Some(path) => match probe.metadata {
            None => Some(LocalArtifactError::InvalidSource(path@)),
            Some(SourceMetadata { is_file, len }) => if !is_file {
                Some(LocalArtifactError::InvalidSource(path@))
            } else if len == 0 {
                Some(LocalArtifactError::EmptySource)
            } else if len > MAX_ARTIFACT_BYTES {
                Some(LocalArtifactError::TooLarge)
            } else {
                None
            },
        },
    }
}

/// Why an import cannot begin, if it cannot.
pub open spec fn import_problem(
    source: Seq<char>,
    probe: SourceProbe,
    owner: OwnerModel,
    description: Option<Seq<char>>,
) -> Option<ErrorModel> {
    if !owner_ok(owner) {
        Some(LocalArtifactError::InvalidOwner)
    } else if !description_ok(description) {
        Some(LocalArtifactError::DescriptionTooLong)
    } else {
        source_problem(source, probe)
    }
}

/// The name that is shown of a kept file.
pub open spec fn shown_name(source: Seq<char>) -> Seq<char> {
    match paths::file_name(source) {
        Some(name) => if text::is_blank(name) {
            "artifact"@
        } else {
            name
        },
        None => "artifact"@,
    }
}

/// The name of a kept file.
pub open spec fn kept_name(uid: u128, source: Seq<char>) -> Seq<char> {
    match kept_extension(source) {
        Some(extension) => ids::hyphenated(uid) + "."@ + extension,
        None => ids::hyphenated(uid),
    }
}

/// What an import is going to do.
pub struct ImportPlan<S = String> {
    pub artifact_uid: u128,
    pub source_path: S,
    pub filename: S,
    /// The directory of the kept file.
    pub directory: S,
    pub destination: S,
    /// The file that the contents are first copied to.
    pub temporary: S,
    pub description: Option<S>,
    pub expected_bytes: u64,
}

pub type PlanModel = ImportPlan<Seq<char>>;

impl View for ImportPlan<String> {
    type V = PlanModel;

    open spec fn view(&self) -> PlanModel {
        ImportPlan {
            artifact_uid: self.artifact_uid,
            source_path: self.source_path@,
            filename: self.filename@,
            directory: self.directory@,
            destination: self.destination@,
            temporary: self.temporary@,
            description: text::text_opt(self.description),
            expected_bytes: self.expected_bytes,
        }
    }
}

/// What an import with the identifier `uid` is going to do.
pub open spec fn plan_of(
    root: Seq<char>,
    source: Seq<char>,
    len: u64,
    description: Option<Seq<char>>,
    uid: u128,
) -> PlanModel {
    let directory = paths::join(objects_of(root), ids::hyphenated(uid).subrange(0, 2));
    ImportPlan {
        artifact_uid: uid,
        source_path: source,
        filename: shown_name(source),
        directory,
        destination: paths::join(directory, kept_name(uid, source)),
        temporary: paths::join(directory, "."@ + ids::hyphenated(uid) + ".partial"@),
        description: normal_description(description),
        expected_bytes: len,
    }
}

fn check_source(source: &str, probe: &SourceProbe) -> (r: Result<(String, u64), LocalArtifactError>)
    ensures
        match r {
            Ok((path, len)) => source_problem(source@, *probe) is None && probe.resolved is Some
                && probe.resolved->0@ == path@ && probe.metadata is Some && probe.metadata->0.len
                == len,
            Err(e) => source_problem(source@, *probe) == Some(e@),
        },
{
    let path = match &probe.resolved {
        Some(path) => path.clone(),
        None => {
            return Err(LocalArtifactError::InvalidSource(source.to_owned()));
        },
    };
    match probe.metadata {
        None => Err(LocalArtifactError::InvalidSource(path)),
        Some(SourceMetadata { is_file, len }) => if !is_file {
            Err(LocalArtifactError::InvalidSource(path))
        } else if len == 0 {
            Err(LocalArtifactError::EmptySource)
        } else if len > MAX_ARTIFACT_BYTES {
            Err(LocalArtifactError::TooLarge)
        } else {
            Ok((path, len))
        },
    }
}

fn name_to_show(source: &str) -> (r: String)
    ensures
        r@ == shown_name(source@),
{
    match paths::path_file_name(source) {
        Some(name) => if text::blank(name.as_str()) {
            "artifact".to_owned()
        } else {
            name
        },
        None => "artifact".to_owned(),
    }
}

impl LocalArtifactRepository {
    /// Checks what is to be imported and says what the import, under the
    /// identifier `artifact_uid`, is going to do.
    pub fn import_path_as(
        &self,
        source: &str,
        probe: &SourceProbe,
        owner: &LocalArtifactOwner,
        description: Option<String>,
        artifact_uid: u128,
    ) -> (r: Result<ImportPlan, LocalArtifactError>)
        ensures
            match r {
                Ok(plan) => import_problem(
                    source@,
                    *probe,
                    owner@,
                    text::text_opt(description),
                ) is None && plan@ == plan_of(
                    self@.root,
                    probe.resolved->0@,
                    probe.metadata->0.len,
                    text::text_opt(description),
                    artifact_uid,
                ),
                Err(e) => import_problem(source@, *probe, owner@, text::text_opt(description))
                    == Some(e@),
            },
    {
        match validate_owner(owner) {
            Ok(_) => {},
            Err(error) => {
                return Err(error);
            },
        }
        let description = match normalize_description(description) {
            Ok(description) => description,
            Err(error) => {
                return Err(error);
            },
        };
        let (source_path, expected_bytes) = match check_source(source, probe) {
            Ok(found) => found,
            Err(error) => {
                return Err(error);
            },
        };
        let filename = name_to_show(source_path.as_str());
        let uid_text = ids::uuid_text(artifact_uid);
        let uid_chars = text::chars_of(uid_text.as_str());
        let shard = text::string_from(&uid_chars, 0, 2);
        let directory = paths::join_path(self.objects_root().as_str(), shard.as_str());
        let name = match safe_extension(source_path.as_str()) {
            Some(extension) => text::concat3(uid_text.as_str(), ".", extension.as_str()),
            None => uid_text.clone(),
        };
        let destination = paths::join_path(directory.as_str(), name.as_str());
        let temporary = paths::join_path(
            directory.as_str(),
            text::concat3(".", uid_text.as_str(), ".partial").as_str(),
        );
        Ok(
            ImportPlan {
                artifact_uid,
                source_path,
                filename,
                directory,
                destination,
                temporary,
                description,
                expected_bytes,
            },
        )
    }

    /// Checks what is to be imported and says what the import, under a fresh
    /// identifier, is going to do.
    pub fn import_path(
        &self,
        source: &str,
        probe: &SourceProbe,
        owner: &LocalArtifactOwner,
        description: Option<String>,
    ) -> (r: Result<ImportPlan, LocalArtifactError>)
        ensures
            match r {
                Ok(plan) => import_problem(
                    source@,
                    *probe,
                    owner@,
                    text::text_opt(description),
                ) is None && ids::is_v4(plan.artifact_uid) && plan@ == plan_of(
                    self@.root,
                    probe.resolved->0@,
                    probe.metadata->0.len,
                    text::text_opt(description),
                    plan.artifact_uid,
                ),
                Err(e) => import_problem(source@, *probe, owner@, text::text_opt(description))
                    == Some(e@),
            },
    {
        let uid: u128 = ids::random_uuid();
        self.import_path_as(source, probe, owner, description, uid)
    }
}

/// Whether a copy has grown too large.
pub fn append_copied(contents: &mut Vec<u8>, part: &[u8]) -> (r: Result<(), LocalArtifactError>)
    ensures
        match r {
            Ok(_) => old(contents)@.len() + part@.len() <= MAX_ARTIFACT_BYTES && final(contents)@
                == old(contents)@ + part@,
            Err(e) => old(contents)@.len() + part@.len() > MAX_ARTIFACT_BYTES && final(contents)@
                == old(contents)@ && e@ == LocalArtifactError::<Seq<char>>::Storage(
                "artifact exceeded size limit while copying"@,
            ),
        },
{
    let ghost start = contents@;
    let limit: usize = 268_435_456;
    if contents.len() > limit || part.len() > limit - contents.len() {
        return Err(
            LocalArtifactError::Storage("artifact exceeded size limit while copying".to_owned()),
        );
    }
    let mut i: usize = 0;
    assert(part@.subrange(0, 0) =~= Seq::<u8>::empty());
    while i < part.len()
        invariant
            i <= part.len(),
            contents@ == start + part@.subrange(0, i as int),
        decreases part.len() - i,
    {
        contents.push(part[i]);
        i += 1;
        assert(part@.subrange(0, i as int) =~= part@.subrange(0, i - 1).push(part@[i - 1]));
    }
    assert(part@.subrange(0, part@.len() as int) =~= part@);
    Ok(())
}

/// The problem with a copy of another size than its source had.
pub open spec fn changed_while_copied(expected: u64, copied: nat) -> ErrorModel {
    LocalArtifactError::Storage(
        "artifact changed while being copied: expected "@ + text::decimal(expected as nat)
            + " bytes, copied "@ + text::decimal(copied),
    )
}

/// What is recorded of a file with these contents that was taken in as planned.
pub open spec fn imported_row(
    plan: PlanModel,
    contents: Seq<u8>,
    mime_type: Seq<char>,
    is_image: bool,
    created_at: i64,
) -> RowModel {
    ArtifactRow {
        artifact_uid: plan.artifact_uid,
        kind: if is_image {
            LocalArtifactKind::Screenshot
        } else {
            LocalArtifactKind::File
        },
        local_path: plan.destination,
        source_path: plan.source_path,
        filename: plan.filename,
        mime_type,
        checksum_sha256: digest::digest_of(contents),
        size_bytes: contents.len() as i64,
        description: plan.description,
        created_at,
    }
}

impl ImportPlan {
    /// Whether the copy holds as many bytes as the source did.
    pub fn check_copied(&self, copied_bytes: usize) -> (r: Result<(), LocalArtifactError>)
        ensures
            match r {
                Ok(_) => copied_bytes == self.expected_bytes,
                Err(e) => copied_bytes != self.expected_bytes && e@ == changed_while_copied(
                    self.expected_bytes,
                    copied_bytes as nat,
                ),
            },
    {
        if copied_bytes as u64 == self.expected_bytes {
            Ok(())
        } else {
            Err(
                LocalArtifactError::Storage(
                    text::concat4(
                        "artifact changed while being copied: expected ",
                        text::decimal_text(self.expected_bytes).as_str(),
                        " bytes, copied ",
                        text::decimal_usize(copied_bytes).as_str(),
                    ),
                ),
            )
        }
    }

    /// What is recorded of the file, once its contents are in place.
    pub fn row(
        &self,
        contents: &Vec<u8>,
        mime_type: String,
        is_image: bool,
        created_at: i64,
    ) -> (r: ArtifactRow)
        requires
            contents.len() == self.expected_bytes,
            contents.len() <= MAX_ARTIFACT_BYTES,
        ensures
            r@ == imported_row(self@, contents@, mime_type@, is_image, created_at),
            is_checksum(r@.checksum_sha256),
    {
        let checksum_sha256 = digest::digest_text(contents.as_slice());
        proof {
            digest::lemma_hex_digits(digest::sha256_of(contents@));
            assert forall|i: int| 0 <= i < 64 implies is_hex_digit(
                #[trigger] checksum_sha256@[i],
            ) by {}
        }
        ArtifactRow {
            artifact_uid: self.artifact_uid,
            kind: if is_image {
                LocalArtifactKind::Screenshot
            } else {
                LocalArtifactKind::File
            },
            local_path: self.destination.clone(),
            source_path: self.source_path.clone(),
            filename: self.filename.clone(),
            mime_type,
            checksum_sha256,
            size_bytes: contents.len() as i64,
            description: text::clone_opt(&self.description),
            created_at,
        }
    }
}

/// The next step of an import, with the error that it will end with where that
/// is decided.
pub enum ImportPhase<E> {
    /// Make the directory of the kept file.
    MakeDirectory,
    /// Copy the source to the temporary file.
    Copy,
    /// Close the temporary file to others.
    Protect,
    /// Move the temporary file to its place.
    Move,
    /// Record the artifact.
    Record,
    /// Remove the temporary file after a failure.
    DropTemporary(E),
    /// Remove the kept file after a failure.
    DropDestination(E),
    /// The artifact has been taken in, or not.
    Done(Result<(), E>),
}

/// The step that follows, given how the last one went.
pub open spec fn next_import_phase<E>(phase: ImportPhase<E>, outcome: Result<(), E>) -> ImportPhase<
    E,
> {
    match phase {
        ImportPhase::MakeDirectory => match outcome {
            Ok(_) => ImportPhase::Copy,
            Err(e) => ImportPhase::Done(Err(e)),
        },
        ImportPhase::Copy => match outcome {
            Ok(_) => ImportPhase::Protect,
            Err(e) => ImportPhase::DropTemporary(e),
        },
        ImportPhase::Protect => match outcome {
            Ok(_) => ImportPhase::Move,
            Err(e) => ImportPhase::DropTemporary(e),
        },
        ImportPhase::Move => match outcome {
            Ok(_) => ImportPhase::Record,
            Err(e) => ImportPhase::DropTemporary(e),
        },
        ImportPhase::Record => match outcome {
            Ok(_) => ImportPhase::Done(Ok(())),
            Err(e) => ImportPhase::DropDestination(e),
        },
        ImportPhase::DropTemporary(e) => ImportPhase::Done(Err(e)),
        ImportPhase::DropDestination(e) => ImportPhase::Done(Err(e)),
        ImportPhase::Done(result) => ImportPhase::Done(result),
    }
}

impl<E> ImportPhase<E> {
    /// The step with which an import starts.
    pub fn first() -> (r: Self)
        ensures
            r is MakeDirectory,
    {
        ImportPhase::MakeDirectory
    }

    /// The step that follows, given how this one went.
    pub fn advance(self, outcome: Result<(), E>) -> (r: Self)
        ensures
            r == next_import_phase(self, outcome),
    {
        match self {
            ImportPhase::MakeDirectory => match outcome {
                Ok(_) => ImportPhase::Copy,
                Err(e) => ImportPhase::Done(Err(e)),
            },
            ImportPhase::Copy => match outcome {
                Ok(_) => ImportPhase::Protect,
                Err(e) => ImportPhase::DropTemporary(e),
            },
            ImportPhase::Protect => match outcome {
                Ok(_) => ImportPhase::Move,
                Err(e) => ImportPhase::DropTemporary(e),
            },
            ImportPhase::Move => match outcome {
                Ok(_) => ImportPhase::Record,
                Err(e) => ImportPhase::DropTemporary(e),
            },
            ImportPhase::Record => match outcome {
                Ok(_) => ImportPhase::Done(Ok(())),
                Err(e) => ImportPhase::DropDestination(e),
            },
            ImportPhase::DropTemporary(e) => ImportPhase::Done(Err(e)),
            ImportPhase::DropDestination(e) => ImportPhase::Done(Err(e)),
            ImportPhase::Done(result) => ImportPhase::Done(result),
        }
    }
}

/// Which files of an import are there.
pub struct ImportFiles {
    pub temporary: bool,
    pub destination: bool,
}

/// Which files may be there after a step, given how it went. A step that
/// removes a file is taken to remove it.
pub open spec fn files_after<E>(
    phase: ImportPhase<E>,
    outcome: Result<(), E>,
    before: ImportFiles,
    after: ImportFiles,
) -> bool {
    match phase {
        ImportPhase::Copy => after.destination == before.destination && (outcome is Ok
            ==> after.temporary),
        ImportPhase::Move => if outcome is Ok {
            !after.temporary && after.destination == before.temporary
        } else {
            after == before
        },
        ImportPhase::DropTemporary(_) => !after.temporary && after.destination
            == before.destination,
        ImportPhase::DropDestination(_) => after.temporary == before.temporary
            && !after.destination,
        _ => after == before,
    }
}

/// Which files are there when a step is due.
pub open spec fn files_at<E>(phase: ImportPhase<E>, files: ImportFiles) -> bool {
    match phase {
        ImportPhase::MakeDirectory => !files.temporary && !files.destination,
        ImportPhase::Copy => !files.temporary && !files.destination,
        ImportPhase::Protect => files.temporary && !files.destination,
        ImportPhase::Move => files.temporary && !files.destination,
        ImportPhase::Record => !files.temporary && files.destination,
        ImportPhase::DropTemporary(_) => !files.destination,
        ImportPhase::DropDestination(_) => !files.temporary && files.destination,
        ImportPhase::Done(result) => !files.temporary && files.destination == (result is Ok),
    }
}

/// The number of steps that are still to come, at most.
pub open spec fn import_steps_left<E>(phase: ImportPhase<E>) -> nat {
    match phase {
        ImportPhase::MakeDirectory => 6,
        ImportPhase::Copy => 5,
        ImportPhase::Protect => 4,
        ImportPhase::Move => 3,
        ImportPhase::Record => 2,
        ImportPhase::DropTemporary(_) => 1,
        ImportPhase::DropDestination(_) => 1,
        ImportPhase::Done(_) => 0,
    }
}

/// Every step of an import keeps account of its files: when it is over, the
/// temporary file is gone, and the kept file is there if and only if the
/// import succeeded.
pub proof fn law_import_leaves_nothing_behind<E>(
    phase: ImportPhase<E>,
    outcome: Result<(), E>,
    before: ImportFiles,
    after: ImportFiles,
)
    requires
        files_at(phase, before),
        files_after(phase, outcome, before, after),
    ensures
        files_at(next_import_phase(phase, outcome), after),
{
}

/// An import ends.
pub proof fn law_import_ends<E>(phase: ImportPhase<E>, outcome: Result<(), E>)
    requires
        !(phase is Done),
    ensures
        import_steps_left(next_import_phase(phase, outcome)) < import_steps_left(phase),
{
}

// ---------------------------------------------------------------------------
// Finding a file again.

/// Why a path is not one of a kept file, if it is not, where `root` and `path`
/// are what the directory of the kept files and the path resolved to.
pub open spec fn managed_outcome(
    root: Result<Seq<char>, Seq<char>>,
    path: Result<Seq<char>, Seq<char>>,
    is_file: bool,
) -> Result<Seq<char>, ErrorModel> {
    if root is Err {
        Err(LocalArtifactError::Storage("resolving artifact root: "@ + root->Err_0))
    } else if path is Err {
        Err(LocalArtifactError::Storage("resolving artifact path: "@ + path->Err_0))
    } else if !paths::is_within(path->Ok_0, root->Ok_0) || !is_file {
        Err(LocalArtifactError::UnsafeManagedPath)
    } else {
        Ok(path->Ok_0)
    }
}

pub open spec fn resolved_model(r: Resolved) -> Result<Seq<char>, Seq<char>> {
    match r {
        Ok(p) => Ok(p@),
        Err(e) => Err(e@),
    }
}

pub open spec fn path_result(r: Result<String, LocalArtifactError>) -> Result<
    Seq<char>,
    ErrorModel,
> {
    match r {
        Ok(p) => Ok(p@),
        Err(e) => Err(e@),
    }
}

/// Checks that a path is one of a kept file.
pub fn validate_managed_file(root: Resolved, path: Resolved, is_file: bool) -> (r: Result<
    String,
    LocalArtifactError,
>)
    ensures
        path_result(r) == managed_outcome(resolved_model(root), resolved_model(path), is_file),
{
    let root = match root {
        Ok(root) => root,
        Err(error) => {
            return Err(
                LocalArtifactError::Storage(
                    text::joined("resolving artifact root: ", error.as_str()),
                ),
            );
        },
    };
    let path = match path {
        Ok(path) => path,
        Err(error) => {
            return Err(
                LocalArtifactError::Storage(
                    text::joined("resolving artifact path: ", error.as_str()),
                ),
            );
        },
    };
    if !paths::path_is_within(path.as_str(), root.as_str()) || !is_file {
        return Err(LocalArtifactError::UnsafeManagedPath);
    }
    Ok(path)
}

/// Gives a record out with the path of its file, if the contents of the file
/// are what was recorded.
pub fn resolve_verified_path(
    artifact_uid: u128,
    record: Option<LocalArtifactRecord>,
    path: String,
    contents: &Vec<u8>,
) -> (r: Result<LocalArtifactRecord, LocalArtifactError>)
    ensures
        match r {
            Ok(found) => record is Some && digest::digest_of(contents@)
                == record->0.checksum_sha256@ && found.row() == (ArtifactRow {
                local_path: path@,
                ..record->0.row()
            }) && found.owners == record->0.owners,
            Err(e) => if record is None {
                e@ == LocalArtifactError::<Seq<char>>::NotFound(artifact_uid)
            } else {
                digest::digest_of(contents@) != record->0.checksum_sha256@ && e@
                    == (LocalArtifactError::<Seq<char>>::ChecksumMismatch { artifact_uid })
            },
        },
{
    match record {
        None => Err(LocalArtifactError::NotFound(artifact_uid)),
        Some(record) => {
            let checksum = digest::digest_text(contents.as_slice());
            if !text::same_text(checksum.as_str(), record.checksum_sha256.as_str()) {
                return Err(LocalArtifactError::ChecksumMismatch { artifact_uid });
            }
            let mut found = record;
            found.local_path = path;
            Ok(found)
        },
    }
}

// ---------------------------------------------------------------------------
// Laws.

/// An artifact that several own stays while one of them has not let go.
pub proof fn law_shared_artifact_stays(m: IndexModel, uid: u128, a: OwnerModel, b: OwnerModel)
    requires
        m.valid(),
        is_owned_by(m.owners, uid, b),
        a != b,
    ensures
        is_listed(m.release(a).artifacts, uid),
        is_owned_by(m.release(a).owners, uid, b),
{
    let after = m.release(a);
    lemma_kept_for_others(m.owners, a);
    lemma_release_valid(m, a);
    let k = choose|k: int|
        0 <= k < m.owners.len() && (#[trigger] m.owners[k]).artifact_uid == uid
            && m.owners[k].owner == b;
    assert(m.owners.contains(m.owners[k]));
    assert(after.owners.contains(m.owners[k]));
    let j = choose|j: int| 0 <= j < after.owners.len() && after.owners[j] == m.owners[k];
    assert(after.owners[j].artifact_uid == uid);
    assert(is_listed(after.artifacts, after.owners[j].artifact_uid));
}

/// When the only owner of an artifact lets go, it is no longer recorded.
pub proof fn law_last_owner_takes_the_artifact_along(m: IndexModel, uid: u128, owner: OwnerModel)
    requires
        m.valid(),
        is_owned_by(m.owners, uid, owner),
        forall|other: OwnerModel| is_owned_by(m.owners, uid, other) ==> other == owner,
    ensures
        !is_listed(m.release(owner).artifacts, uid),
        !has_owner(m.release(owner).owners, uid),
{
    let after = m.release(owner);
    lemma_kept_for_others(m.owners, owner);
    lemma_left_by(m.artifacts, m.owners, owner);
    if has_owner(after.owners, uid) {
        let j = choose|j: int|
            0 <= j < after.owners.len() && (#[trigger] after.owners[j]).artifact_uid == uid;
        assert(after.owners.contains(after.owners[j]));
        let k = choose|k: int| 0 <= k < m.owners.len() && m.owners[k] == after.owners[j];
        assert(is_owned_by(m.owners, uid, m.owners[k].owner));
    }
    if is_listed(after.artifacts, uid) {
        let j = choose|j: int|
            0 <= j < after.artifacts.len() && (#[trigger] after.artifacts[j]).artifact_uid == uid;
        assert(after.artifacts.contains(after.artifacts[j]));
    }
}

/// An artifact that an owner does not keep is left as it is when that owner
/// lets go.
pub proof fn law_release_leaves_what_others_keep(m: IndexModel, row: RowModel, owner: OwnerModel)
    requires
        m.artifacts.contains(row),
        !is_owned_by(m.owners, row.artifact_uid, owner),
    ensures
        m.release(owner).artifacts.contains(row),
{
    lemma_left_by(m.artifacts, m.owners, owner);
}

/// What an owner who lets go gets to remove is what is no longer recorded.
pub proof fn law_removed_files_are_no_longer_recorded(m: IndexModel, i: int, owner: OwnerModel)
    requires
        m.valid(),
        0 <= i < m.artifacts.len(),
    ensures
        let_go(m.artifacts, m.owners, owner).contains(
            (m.artifacts[i].artifact_uid, m.artifacts[i].local_path),
        ) <==> !is_listed(m.release(owner).artifacts, m.artifacts[i].artifact_uid),
{
    let row = m.artifacts[i];
    let uid = row.artifact_uid;
    let gone = let_go(m.artifacts, m.owners, owner);
    lemma_left_by(m.artifacts, m.owners, owner);
    lemma_let_go(m.artifacts, m.owners, owner);
    let after = m.release(owner).artifacts;
    assert(m.artifacts.contains(row));
    if stays(m.owners, owner, uid) {
        assert(after.contains(row));
        let k = choose|k: int| 0 <= k < after.len() && after[k] == row;
        assert(after[k].artifact_uid == uid);
        if gone.contains((uid, row.local_path)) {
            let a = choose|a: int|
                0 <= a < m.artifacts.len() && (#[trigger] m.artifacts[a]).artifact_uid == uid
                    && m.artifacts[a].local_path == row.local_path && !stays(
                    m.owners,
                    owner,
                    m.artifacts[a].artifact_uid,
                );
        }
    } else {
        if is_listed(after, uid) {
            let k = choose|k: int|
                0 <= k < after.len() && (#[trigger] after[k]).artifact_uid == uid;
            assert(after.contains(after[k]));
        }
        assert(removed_from(m.artifacts, m.owners, owner, uid, row.local_path));
    }
}

/// Whether a pair is that of an artifact that does not stay.
spec fn removed_from(
    artifacts: Seq<RowModel>,
    owners: Seq<OwnedModel>,
    owner: OwnerModel,
    uid: u128,
    path: Seq<char>,
) -> bool {
    exists|a: int|
        0 <= a < artifacts.len() && (#[trigger] artifacts[a]).artifact_uid == uid
            && artifacts[a].local_path == path && !stays(owners, owner, artifacts[a].artifact_uid)
}

proof fn lemma_let_go(artifacts: Seq<RowModel>, owners: Seq<OwnedModel>, owner: OwnerModel)
    ensures
        forall|uid: u128, path: Seq<char>| #[trigger]
            let_go(artifacts, owners, owner).contains((uid, path)) <==> removed_from(
                artifacts,
                owners,
                owner,
                uid,
                path,
            ),
    decreases artifacts.len(),
{
    let out = let_go(artifacts, owners, owner);
    if artifacts.len() > 0 {
        let init = artifacts.drop_last();
        let gone = let_go(init, owners, owner);
        let last = artifacts.last();
        lemma_let_go(init, owners, owner);
        assert forall|uid: u128, path: Seq<char>| #[trigger]
            out.contains((uid, path)) implies removed_from(artifacts, owners, owner, uid, path) by {
            let k = choose|k: int| 0 <= k < out.len() && out[k] == (uid, path);
            if k < gone.len() {
                assert(gone[k] == (uid, path));
                assert(gone.contains((uid, path)));
                let a = choose|a: int|
                    0 <= a < init.len() && (#[trigger] init[a]).artifact_uid == uid
                        && init[a].local_path == path && !stays(
                        owners,
                        owner,
                        init[a].artifact_uid,
                    );
                assert(artifacts[a] == init[a]);
            } else {
                assert(artifacts[artifacts.len() - 1] == last);
            }
        }
        assert forall|uid: u128, path: Seq<char>|
            removed_from(artifacts, owners, owner, uid, path) implies #[trigger] out.contains(
            (uid, path),
        ) by {
            let a = choose|a: int|
                0 <= a < artifacts.len() && (#[trigger] artifacts[a]).artifact_uid == uid
                    && artifacts[a].local_path == path && !stays(
                    owners,
                    owner,
                    artifacts[a].artifact_uid,
                );
            if a < init.len() {
                assert(init[a] == artifacts[a]);
                assert(removed_from(init, owners, owner, uid, path));
                assert(gone.contains((uid, path)));
                let k = choose|k: int| 0 <= k < gone.len() && gone[k] == (uid, path);
                assert(out[k] == (uid, path));
            } else {
                assert(out[out.len() - 1] == (uid, path));
            }
        }
    }
}

/// Attaching an owner twice is the same as attaching it once.
pub proof fn law_attaching_is_idempotent(
    m: IndexModel,
    uid: u128,
    owner: OwnerModel,
    first: i64,
    second: i64,
)
    ensures
        m.attach(uid, owner, first).attach(uid, owner, second) == m.attach(uid, owner, first),
{
    let after = m.attach(uid, owner, first);
    if is_listed(m.artifacts, uid) && !is_owned_by(m.owners, uid, owner) {
        assert(after.owners[m.owners.len() as int].artifact_uid == uid);
    }
}

/// A file that was taken in is found again as long as its contents are the
/// ones that were copied.
pub proof fn law_untouched_file_is_verified(
    plan: PlanModel,
    contents: Seq<u8>,
    mime_type: Seq<char>,
    is_image: bool,
    created_at: i64,
)
    ensures
        digest::digest_of(contents) == imported_row(
            plan,
            contents,
            mime_type,
            is_image,
            created_at,
        ).checksum_sha256,
{
}

/// The kind and the identifier of an owner have 1 to 256 characters, without
/// the white space around them, and no control character.
pub proof fn law_sound_owners(owner: LocalArtifactOwner)
    ensures
        owner_ok(owner@) <==> {
            let kind = text::trimmed(owner.kind@);
            let id = text::trimmed(owner.id@);
            &&& 1 <= kind.len() <= 256
            &&& 1 <= id.len() <= 256
            &&& forall|i: int| 0 <= i < kind.len() ==> !text::is_control_code(#[trigger] kind[i])
            &&& forall|i: int| 0 <= i < id.len() ==> !text::is_control_code(#[trigger] id[i])
        },
{
}

/// A description is kept without the white space around it, up to 2000
/// characters; one of white space alone is none.
pub proof fn law_descriptions(description: Seq<char>)
    ensures
        normal_description(Some(description)) == Some(text::trimmed(description)) <==>
            text::trimmed(description).len() > 0,
        normal_description(Some(description)) is None <==> text::trimmed(description).len() == 0,
        description_ok(Some(description)) <==> text::trimmed(description).len() <= 2_000,
        normal_description(None) is None,
        description_ok(None),
{
}

/// A kept file has the extension of its source in small letters, where that is
/// of 1 to 16 ASCII letters and digits, and else none.
pub proof fn law_kept_extensions(path: Seq<char>)
    ensures
        kept_extension(path) is Some <==> ({
            let e = paths::extension(path);
            &&& e is Some
            &&& 1 <= e->0.len() <= 16
            &&& forall|i: int|
                0 <= i < e->0.len() ==> ('a' <= #[trigger] e->0[i] <= 'z' || 'A' <= e->0[i] <= 'Z'
                    || '0' <= e->0[i] <= '9')
        }),
        kept_extension(path) is Some ==> {
            let e = paths::extension(path)->0;
            let kept = kept_extension(path)->0;
            &&& kept.len() == e.len()
            &&& forall|i: int|
                0 <= i < e.len() ==> (if 'A' <= e[i] <= 'Z' {
                    #[trigger] kept[i] as int == e[i] as int + 32
                } else {
                    kept[i] == e[i]
                })
        },
{
    if paths::extension(path) is Some {
        let e = paths::extension(path)->0;
        assert forall|i: int| 0 <= i < e.len() implies (text::is_ascii_alnum(#[trigger] e[i]) <==> (
        'a' <= e[i] <= 'z' || 'A' <= e[i] <= 'Z' || '0' <= e[i] <= '9')) by {}
        assert(forall|i: int|
            0 <= i < e.len() ==> ('a' <= #[trigger] e[i] <= 'z' || 'A' <= e[i] <= 'Z' || '0' <= e[i]
                <= '9') ==> text::is_ascii_alnum(e[i]));
    }
}

/// A source is taken in exactly where it is there, is a file and holds 1 to
/// 268435456 bytes; else the reason is told.
pub proof fn law_sources_that_are_taken_in(source: Seq<char>, probe: SourceProbe)
    ensures
        source_problem(source, probe) is None <==> probe.resolved is Some && probe.metadata is Some
            && probe.metadata->0.is_file && 1 <= probe.metadata->0.len <= 268_435_456,
        probe.resolved is None ==> source_problem(source, probe) == Some(
            LocalArtifactError::<Seq<char>>::InvalidSource(source),
        ),
        probe.resolved is Some && (probe.metadata is None || !probe.metadata->0.is_file)
            ==> source_problem(source, probe) == Some(
            LocalArtifactError::<Seq<char>>::InvalidSource(probe.resolved->0@),
        ),
        source_problem(source, probe) == Some(LocalArtifactError::<Seq<char>>::EmptySource) <==> (
        probe.resolved is Some && probe.metadata is Some && probe.metadata->0.is_file
            && probe.metadata->0.len == 0),
        source_problem(source, probe) == Some(LocalArtifactError::<Seq<char>>::TooLarge) <==> (
        probe.resolved is Some && probe.metadata is Some && probe.metadata->0.is_file
            && probe.metadata->0.len > 268_435_456),
{
}

/// An import begins exactly where its owner, its description and its source are
/// sound, and the first of them that is not is told.
pub proof fn law_imports_that_begin(
    source: Seq<char>,
    probe: SourceProbe,
    owner: OwnerModel,
    description: Option<Seq<char>>,
)
    ensures
        import_problem(source, probe, owner, description) is None <==> owner_ok(owner)
            && description_ok(description) && source_problem(source, probe) is None,
        !owner_ok(owner) ==> import_problem(source, probe, owner, description) == Some(
            LocalArtifactError::<Seq<char>>::InvalidOwner,
        ),
        owner_ok(owner) && !description_ok(description) ==> import_problem(
            source,
            probe,
            owner,
            description,
        ) == Some(LocalArtifactError::<Seq<char>>::DescriptionTooLong),
        owner_ok(owner) && description_ok(description) ==> import_problem(
            source,
            probe,
            owner,
            description,
        ) == source_problem(source, probe),
{
}

/// An import goes to a file of its own below the directory of the kept files:
/// in a directory by the first two digits of its identifier, under its
/// identifier, by way of a file beside it.
pub proof fn law_planned_imports(
    plan: ImportPlan,
    root: Seq<char>,
    source: Seq<char>,
    len: u64,
    description: Option<Seq<char>>,
    uid: u128,
)
    requires
        plan@ == plan_of(root, source, len, description, uid),
    ensures
        plan.artifact_uid == uid,
        plan.source_path@ == source,
        plan.expected_bytes == len,
        plan.directory@ == paths::join(
            paths::join(root, "objects"@),
            ids::hyphenated(uid).subrange(0, 2),
        ),
        kept_extension(source) is None ==> plan.destination@ == paths::join(
            plan.directory@,
            ids::hyphenated(uid),
        ),
        kept_extension(source) is Some ==> plan.destination@ == paths::join(
            plan.directory@,
            ids::hyphenated(uid) + "."@ + kept_extension(source)->0,
        ),
        plan.temporary@ == paths::join(
            plan.directory@,
            "."@ + ids::hyphenated(uid) + ".partial"@,
        ),
        paths::file_name(source) is Some && !text::is_blank(paths::file_name(source)->0)
            ==> plan.filename@ == paths::file_name(source)->0,
        paths::file_name(source) is None || text::is_blank(paths::file_name(source)->0)
            ==> plan.filename@ == "artifact"@,
        text::text_opt(plan.description) == normal_description(description),
{
}

/// What is recorded of an import is what was planned and copied: an image is a
/// screenshot, anything else a file.
pub proof fn law_import_is_recorded_as_it_was(
    row: ArtifactRow,
    plan: ImportPlan,
    contents: Seq<u8>,
    mime_type: Seq<char>,
    is_image: bool,
    created_at: i64,
)
    requires
        row@ == imported_row(plan@, contents, mime_type, is_image, created_at),
        contents.len() <= 268_435_456,
    ensures
        row.artifact_uid == plan.artifact_uid,
        row.kind == LocalArtifactKind::Screenshot <==> is_image,
        row.kind == LocalArtifactKind::File <==> !is_image,
        row.local_path@ == plan.destination@,
        row.source_path@ == plan.source_path@,
        row.filename@ == plan.filename@,
        row.mime_type@ == mime_type,
        row.checksum_sha256@ == digest::digest_of(contents),
        row.size_bytes == contents.len(),
        text::text_opt(row.description) == text::text_opt(plan.description),
        row.created_at == created_at,
{
}

/// A record tells what its row tells.
pub proof fn law_records_tell_their_rows(record: LocalArtifactRecord, row: ArtifactRow)
    requires
        record.row() == row@,
    ensures
        record.artifact_uid == row.artifact_uid,
        record.kind == row.kind,
        record.local_path@ == row.local_path@,
        record.source_path@ == row.source_path@,
        record.filename@ == row.filename@,
        record.mime_type@ == row.mime_type@,
        record.checksum_sha256@ == row.checksum_sha256@,
        record.size_bytes == row.size_bytes,
        text::text_opt(record.description) == text::text_opt(row.description),
        record.created_at == row.created_at,
{
}

/// A row of the database is read exactly where its identifier, its kind, its
/// size and its checksum are sound, and each of its fields is what it holds.
pub proof fn law_stored_rows(stored: StoredArtifactRow, uid: Result<u128, Seq<char>>)
    ensures
        row_outcome(stored, uid) is Ok <==> {
            &&& uid is Ok
            &&& stored.kind@ == "file"@ || stored.kind@ == "screenshot"@
            &&& stored.size_bytes >= 1
            &&& stored.checksum_sha256@.len() == 64
            &&& forall|i: int|
                0 <= i < 64 ==> ('0' <= #[trigger] stored.checksum_sha256@[i] <= '9' || 'a'
                    <= stored.checksum_sha256@[i] <= 'f' || 'A' <= stored.checksum_sha256@[i]
                    <= 'F')
        },
        forall|row: ArtifactRow|
            row_outcome(stored, uid) == Ok::<RowModel, ErrorModel>(#[trigger] row@) ==> {
                &&& row.artifact_uid == uid->Ok_0
                &&& stored.kind@ == "file"@ ==> row.kind == LocalArtifactKind::File
                &&& stored.kind@ != "file"@ ==> row.kind == LocalArtifactKind::Screenshot
                &&& row.local_path@ == stored.local_path@
                &&& row.source_path@ == stored.source_path@
                &&& row.filename@ == stored.filename@
                &&& row.mime_type@ == stored.mime_type@
                &&& row.checksum_sha256@ == stored.checksum_sha256@
                &&& row.size_bytes == stored.size_bytes
                &&& text::text_opt(row.description) == text::text_opt(stored.description)
                &&& row.created_at == stored.created_at
            },
{
    let sum = stored.checksum_sha256@;
    assert forall|i: int| 0 <= i < sum.len() implies (is_hex_digit(#[trigger] sum[i]) <==> ('0'
        <= sum[i] <= '9' || 'a' <= sum[i] <= 'f' || 'A' <= sum[i] <= 'F')) by {}
    if sum.len() == 64 && forall|i: int|
        0 <= i < 64 ==> ('0' <= #[trigger] sum[i] <= '9' || 'a' <= sum[i] <= 'f' || 'A' <= sum[i]
            <= 'F') {
        assert(is_checksum(sum));
    }
}

/// A stored owner is read where its identifier is one, as it is stored.
pub proof fn law_stored_owners(stored: StoredOwnerRow, uid: Result<u128, Seq<char>>)
    ensures
        owner_row_outcome(stored, uid) is Ok <==> uid is Ok,
        forall|row: OwnerRow|
            owner_row_outcome(stored, uid) == Ok::<OwnedModel, ErrorModel>(#[trigger] row@) ==> {
                &&& row.artifact_uid == uid->Ok_0
                &&& row.owner.kind@ == stored.owner_kind@
                &&& row.owner.id@ == stored.owner_id@
                &&& row.created_at == stored.created_at
            },
{
}

/// A new artifact is recorded with its first owner, and the rest stays.
pub proof fn law_new_artifact_is_recorded(m: IndexModel, row: RowModel, owner: OwnerModel)
    ensures
        m.insert(row, owner).artifacts == m.artifacts + seq![row],
        m.insert(row, owner).owners.len() == m.owners.len() + 1,
        m.insert(row, owner).owners.last().artifact_uid == row.artifact_uid,
        m.insert(row, owner).owners.last().owner == owner,
        m.insert(row, owner).owners.last().created_at == row.created_at,
        forall|i: int|
            0 <= i < m.owners.len() ==> #[trigger] m.insert(row, owner).owners[i] == m.owners[i],
        is_owned_by(m.insert(row, owner).owners, row.artifact_uid, owner),
        m.clashes(row) <==> exists|i: int|
            0 <= i < m.artifacts.len() && ((#[trigger] m.artifacts[i]).artifact_uid
                == row.artifact_uid || m.artifacts[i].local_path == row.local_path),
{
    let after = m.insert(row, owner);
    assert(after.artifacts =~= m.artifacts + seq![row]);
    assert(after.owners[m.owners.len() as int].artifact_uid == row.artifact_uid);
}

/// Attaching an owner makes it an owner of an artifact that is there, and
/// changes nothing else.
pub proof fn law_attached_owner_keeps_the_artifact(
    m: IndexModel,
    uid: u128,
    owner: OwnerModel,
    created_at: i64,
    other: u128,
    who: OwnerModel,
)
    ensures
        m.attach(uid, owner, created_at).artifacts == m.artifacts,
        is_listed(m.artifacts, uid) ==> is_owned_by(
            m.attach(uid, owner, created_at).owners,
            uid,
            owner,
        ),
        !is_listed(m.artifacts, uid) ==> m.attach(uid, owner, created_at) == m,
        other != uid || who != owner ==> (is_owned_by(
            m.attach(uid, owner, created_at).owners,
            other,
            who,
        ) <==> is_owned_by(m.owners, other, who)),
        is_listed(m.artifacts, uid) && !is_owned_by(m.owners, uid, owner) ==> m.attach(
            uid,
            owner,
            created_at,
        ).owners == m.owners + seq![OwnerRow { artifact_uid: uid, owner, created_at }],
{
    let after = m.attach(uid, owner, created_at);
    if is_listed(m.artifacts, uid) && !is_owned_by(m.owners, uid, owner) {
        assert(after.owners =~= m.owners + seq![OwnerRow { artifact_uid: uid, owner, created_at }]);
        assert(after.owners[m.owners.len() as int].owner == owner);
        if is_owned_by(m.owners, other, who) {
            let k = choose|k: int|
                0 <= k < m.owners.len() && (#[trigger] m.owners[k]).artifact_uid == other
                    && m.owners[k].owner == who;
            assert(after.owners[k] == m.owners[k]);
        }
        if (other != uid || who != owner) && is_owned_by(after.owners, other, who) {
            let k = choose|k: int|
                0 <= k < after.owners.len() && (#[trigger] after.owners[k]).artifact_uid == other
                    && after.owners[k].owner == who;
            assert(m.owners[k] == after.owners[k]);
        }
    }
}

/// An owner who lets go owns nothing any more, and whatever others own they
/// own as before.
pub proof fn law_release_lets_one_owner_go(m: IndexModel, owner: OwnerModel, row: OwnedModel)
    ensures
        m.release(owner).owners.contains(row) <==> m.owners.contains(row) && row.owner != owner,
        forall|uid: u128| !is_owned_by(m.release(owner).owners, uid, owner),
{
    lemma_others(m.owners, owner, row);
    assert forall|uid: u128| !is_owned_by(m.release(owner).owners, uid, owner) by {
        let after = m.release(owner).owners;
        if is_owned_by(after, uid, owner) {
            let k = choose|k: int|
                0 <= k < after.len() && (#[trigger] after[k]).artifact_uid == uid && after[k].owner
                    == owner;
            lemma_others(m.owners, owner, after[k]);
            assert(after.contains(after[k]));
        }
    }
}

proof fn lemma_others(owners: Seq<OwnedModel>, owner: OwnerModel, row: OwnedModel)
    ensures
        kept_for_others(owners, owner).contains(row) <==> owners.contains(row) && row.owner
            != owner,
    decreases owners.len(),
{
    if owners.len() > 0 {
        let head = owners.drop_last();
        let init = kept_for_others(head, owner);
        let out = kept_for_others(owners, owner);
        lemma_others(head, owner, row);
        assert(owners.contains(row) <==> head.contains(row) || owners.last() == row) by {
            if head.contains(row) {
                let k = choose|k: int| 0 <= k < head.len() && head[k] == row;
                assert(owners[k] == row);
            }
            if owners.contains(row) {
                let k = choose|k: int| 0 <= k < owners.len() && owners[k] == row;
                if k < head.len() {
                    assert(head[k] == row);
                }
            }
            if owners.last() == row {
                assert(owners[owners.len() - 1] == row);
            }
        }
        assert(out.contains(row) <==> init.contains(row) || (owners.last().owner != owner
            && owners.last() == row)) by {
            if init.contains(row) {
                let k = choose|k: int| 0 <= k < init.len() && init[k] == row;
                assert(out[k] == row);
            }
            if out.contains(row) {
                let k = choose|k: int| 0 <= k < out.len() && out[k] == row;
                if k < init.len() {
                    assert(init[k] == row);
                }
            }
            if owners.last().owner != owner && owners.last() == row {
                assert(out[init.len() as int] == row);
            }
        }
    }
}

/// A cleanup leaves exactly the artifacts that somebody owns, with all owners,
/// and gives the files of the others out.
pub proof fn law_cleanup_takes_what_nobody_owns(m: IndexModel, row: RowModel)
    ensures
        m.cleanup().owners == m.owners,
        m.cleanup().artifacts.contains(row) <==> m.artifacts.contains(row) && (exists|i: int|
            0 <= i < m.owners.len() && (#[trigger] m.owners[i]).artifact_uid == row.artifact_uid),
        m.artifacts.contains(row) && !(exists|i: int|
            0 <= i < m.owners.len() && (#[trigger] m.owners[i]).artifact_uid == row.artifact_uid)
            ==> unkept_artifacts(m.artifacts, m.owners).contains(
            (row.artifact_uid, row.local_path),
        ),
{
    lemma_cleaned(m.artifacts, m.owners, row);
}

proof fn lemma_cleaned(artifacts: Seq<RowModel>, owners: Seq<OwnedModel>, row: RowModel)
    ensures
        kept_artifacts(artifacts, owners).contains(row) <==> artifacts.contains(row) && has_owner(
            owners,
            row.artifact_uid,
        ),
        artifacts.contains(row) && !has_owner(owners, row.artifact_uid) ==> unkept_artifacts(
            artifacts,
            owners,
        ).contains((row.artifact_uid, row.local_path)),
    decreases artifacts.len(),
{
    if artifacts.len() > 0 {
        let head = artifacts.drop_last();
        let init = kept_artifacts(head, owners);
        let out = kept_artifacts(artifacts, owners);
        let gone = unkept_artifacts(head, owners);
        let all = unkept_artifacts(artifacts, owners);
        let pair = (row.artifact_uid, row.local_path);
        lemma_cleaned(head, owners, row);
        assert(artifacts.contains(row) <==> head.contains(row) || artifacts.last() == row) by {
            if head.contains(row) {
                let k = choose|k: int| 0 <= k < head.len() && head[k] == row;
                assert(artifacts[k] == row);
            }
            if artifacts.contains(row) {
                let k = choose|k: int| 0 <= k < artifacts.len() && artifacts[k] == row;
                if k < head.len() {
                    assert(head[k] == row);
                }
            }
            if artifacts.last() == row {
                assert(artifacts[artifacts.len() - 1] == row);
            }
        }
        if init.contains(row) {
            let k = choose|k: int| 0 <= k < init.len() && init[k] == row;
            assert(out[k] == row);
        }
        if out.contains(row) {
            let k = choose|k: int| 0 <= k < out.len() && out[k] == row;
            if k < init.len() {
                assert(init[k] == row);
            }
        }
        if has_owner(owners, artifacts.last().artifact_uid) {
            assert(out[init.len() as int] == artifacts.last());
        } else {
            assert(all[gone.len() as int] == (
                artifacts.last().artifact_uid,
                artifacts.last().local_path,
            ));
        }
        if gone.contains(pair) {
            let k = choose|k: int| 0 <= k < gone.len() && gone[k] == pair;
            assert(all[k] == pair);
        }
    }
}

/// A list holds exactly the artifacts of its owner, or all of them where none
/// is named.
pub proof fn law_list_is_complete(m: IndexModel, owner: OwnerModel, row: RowModel)
    ensures
        rows_for(m, None).contains(row) <==> m.artifacts.contains(row),
        rows_for(m, Some(owner)).contains(row) <==> m.artifacts.contains(row) && (exists|i: int|
            0 <= i < m.owners.len() && (#[trigger] m.owners[i]).artifact_uid == row.artifact_uid
                && m.owners[i].owner == owner),
{
    lemma_listed_rows(
        m.artifacts,
        |r: RowModel| None::<OwnerModel> is None || is_owned_by(
            m.owners,
            r.artifact_uid,
            None::<OwnerModel>->0,
        ),
        row,
    );
    lemma_listed_rows(
        m.artifacts,
        |r: RowModel| Some(owner) is None || is_owned_by(
            m.owners,
            r.artifact_uid,
            Some(owner)->0,
        ),
        row,
    );
}

proof fn lemma_listed_rows(s: Seq<RowModel>, keep: spec_fn(RowModel) -> bool, row: RowModel)
    ensures
        s.filter(keep).contains(row) <==> s.contains(row) && keep(row),
    decreases s.len(),
{
    reveal(Seq::filter);
    if s.len() > 0 {
        let init = s.drop_last();
        let kept = init.filter(keep);
        let out = s.filter(keep);
        lemma_listed_rows(init, keep, row);
        if s.contains(row) {
            let k = choose|k: int| 0 <= k < s.len() && s[k] == row;
            if k < init.len() {
                assert(init[k] == row);
            }
        }
        if init.contains(row) {
            let k = choose|k: int| 0 <= k < init.len() && init[k] == row;
            assert(s[k] == row);
        }
        if kept.contains(row) {
            let k = choose|k: int| 0 <= k < kept.len() && kept[k] == row;
            assert(out[k] == row);
        }
        if out.contains(row) {
            let k = choose|k: int| 0 <= k < out.len() && out[k] == row;
            if k < kept.len() {
                assert(kept[k] == row);
            } else {
                assert(s[s.len() - 1] == row);
            }
        }
        if keep(s.last()) {
            assert(out[kept.len() as int] == s.last());
        }
    }
}

/// A newer artifact never stands behind an older one.
pub proof fn law_newer_artifacts_come_first(a: RowModel, b: RowModel)
    ensures
        a.created_at > b.created_at ==> row_at_most(a, b) && !row_at_most(b, a),
        a.created_at == b.created_at && ids::hyphenated(a.artifact_uid) == ids::hyphenated(
            b.artifact_uid,
        ) ==> row_at_most(a, b),
        a.created_at == b.created_at ==> (row_at_most(a, b) <==> text::text_at_most(
            ids::hyphenated(a.artifact_uid),
            ids::hyphenated(b.artifact_uid),
        )),
{
    text::lemma_text_total(ids::hyphenated(a.artifact_uid), ids::hyphenated(b.artifact_uid));
}

/// A kept file is given out exactly where it is a file below the directory of
/// the kept files.
pub proof fn law_kept_files_lie_below_the_root(
    root: Result<Seq<char>, Seq<char>>,
    path: Result<Seq<char>, Seq<char>>,
    is_file: bool,
)
    ensures
        managed_outcome(root, path, is_file) is Ok <==> root is Ok && path is Ok && is_file
            && paths::is_within(path->Ok_0, root->Ok_0),
        managed_outcome(root, path, is_file) is Ok ==> managed_outcome(root, path, is_file)->Ok_0
            == path->Ok_0,
        root is Ok && path is Ok && (!is_file || !paths::is_within(path->Ok_0, root->Ok_0))
            ==> managed_outcome(root, path, is_file) == Err::<Seq<char>, ErrorModel>(
            LocalArtifactError::UnsafeManagedPath,
        ),
        root is Err || path is Err ==> managed_outcome(root, path, is_file)->Err_0 is Storage,
{
}

/// An import goes on with its next step where a step succeeds, and a failure is
/// what it ends with.
pub proof fn law_import_goes_on<E>(e: E)
    ensures
        next_import_phase(ImportPhase::<E>::MakeDirectory, Ok(())) is Copy,
        next_import_phase(ImportPhase::<E>::Copy, Ok(())) is Protect,
        next_import_phase(ImportPhase::<E>::Protect, Ok(())) is Move,
        next_import_phase(ImportPhase::<E>::Move, Ok(())) is Record,
        next_import_phase(ImportPhase::<E>::Record, Ok(())) == ImportPhase::<E>::Done(Ok(())),
        next_import_phase(ImportPhase::MakeDirectory, Err(e)) == ImportPhase::Done(Err(e)),
        forall|outcome: Result<(), E>|
            #[trigger] next_import_phase(
                next_import_phase(ImportPhase::Copy, Err(e)),
                outcome,
            ) == ImportPhase::Done(Err(e)),
        forall|outcome: Result<(), E>|
            #[trigger] next_import_phase(
                next_import_phase(ImportPhase::Protect, Err(e)),
                outcome,
            ) == ImportPhase::Done(Err(e)),
        forall|outcome: Result<(), E>|
            #[trigger] next_import_phase(
                next_import_phase(ImportPhase::Move, Err(e)),
                outcome,
            ) == ImportPhase::Done(Err(e)),
        forall|outcome: Result<(), E>|
            #[trigger] next_import_phase(
                next_import_phase(ImportPhase::Record, Err(e)),
                outcome,
            ) == ImportPhase::Done(Err(e)),
{
}

/// A kind is stored under its own name.
pub proof fn law_kinds_have_names(kind: LocalArtifactKind)
    ensures
        kind is File ==> kind_text(kind) == "file"@,
        kind is Screenshot ==> kind_text(kind) == "screenshot"@,
{
}

/// The owners of an artifact are those that it is kept for, and no others.
pub proof fn law_owners_of_an_artifact(owners: Seq<OwnedModel>, uid: u128, owner: OwnerModel)
    ensures
        owners_of(owners, uid).contains(owner) <==> exists|i: int|
            0 <= i < owners.len() && (#[trigger] owners[i]).artifact_uid == uid && owners[i].owner
                == owner,
    decreases owners.len(),
{
    if owners.len() > 0 {
        let head = owners.drop_last();
        let init = owners_of(head, uid);
        let out = owners_of(owners, uid);
        law_owners_of_an_artifact(head, uid, owner);
        if init.contains(owner) {
            let k = choose|k: int| 0 <= k < init.len() && init[k] == owner;
            assert(out[k] == owner);
            let i = choose|i: int|
                0 <= i < head.len() && (#[trigger] head[i]).artifact_uid == uid && head[i].owner
                    == owner;
            assert(owners[i].artifact_uid == uid);
        }
        if out.contains(owner) {
            let k = choose|k: int| 0 <= k < out.len() && out[k] == owner;
            if k < init.len() {
                assert(init[k] == owner);
            } else {
                assert(owners[owners.len() - 1].owner == owner);
            }
        }
        if exists|i: int|
            0 <= i < owners.len() && (#[trigger] owners[i]).artifact_uid == uid && owners[i].owner
                == owner {
            let i = choose|i: int|
                0 <= i < owners.len() && (#[trigger] owners[i]).artifact_uid == uid
                    && owners[i].owner == owner;
            if i < head.len() {
                assert(head[i].owner == owner);
            } else {
                assert(out[init.len() as int] == owner);
            }
        }
    }
}

/// An artifact is found by its identifier.
pub proof fn law_artifacts_are_found(artifacts: Seq<RowModel>, uid: u128, k: int)
    requires
        0 <= k < artifacts.len(),
        artifacts[k].artifact_uid == uid,
        forall|j: int| 0 <= j < k ==> (#[trigger] artifacts[j]).artifact_uid != uid,
    ensures
        row_position(artifacts, uid, 0) == k,
{
    lemma_row_found(artifacts, uid, k, 0);
}

proof fn lemma_row_found(artifacts: Seq<RowModel>, uid: u128, k: int, from: int)
    requires
        0 <= from <= k < artifacts.len(),
        artifacts[k].artifact_uid == uid,
        forall|j: int| 0 <= j < k ==> (#[trigger] artifacts[j]).artifact_uid != uid,
    ensures
        row_position(artifacts, uid, from) == k,
    decreases k - from,
{
    if from < k {
        assert(artifacts[from].artifact_uid != uid);
        lemma_row_found(artifacts, uid, k, from + 1);
    }
}

} // verus!
