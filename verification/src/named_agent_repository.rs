//! Local named agents in files: one YAML document for each, under the name of
//! its identity.

use crate::digest;
use crate::ids;
use crate::local_named_agents;
use crate::local_named_agents::{
    LocalNamedAgentRunMetadata, NamedAgentBundle, NamedAgentError, NamedAgentRecord,
};
use crate::order;
use crate::order::Ordered;
use crate::paths;
use crate::text;
use vstd::prelude::*;

verus! {

/// The directory of the named agents in the user's data directory.
pub const LOCAL_NAMED_AGENTS_DIR: &'static str = "agents";

/// The largest file, in bytes.
pub const MAX_BUNDLE_BYTES: usize = 262_144;

pub type ErrorModel = local_named_agents::ErrorModel;

pub type RecordModel = local_named_agents::RecordModel;

// ---------------------------------------------------------------------------
// Paths.

/// The file name of a named agent or of a run.
pub open spec fn file_name_of(id: u128) -> Seq<char> {
    ids::hyphenated(id) + ".yaml"@
}

/// The identity that a path stands for, if it is that of a named agent: the
/// identity must be written in its usual form.
pub open spec fn identity_of(path: Seq<char>) -> Option<u128> {
    if paths::extension(path) != Some("yaml"@) {
        None
    } else {
        match paths::file_stem(path) {
            Some(stem) => match ids::parsed_uuid(stem) {
                Ok(id) => if stem == ids::hyphenated(id) {
                    Some(id)
                } else {
                    None
                },
                Err(_) => None,
            },
            None => None,
        }
    }
}

pub fn id_from_path(path: &str) -> (r: Option<u128>)
    ensures
        r == identity_of(path@),
{
    match paths::path_extension(path) {
        Some(extension) => if !text::same_text(extension.as_str(), "yaml") {
            return None;
        },
        None => {
            return None;
        },
    }
    match paths::path_file_stem(path) {
        Some(stem) => match ids::parse_uuid(stem.as_str()) {
            Ok(id) => if text::same_text(stem.as_str(), ids::uuid_text(id).as_str()) {
                Some(id)
            } else {
                None
            },
            Err(_) => None,
        },
        None => None,
    }
}

/// The extension and the stem of a managed file's name.
proof fn lemma_managed_name(id: u128)
    ensures
        paths::extension_of(file_name_of(id)) == Some("yaml"@),
        paths::stem_of(file_name_of(id)) == ids::hyphenated(id),
        !file_name_of(id).contains('/'),
        file_name_of(id).len() == 41,
{
    reveal_strlit(".yaml");
    reveal_strlit("yaml");
    let name = file_name_of(id);
    let text = ids::hyphenated(id);
    assert(name.len() == 41);
    assert(name[36] == ".yaml"@[0]);
    assert forall|i: int| 36 < i < name.len() implies (#[trigger] name[i]) != '.' by {
        assert(name[i] == ".yaml"@[i - 36]);
    }
    paths::lemma_last_dot(name, 36);
    assert(name.subrange(37, 41) =~= "yaml"@) by {
        assert forall|i: int| 0 <= i < 4 implies name.subrange(37, 41)[i] == "yaml"@[i] by {
            assert(name[37 + i] == ".yaml"@[i + 1]);
        }
    }
    assert(name.subrange(0, 36) =~= text);
    assert forall|i: int| 0 <= i < name.len() implies (#[trigger] name[i]) != '/' by {
        if i < 36 {
            assert(name[i] == text[i]);
            lemma_digits(id, i);
        } else {
            assert(name[i] == ".yaml"@[i - 36]);
        }
    }
}

/// The usual form of an identity holds hexadecimal digits and hyphens.
proof fn lemma_digits(id: u128, i: int)
    requires
        0 <= i < 36,
    ensures
        ids::hyphenated(id)[i] != '/',
        ids::hyphenated(id)[i] != '.',
{
    let k = if i < 8 {
        i
    } else if i < 13 {
        i - 1
    } else if i < 18 {
        i - 2
    } else if i < 23 {
        i - 3
    } else {
        i - 4
    };
    let shift = (124 - 4 * k) as u128;
    let n = (id >> shift) & 0xf;
    assert(n < 16) by (bit_vector)
        requires
            n == (id >> shift) & 0xf,
    ;
}

/// The repository of the named agents in a directory.
#[derive(Clone, Debug)]
pub struct LocalNamedAgentRepository {
    directory: String,
}

impl View for LocalNamedAgentRepository {
    type V = Seq<char>;

    closed spec fn view(&self) -> Seq<char> {
        self.directory@
    }
}

/// The problem with a directory that is a link or no directory.
pub open spec fn directory_problem(directory: Seq<char>, is_symlink: bool, is_dir: bool) -> Option<
    ErrorModel,
> {
    if is_symlink || !is_dir {
        Some(NamedAgentError::NotManaged { path: directory })
    } else {
        None
    }
}

impl LocalNamedAgentRepository {
    pub fn new(directory: &str) -> (r: Self)
        ensures
            r@ == directory@,
    {
        LocalNamedAgentRepository { directory: directory.to_owned() }
    }

    /// The repository in the user's data directory.
    pub fn for_user(data_dir: &str) -> (r: Self)
        ensures
            r@ == paths::join(data_dir@, LOCAL_NAMED_AGENTS_DIR@),
    {
        LocalNamedAgentRepository { directory: paths::join_path(data_dir, LOCAL_NAMED_AGENTS_DIR) }
    }

    pub fn directory(&self) -> (r: &str)
        ensures
            r@ == self@,
    {
        self.directory.as_str()
    }

    /// The file of a named agent. It lies directly in the directory, and its
    /// path stands for the identity.
    pub fn path_for_id(&self, id: u128) -> (r: String)
        ensures
            r@ == paths::join(self@, file_name_of(id)),
            paths::is_child(r@, self@),
            identity_of(r@) == Some(id),
    {
        let text = ids::uuid_text(id);
        let name = text::joined(text.as_str(), ".yaml");
        proof {
            lemma_managed_name(id);
            reveal_strlit("..");
            reveal_strlit(".");
            paths::lemma_join_child(self@, file_name_of(id));
        }
        paths::join_path(self.directory.as_str(), name.as_str())
    }

    /// The directory of the runs.
    pub fn runs_directory(&self) -> (r: String)
        ensures
            r@ == paths::join(self@, "runs"@),
    {
        paths::join_path(self.directory.as_str(), "runs")
    }

    /// The file of a run.
    pub fn run_path(&self, run_id: u128) -> (r: String)
        ensures
            r@ == paths::join(paths::join(self@, "runs"@), file_name_of(run_id)),
    {
        let name = text::joined(ids::uuid_text(run_id).as_str(), ".yaml");
        paths::join_path(self.runs_directory().as_str(), name.as_str())
    }

    /// The lock file of a named agent.
    pub fn lock_path(&self, id: u128) -> (r: String)
        ensures
            r@ == paths::join(self@, "."@ + ids::hyphenated(id) + ".lock"@),
    {
        let name = text::concat3(".", ids::uuid_text(id).as_str(), ".lock");
        paths::join_path(self.directory.as_str(), name.as_str())
    }
}

/// Checks what was found in the place of a directory.
pub fn ensure_managed_directory(directory: &str, is_symlink: bool, is_dir: bool) -> (r: Result<
    (),
    NamedAgentError,
>)
    ensures
        local_named_agents::problem_of(r) == directory_problem(directory@, is_symlink, is_dir),
{
    if is_symlink || !is_dir {
        return Err(NamedAgentError::NotManaged { path: directory.to_owned() });
    }
    Ok(())
}

// ---------------------------------------------------------------------------
// Failures.

/// The error for a file that cannot be read.
pub fn read_failure(id: u128, path: &str, not_found: bool, source: &str) -> (r: NamedAgentError)
    ensures
        r@ == (if not_found {
            NamedAgentError::<Seq<char>>::NotFound { id }
        } else {
            NamedAgentError::<Seq<char>>::Io { path: path@, source: source@ }
        }),
{
    if not_found {
        NamedAgentError::NotFound { id }
    } else {
        NamedAgentError::Io { path: path.to_owned(), source: source.to_owned() }
    }
}

/// The error for a lock that cannot be taken.
pub fn lock_failure(id: u128, path: &str, already_exists: bool, source: &str) -> (r:
    NamedAgentError)
    ensures
        r@ == (if already_exists {
            NamedAgentError::<Seq<char>>::Conflict {
                id,
                expected: "unlocked"@,
                actual: Some("locked"@),
            }
        } else {
            NamedAgentError::<Seq<char>>::Io { path: path@, source: source@ }
        }),
{
    if already_exists {
        NamedAgentError::Conflict {
            id,
            expected: "unlocked".to_owned(),
            actual: Some("locked".to_owned()),
        }
    } else {
        NamedAgentError::Io { path: path.to_owned(), source: source.to_owned() }
    }
}

/// The identity that the stem of a path is read as, or the nil identity.
pub open spec fn stem_identity(path: Seq<char>) -> u128 {
    match paths::file_stem(path) {
        Some(stem) => match ids::parsed_uuid(stem) {
            Ok(id) => id,
            Err(_) => 0,
        },
        None => 0,
    }
}

/// The error for a new file that cannot be put in its place.
pub fn link_failure(path: &str, already_exists: bool, source: &str) -> (r: NamedAgentError)
    ensures
        r@ == (if already_exists {
            NamedAgentError::<Seq<char>>::AlreadyExists { id: stem_identity(path@) }
        } else {
            NamedAgentError::<Seq<char>>::Io { path: path@, source: source@ }
        }),
{
    if already_exists {
        let id: u128 = match paths::path_file_stem(path) {
            Some(stem) => match ids::parse_uuid(stem.as_str()) {
                Ok(id) => id,
                Err(_) => 0,
            },
            None => 0,
        };
        NamedAgentError::AlreadyExists { id }
    } else {
        NamedAgentError::Io { path: path.to_owned(), source: source.to_owned() }
    }
}

/// The problem with a file that is too large.
pub open spec fn size_problem(size: int, what: Seq<char>) -> Option<ErrorModel> {
    if size < 0 || size > MAX_BUNDLE_BYTES {
        Some(local_named_agents::invalid(what + " exceeds size limit"@))
    } else {
        None
    }
}

fn too_large(what: &str) -> (r: NamedAgentError)
    ensures
        r@ == local_named_agents::invalid(what@ + " exceeds size limit"@),
{
    NamedAgentError::InvalidBundle { reason: text::joined(what, " exceeds size limit") }
}

/// Checks what was opened in the place of a managed file.
pub fn check_opened(path: &str, is_regular: bool, size: i64) -> (r: Result<(), NamedAgentError>)
    ensures
        local_named_agents::problem_of(r) == (if !is_regular {
            Some(NamedAgentError::<Seq<char>>::NotManaged { path: path@ })
        } else {
            size_problem(size as int, "bundle"@)
        }),
{
    if !is_regular {
        return Err(NamedAgentError::NotManaged { path: path.to_owned() });
    }
    check_size(size)
}

/// Checks the size of a file.
pub fn check_size(size: i64) -> (r: Result<(), NamedAgentError>)
    ensures
        local_named_agents::problem_of(r) == size_problem(size as int, "bundle"@),
{
    if size < 0 || size > 262_144 {
        return Err(too_large("bundle"));
    }
    Ok(())
}

/// Takes in one more part of a file, unless it makes the whole too large.
pub fn append_read(bytes: &mut Vec<u8>, part: &[u8]) -> (r: Result<(), NamedAgentError>)
    ensures
        local_named_agents::problem_of(r) == size_problem(
            (old(bytes)@.len() + part@.len()) as int,
            "bundle"@,
        ),
        r is Ok ==> final(bytes)@ == old(bytes)@ + part@,
        r is Err ==> final(bytes)@ == old(bytes)@,
{
    if bytes.len() > MAX_BUNDLE_BYTES || part.len() > MAX_BUNDLE_BYTES - bytes.len() {
        return Err(too_large("bundle"));
    }
    let ghost start = bytes@;
    let mut i: usize = 0;
    assert(part@.subrange(0, 0) =~= Seq::<u8>::empty());
    while i < part.len()
        invariant
            i <= part.len(),
            bytes@ == start + part@.subrange(0, i as int),
        decreases part.len() - i,
    {
        bytes.push(part[i]);
        i += 1;
        assert(part@.subrange(0, i as int) =~= part@.subrange(0, i - 1).push(part@[i - 1]));
    }
    assert(part@.subrange(0, part@.len() as int) =~= part@);
    Ok(())
}

/// Checks the size of a bundle that is going to be written.
pub fn check_serialized_bundle(bytes: &Vec<u8>) -> (r: Result<(), NamedAgentError>)
    ensures
        local_named_agents::problem_of(r) == size_problem(bytes.len() as int, "bundle"@),
{
    if bytes.len() > MAX_BUNDLE_BYTES {
        return Err(too_large("bundle"));
    }
    Ok(())
}

/// Checks the size of the metadata of a run that are going to be written.
pub fn check_serialized_metadata(bytes: &Vec<u8>) -> (r: Result<(), NamedAgentError>)
    ensures
        local_named_agents::problem_of(r) == size_problem(bytes.len() as int, "run metadata"@),
{
    if bytes.len() > MAX_BUNDLE_BYTES {
        return Err(too_large("run metadata"));
    }
    Ok(())
}

// ---------------------------------------------------------------------------
// Reading.

/// What a file was read as.
pub enum FileReading<T> {
    /// It is not UTF-8.
    NotText,
    /// It holds no document.
    Empty,
    /// Its first document does not fit; where and why.
    Invalid(String),
    /// Its first document, and whether there is another one.
    Document { document: T, more: bool },
}

/// The problem with the form of a file, if there is one.
pub open spec fn reading_problem<T>(path: Seq<char>, reading: FileReading<T>) -> Option<ErrorModel> {
    match reading {
        FileReading::NotText => Some(
            NamedAgentError::Parse { path, location: "invalid UTF-8"@ },
        ),
        FileReading::Empty => Some(NamedAgentError::Parse { path, location: "empty YAML"@ }),
        FileReading::Invalid(location) => Some(
            NamedAgentError::Parse { path, location: location@ },
        ),
        FileReading::Document { more, .. } => if more {
            Some(NamedAgentError::MultipleDocuments { path })
        } else {
            None
        },
    }
}

fn only_document<T>(path: &str, reading: FileReading<T>) -> (r: Result<T, NamedAgentError>)
    ensures
        match r {
            Ok(document) => reading_problem(path@, reading) is None && reading is Document
                && reading->document == document,
            Err(e) => reading_problem(path@, reading) == Some(e@),
        },
{
    match reading {
        FileReading::NotText => Err(
            NamedAgentError::Parse {
                path: path.to_owned(),
                location: "invalid UTF-8".to_owned(),
            },
        ),
        FileReading::Empty => Err(
            NamedAgentError::Parse { path: path.to_owned(), location: "empty YAML".to_owned() },
        ),
        FileReading::Invalid(location) => Err(
            NamedAgentError::Parse { path: path.to_owned(), location },
        ),
        FileReading::Document { document, more } => if more {
            Err(NamedAgentError::MultipleDocuments { path: path.to_owned() })
        } else {
            Ok(document)
        },
    }
}

/// The problem with a bundle that was read from a file, if there is one.
pub open spec fn bundle_file_problem(path: Seq<char>, reading: FileReading<NamedAgentBundle>) -> Option<
    ErrorModel,
> {
    if reading_problem(path, reading) is Some {
        reading_problem(path, reading)
    } else {
        local_named_agents::bundle_problem(reading->document@)
    }
}

/// Checks a bundle that was read from a file.
pub fn parse_bundle(path: &str, reading: FileReading<NamedAgentBundle>) -> (r: Result<
    NamedAgentBundle,
    NamedAgentError,
>)
    ensures
        match r {
            Ok(bundle) => bundle_file_problem(path@, reading) is None && bundle
                == reading->document,
            Err(e) => bundle_file_problem(path@, reading) == Some(e@),
        },
{
    let bundle = match only_document(path, reading) {
        Ok(bundle) => bundle,
        Err(error) => {
            return Err(error);
        },
    };
    if let Err(error) = bundle.validate() {
        return Err(error);
    }
    Ok(bundle)
}

/// The problem with the contents of a named agent's file, if there is one.
pub open spec fn contents_problem(
    path: Seq<char>,
    bytes: Seq<u8>,
    reading: FileReading<NamedAgentBundle>,
) -> Option<ErrorModel> {
    if size_problem(bytes.len() as int, "bundle"@) is Some {
        size_problem(bytes.len() as int, "bundle"@)
    } else {
        bundle_file_problem(path, reading)
    }
}

/// The named agent of a file, or what is wrong with the file. The revision is
/// the digest of the contents.
pub open spec fn contents_outcome(
    id: u128,
    path: Seq<char>,
    bytes: Seq<u8>,
    reading: FileReading<NamedAgentBundle>,
) -> Result<RecordModel, ErrorModel> {
    match contents_problem(path, bytes, reading) {
        Some(e) => Err(e),
        None => Ok(
            RecordModel {
                id,
                bundle: reading->document@,
                path,
                revision: digest::digest_of(bytes),
            },
        ),
    }
}

pub open spec fn record_result(r: Result<NamedAgentRecord, NamedAgentError>) -> Result<
    RecordModel,
    ErrorModel,
> {
    match r {
        Ok(record) => Ok(record@),
        Err(e) => Err(e@),
    }
}

impl LocalNamedAgentRepository {
    /// The named agent whose file holds `bytes`, which were read as `reading`.
    pub fn read(&self, id: u128, bytes: &Vec<u8>, reading: FileReading<NamedAgentBundle>) -> (r:
        Result<NamedAgentRecord, NamedAgentError>)
        ensures
            record_result(r) == contents_outcome(
                id,
                paths::join(self@, file_name_of(id)),
                bytes@,
                reading,
            ),
    {
        let path = self.path_for_id(id);
        if let Err(error) = check_serialized_bundle(bytes) {
            return Err(error);
        }
        match parse_bundle(path.as_str(), reading) {
            Ok(bundle) => Ok(
                NamedAgentRecord::new(id, bundle, path, digest::digest_text(bytes.as_slice())),
            ),
            Err(error) => Err(error),
        }
    }

    /// The same as `read`.
    pub fn get(&self, id: u128, bytes: &Vec<u8>, reading: FileReading<NamedAgentBundle>) -> (r:
        Result<NamedAgentRecord, NamedAgentError>)
        ensures
            record_result(r) == contents_outcome(
                id,
                paths::join(self@, file_name_of(id)),
                bytes@,
                reading,
            ),
    {
        self.read(id, bytes, reading)
    }
}

/// The problem with metadata of a run that were read from a file, if any.
pub open spec fn metadata_file_problem(
    path: Seq<char>,
    reading: FileReading<LocalNamedAgentRunMetadata>,
) -> Option<ErrorModel> {
    if reading_problem(path, reading) is Some {
        reading_problem(path, reading)
    } else {
        let run_id = reading->document.run_id;
        let stem = paths::file_stem(path);
        if stem is Some && ids::parsed_uuid(stem->0) is Ok && ids::parsed_uuid(stem->0)->Ok_0
            == run_id {
            None
        } else {
            Some(
                NamedAgentError::Parse {
                    path,
                    location: "run_id does not match its managed filename"@,
                },
            )
        }
    }
}

/// Checks metadata of a run that were read from a file.
fn parse_run_metadata(path: &str, reading: FileReading<LocalNamedAgentRunMetadata>) -> (r:
    Result<LocalNamedAgentRunMetadata, NamedAgentError>)
    ensures
        match r {
            Ok(metadata) => metadata_file_problem(path@, reading) is None && metadata
                == reading->document,
            Err(e) => metadata_file_problem(path@, reading) == Some(e@),
        },
{
    let metadata = match only_document(path, reading) {
        Ok(metadata) => metadata,
        Err(error) => {
            return Err(error);
        },
    };
    let named = match paths::path_file_stem(path) {
        Some(stem) => match ids::parse_uuid(stem.as_str()) {
            Ok(id) => id == metadata.run_id,
            Err(_) => false,
        },
        None => false,
    };
    if !named {
        return Err(
            NamedAgentError::Parse {
                path: path.to_owned(),
                location: "run_id does not match its managed filename".to_owned(),
            },
        );
    }
    Ok(metadata)
}

impl LocalNamedAgentRepository {
    /// Checks metadata of a run that were read from its file.
    pub fn read_run_metadata(
        &self,
        run_id: u128,
        reading: FileReading<LocalNamedAgentRunMetadata>,
    ) -> (r: Result<LocalNamedAgentRunMetadata, NamedAgentError>)
        ensures
            ({
                let path = paths::join(paths::join(self@, "runs"@), file_name_of(run_id));
                match r {
                    Ok(metadata) => metadata_file_problem(path, reading) is None && metadata
                        == reading->document,
                    Err(e) => metadata_file_problem(path, reading) == Some(e@),
                }
            }),
    {
        parse_run_metadata(self.run_path(run_id).as_str(), reading)
    }

    /// The file that the metadata of a run are written to, unless they are too
    /// large.
    pub fn write_run_metadata(&self, run_id: u128, bytes: &Vec<u8>) -> (r: Result<
        String,
        NamedAgentError,
    >)
        ensures
            match r {
                Ok(path) => size_problem(bytes.len() as int, "run metadata"@) is None && path@
                    == paths::join(paths::join(self@, "runs"@), file_name_of(run_id)),
                Err(e) => size_problem(bytes.len() as int, "run metadata"@) == Some(e@),
            },
    {
        match check_serialized_metadata(bytes) {
            Ok(_) => Ok(self.run_path(run_id)),
            Err(error) => Err(error),
        }
    }
}

/// The first line of a message.
pub open spec fn first_line(message: Seq<char>) -> Seq<char> {
    if message.len() == 0 {
        "invalid YAML"@
    } else {
        text::trimmed(message.subrange(0, text::first_index(message, '\n')))
    }
}

/// What is told of an error of the YAML reader: the first line of its message,
/// and the line and the column where they are known.
pub open spec fn error_location(message: Seq<char>, position: Option<(usize, usize)>) -> Seq<char> {
    match position {
        Some((line, column)) => first_line(message) + (" (line "@ + text::decimal(line as nat)
            + ", column "@ + text::decimal(column as nat) + ")"@),
        None => first_line(message),
    }
}

pub fn yaml_error_location(message: &str, position: Option<(usize, usize)>) -> (r: String)
    ensures
        r@ == error_location(message@, position),
{
    let chars = text::chars_of(message);
    let reason = if chars.len() == 0 {
        "invalid YAML".to_owned()
    } else {
        let end: usize = text::find_char(&chars, '\n');
        text::trim(text::string_from(&chars, 0, end).as_str())
    };
    match position {
        Some((line, column)) => text::joined(
            reason.as_str(),
            text::concat5(
                " (line ",
                text::decimal_usize(line).as_str(),
                ", column ",
                text::decimal_usize(column).as_str(),
                ")",
            ).as_str(),
        ),
        None => reason,
    }
}

// ---------------------------------------------------------------------------
// Selecting.

/// What a selector stands for.
#[derive(Clone, Copy, Debug, PartialEq, Eq, Structural)]
pub enum AgentSelection {
    ById(u128),
    ByName,
}

/// Tells an identity from a name.
pub fn select(selector: &str) -> (r: AgentSelection)
    ensures
        match r {
            AgentSelection::ById(id) => ids::parsed_uuid(selector@) is Ok && ids::parsed_uuid(
                selector@,
            )->Ok_0 == id,
            AgentSelection::ByName => ids::parsed_uuid(selector@) is Err,
        },
{
    match ids::parse_uuid(selector) {
        Ok(id) => AgentSelection::ById(id),
        Err(_) => AgentSelection::ByName,
    }
}

/// The positions of the records with a name.
pub open spec fn named(records: Seq<RecordModel>, name: Seq<char>) -> Seq<RecordModel> {
    records.filter(|record: RecordModel| record.bundle.name == name)
}

impl LocalNamedAgentRepository {
    /// The one record with a name, where the selector is no identity.
    pub fn resolve(&self, selector: &str, records: Vec<NamedAgentRecord>) -> (r: Result<
        NamedAgentRecord,
        NamedAgentError,
    >)
        ensures
            ({
                let found = named(local_named_agents::record_models(records@), selector@);
                match r {
                    Ok(record) => found.len() == 1 && record@ == found[0],
                    Err(e) => if found.len() == 0 {
                        e@ == (NamedAgentError::<Seq<char>>::InvalidSelector { selector: selector@ })
                    } else {
                        found.len() > 1 && e@ == (NamedAgentError::<Seq<char>>::AmbiguousName {
                            name: selector@,
                        })
                    },
                }
            }),
    {
        let ghost all = local_named_agents::record_models(records@);
        let ghost keep = |record: RecordModel| record.bundle.name == selector@;
        let mut left = records;
        let mut found: Vec<NamedAgentRecord> = Vec::new();
        let ghost mut taken = Seq::<RecordModel>::empty();
        assert(all.subrange(0, all.len() as int) =~= all);
        assert(all.filter(keep) + taken.reverse() =~= all.filter(keep));
        // Takes the records from the end; those that match come out in reverse.
        while left.len() > 0
            invariant
                left.len() <= all.len(),
                local_named_agents::record_models(left@) == all.subrange(0, left.len() as int),
                keep == (|record: RecordModel| record.bundle.name == selector@),
                taken == local_named_agents::record_models(found@),
                all.filter(keep) == all.subrange(0, left.len() as int).filter(keep)
                    + taken.reverse(),
            decreases left.len(),
        {
            let ghost n = left.len() as int;
            let ghost part = all.subrange(0, n);
            let ghost before = taken;
            assert(part.last() == left@[n - 1]@);
            let record = match left.pop() {
                Some(record) => record,
                None => {
                    return Err(NamedAgentError::InvalidSelector { selector: selector.to_owned() });
                },
            };
            assert(part.drop_last() =~= all.subrange(0, n - 1));
            assert(local_named_agents::record_models(left@) =~= all.subrange(0, n - 1));
            proof {
                reveal(Seq::filter);
            }
            if text::same_text(record.bundle().name.as_str(), selector) {
                proof {
                    taken = taken.push(record@);
                    assert(taken.reverse() =~= seq![record@] + before.reverse());
                    assert(part.filter(keep) =~= part.drop_last().filter(keep).push(record@));
                    assert(part.filter(keep) + before.reverse() =~= part.drop_last().filter(keep)
                        + taken.reverse());
                }
                found.push(record);
                assert(local_named_agents::record_models(found@) =~= taken);
            }
        }
        proof {
            reveal(Seq::filter);
            assert(all.subrange(0, 0).filter(keep) =~= Seq::<RecordModel>::empty());
            assert(all.filter(keep) =~= taken.reverse());
        }
        if found.len() > 1 {
            return Err(NamedAgentError::AmbiguousName { name: selector.to_owned() });
        }
        match found.pop() {
            Some(record) => Ok(record),
            None => Err(NamedAgentError::InvalidSelector { selector: selector.to_owned() }),
        }
    }
}

// ---------------------------------------------------------------------------
// Creating, updating and deleting.

impl LocalNamedAgentRepository {
    /// Checks a new bundle and gives it an identity and a file.
    pub fn create(&self, bundle: &NamedAgentBundle) -> (r: Result<(u128, String), NamedAgentError>)
        ensures
            match r {
                Ok((id, path)) => local_named_agents::bundle_problem(bundle@) is None && ids::is_v4(
                    id,
                ) && path@ == paths::join(self@, file_name_of(id)),
                Err(e) => local_named_agents::bundle_problem(bundle@) == Some(e@),
            },
    {
        if let Err(error) = bundle.validate() {
            return Err(error);
        }
        let id: u128 = ids::random_uuid();
        Ok((id, self.path_for_id(id)))
    }
}

/// The problem with another revision than the expected one.
pub open spec fn revision_problem(
    id: u128,
    expected: Seq<char>,
    actual: Seq<char>,
) -> Option<ErrorModel> {
    if actual == expected {
        None
    } else {
        Some(NamedAgentError::Conflict { id, expected, actual: Some(actual) })
    }
}

fn check_revision(id: u128, expected: &str, actual: &str) -> (r: Result<(), NamedAgentError>)
    ensures
        local_named_agents::problem_of(r) == revision_problem(id, expected@, actual@),
{
    if text::same_text(actual, expected) {
        Ok(())
    } else {
        Err(
            NamedAgentError::Conflict {
                id,
                expected: expected.to_owned(),
                actual: Some(actual.to_owned()),
            },
        )
    }
}

/// Why a bundle cannot replace the one that was read, if it cannot.
pub open spec fn update_problem(
    id: u128,
    expected: Seq<char>,
    bundle: local_named_agents::BundleModel,
    current: Seq<char>,
    latest: Seq<char>,
) -> Option<ErrorModel> {
    local_named_agents::first_of(
        local_named_agents::bundle_problem(bundle),
        local_named_agents::first_of(
            revision_problem(id, expected, current),
            revision_problem(id, expected, latest),
        ),
    )
}

impl LocalNamedAgentRepository {
    /// Checks the new bundle, and that the revision that was edited is still
    /// there, in the record that was read first and in the one that was read
    /// right before the change.
    pub fn update(
        &self,
        id: u128,
        expected: &str,
        bundle: &NamedAgentBundle,
        current: &NamedAgentRecord,
        latest: &NamedAgentRecord,
    ) -> (r: Result<(), NamedAgentError>)
        ensures
            local_named_agents::problem_of(r) == update_problem(
                id,
                expected@,
                bundle@,
                current@.revision,
                latest@.revision,
            ),
    {
        if let Err(error) = bundle.validate() {
            return Err(error);
        }
        if let Err(error) = check_revision(id, expected, current.revision()) {
            return Err(error);
        }
        check_revision(id, expected, latest.revision())
    }
}

/// The identity of the named agent to delete; names do not count here.
pub fn begin_delete(selector: &str) -> (r: Result<u128, NamedAgentError>)
    ensures
        match r {
            Ok(id) => ids::parsed_uuid(selector@) is Ok && ids::parsed_uuid(selector@)->Ok_0 == id,
            Err(e) => ids::parsed_uuid(selector@) is Err && e@
                == (NamedAgentError::<Seq<char>>::InvalidSelector { selector: selector@ }),
        },
{
    match ids::parse_uuid(selector) {
        Ok(id) => Ok(id),
        Err(_) => Err(NamedAgentError::InvalidSelector { selector: selector.to_owned() }),
    }
}

/// The problem with deleting a named agent that was read with the revision
/// `current` and whose file holds `contents` right before the change.
pub open spec fn delete_problem(
    id: u128,
    expected: Option<Seq<char>>,
    current: Seq<char>,
    contents: Option<Seq<u8>>,
) -> Option<ErrorModel> {
    let first = match expected {
        Some(expected) => revision_problem(id, expected, current),
        None => None,
    };
    let second = match contents {
        None => Some(NamedAgentError::NotFound { id }),
        Some(bytes) => match expected {
            Some(expected) => revision_problem(id, expected, digest::digest_of(bytes)),
            None => None,
        },
    };
    local_named_agents::first_of(first, second)
}

impl LocalNamedAgentRepository {
    /// Checks that a named agent may be deleted: its file must be there, and
    /// have the expected revision, if there is one, both times that it is
    /// looked at.
    pub fn delete(
        &self,
        id: u128,
        expected: Option<&str>,
        current: &NamedAgentRecord,
        contents: Option<&Vec<u8>>,
    ) -> (r: Result<(), NamedAgentError>)
        ensures
            local_named_agents::problem_of(r) == delete_problem(
                id,
                match expected {
                    Some(e) => Some(e@),
                    None => None,
                },
                current@.revision,
                match contents {
                    Some(bytes) => Some(bytes@),
                    None => None,
                },
            ),
    {
        if let Some(expected) = expected {
            if let Err(error) = check_revision(id, expected, current.revision()) {
                return Err(error);
            }
        }
        match contents {
            None => Err(NamedAgentError::NotFound { id }),
            Some(bytes) => match expected {
                Some(expected) => check_revision(
                    id,
                    expected,
                    digest::digest_text(bytes.as_slice()).as_str(),
                ),
                None => Ok(()),
            },
        }
    }
}

/// The name of the temporary file beside a file.
pub fn temp_name_as(name: &str, allocated: u128) -> (r: String)
    ensures
        r@ == "."@ + name@ + ".tmp-"@ + ids::hyphenated(allocated),
{
    text::concat4(".", name, ".tmp-", ids::uuid_text(allocated).as_str())
}

/// The name under which a file is moved aside before it is replaced.
pub fn backup_name_as(name: &str, allocated: u128) -> (r: String)
    ensures
        r@ == "."@ + name@ + ".backup-"@ + ids::hyphenated(allocated),
{
    text::concat4(".", name, ".backup-", ids::uuid_text(allocated).as_str())
}

/// The name under which a file is moved aside before it is deleted.
pub fn delete_name_as(name: &str, allocated: u128) -> (r: String)
    ensures
        r@ == "."@ + name@ + ".delete-"@ + ids::hyphenated(allocated),
{
    text::concat4(".", name, ".delete-", ids::uuid_text(allocated).as_str())
}

/// A fresh name for the temporary file beside a file.
pub fn temp_name(name: &str) -> (r: String)
    ensures
        exists|id: u128|
            ids::is_v4(id) && r@ == "."@ + name@ + ".tmp-"@ + #[trigger] ids::hyphenated(id),
{
    temp_name_as(name, ids::random_uuid())
}

/// A fresh name under which a file is moved aside before it is replaced.
pub fn backup_name(name: &str) -> (r: String)
    ensures
        exists|id: u128|
            ids::is_v4(id) && r@ == "."@ + name@ + ".backup-"@ + #[trigger] ids::hyphenated(id),
{
    backup_name_as(name, ids::random_uuid())
}

/// A fresh name under which a file is moved aside before it is deleted.
pub fn delete_name(name: &str) -> (r: String)
    ensures
        exists|id: u128|
            ids::is_v4(id) && r@ == "."@ + name@ + ".delete-"@ + #[trigger] ids::hyphenated(id),
{
    delete_name_as(name, ids::random_uuid())
}

// ---------------------------------------------------------------------------
// Listing.

/// A file that is not that of a named agent.
#[derive(Clone, Debug, PartialEq, Eq)]
pub struct NamedAgentFileError<S = String> {
    pub path: S,
    pub message: S,
}

pub type FileErrorModel = NamedAgentFileError<Seq<char>>;

impl View for NamedAgentFileError<String> {
    type V = FileErrorModel;

    open spec fn view(&self) -> FileErrorModel {
        NamedAgentFileError { path: self.path@, message: self.message@ }
    }
}

/// The name of a file without its directory.
pub open spec fn label_of(path: Seq<char>) -> Seq<char> {
    match paths::file_name(path) {
        Some(name) => if name.len() > 0 {
            name
        } else {
            "<managed-file>"@
        },
        None => "<managed-file>"@,
    }
}

pub fn safe_file_label(path: &str) -> (r: String)
    ensures
        r@ == label_of(path@),
{
    match paths::path_file_name(path) {
        Some(name) => if text::char_count(name.as_str()) > 0 {
            name
        } else {
            "<managed-file>".to_owned()
        },
        None => "<managed-file>".to_owned(),
    }
}

impl NamedAgentFileError {
    pub fn safe_label(&self) -> (r: String)
        ensures
            r@ == label_of(self@.path),
    {
        safe_file_label(self.path.as_str())
    }

    /// The text of the error.
    pub fn text(&self) -> (r: String)
        ensures
            r@ == label_of(self@.path) + ": "@ + self@.message,
    {
        text::concat3(self.safe_label().as_str(), ": ", self.message.as_str())
    }
}

/// What a list tells of an error: nothing of the directories.
pub open spec fn safe_text(error: ErrorModel) -> Seq<char> {
    match error {
        NamedAgentError::Parse { location, .. } => "invalid YAML at "@ + location,
        NamedAgentError::SecretValueRejected { field } => "secret value rejected at "@ + field,
        NamedAgentError::InvalidBundle { reason } => reason,
        NamedAgentError::MultipleDocuments { .. } => "contains multiple YAML documents"@,
        _ => local_named_agents::error_text(error),
    }
}

pub fn safe_file_error_message(error: &NamedAgentError) -> (r: String)
    ensures
        r@ == safe_text(error@),
{
    match error {
        NamedAgentError::Parse { location, .. } => text::joined(
            "invalid YAML at ",
            location.as_str(),
        ),
        NamedAgentError::SecretValueRejected { field } => text::joined(
            "secret value rejected at ",
            field.as_str(),
        ),
        NamedAgentError::InvalidBundle { reason } => reason.clone(),
        NamedAgentError::MultipleDocuments { .. } => "contains multiple YAML documents".to_owned(),
        _ => error.message(),
    }
}

/// A file that was found in the directory, or why there is none.
pub enum FoundFile {
    Unreadable { error: String },
    File { path: String },
}

/// What to do with a file that was found.
pub enum FileDecision {
    Skip,
    Report(NamedAgentFileError),
    Read { id: u128, at: String },
}

/// What is to be done with a file that was found.
pub enum DecisionModel {
    Skip,
    Report(FileErrorModel),
    Read { id: u128, at: Seq<char> },
}

impl View for FileDecision {
    type V = DecisionModel;

    open spec fn view(&self) -> DecisionModel {
        match self {
            FileDecision::Skip => DecisionModel::Skip,
            FileDecision::Report(error) => DecisionModel::Report(error@),
            FileDecision::Read { id, at } => DecisionModel::Read { id: *id, at: at@ },
        }
    }
}

/// Whether a path has the extension of a YAML file, in any case.
pub open spec fn is_yaml(path: Seq<char>) -> bool {
    match paths::extension(path) {
        Some(extension) => text::same_but_case(extension, "yaml"@) || text::same_but_case(
            extension,
            "yml"@,
        ),
        None => false,
    }
}

pub open spec fn decision(directory: Seq<char>, found: FoundFile) -> DecisionModel {
    match found {
        FoundFile::Unreadable { error } => DecisionModel::Report(
            NamedAgentFileError { path: directory, message: error@ },
        ),
        FoundFile::File { path } => if !is_yaml(path@) {
            DecisionModel::Skip
        } else {
            match identity_of(path@) {
                Some(id) => DecisionModel::Read { id, at: path@ },
                None => DecisionModel::Report(
                    NamedAgentFileError {
                        path: path@,
                        message: "filename must be a UUID with a .yaml extension"@,
                    },
                ),
            }
        },
    }
}

/// Decides what to do with a file that was found.
pub fn decide_file(directory: &str, found: FoundFile) -> (r: FileDecision)
    ensures
        r@ == decision(directory@, found),
{
    match found {
        FoundFile::Unreadable { error } => FileDecision::Report(
            NamedAgentFileError { path: directory.to_owned(), message: error },
        ),
        FoundFile::File { path } => {
            let yaml = match paths::path_extension(path.as_str()) {
                Some(extension) => text::same_ignoring_case(extension.as_str(), "yaml")
                    || text::same_ignoring_case(extension.as_str(), "yml"),
                None => false,
            };
            if !yaml {
                return FileDecision::Skip;
            }
            match id_from_path(path.as_str()) {
                Some(id) => FileDecision::Read { id, at: path },
                None => FileDecision::Report(
                    NamedAgentFileError {
                        path,
                        message: "filename must be a UUID with a .yaml extension".to_owned(),
                    },
                ),
            }
        },
    }
}

/// The report of a file that could not be read as a named agent.
pub fn report_file(path: String, error: &NamedAgentError) -> (r: NamedAgentFileError)
    ensures
        r@ == (NamedAgentFileError { path: path@, message: safe_text(error@) }),
{
    NamedAgentFileError { path, message: safe_file_error_message(error) }
}

/// Whether a record may stand before another: by name in lower case, then by
/// identity.
pub open spec fn record_at_most(a: RecordModel, b: RecordModel) -> bool {
    let x = text::text_lowercase(a.bundle.name);
    let y = text::text_lowercase(b.bundle.name);
    if x == y {
        a.id <= b.id
    } else {
        text::text_at_most(x, y)
    }
}

impl Ordered for NamedAgentRecord {
    open spec fn at_most(&self, other: &Self) -> bool {
        record_at_most(self@, other@)
    }

    proof fn order_total(a: &Self, b: &Self) {
        text::lemma_text_total(
            text::text_lowercase(a@.bundle.name),
            text::text_lowercase(b@.bundle.name),
        );
    }

    proof fn order_transitive(a: &Self, b: &Self, c: &Self) {
        let x = text::text_lowercase(a@.bundle.name);
        let y = text::text_lowercase(b@.bundle.name);
        let z = text::text_lowercase(c@.bundle.name);
        if x != y && y != z {
            text::lemma_text_transitive(x, y, z);
            if x == z {
                text::lemma_text_antisymmetric(x, y);
            }
        }
    }

    fn is_at_most(&self, other: &Self) -> (r: bool) {
        let x = text::lowercase_text(self.bundle().name.as_str());
        let y = text::lowercase_text(other.bundle().name.as_str());
        if text::same_text(x.as_str(), y.as_str()) {
            self.id() <= other.id()
        } else {
            text::is_text_at_most(x.as_str(), y.as_str())
        }
    }
}

/// The named agents of a directory, and the files that are none.
#[derive(Clone, Debug)]
pub struct NamedAgentList {
    pub agents: Vec<NamedAgentRecord>,
    pub errors: Vec<NamedAgentFileError>,
}

impl LocalNamedAgentRepository {
    /// Puts the named agents that were read in order.
    pub fn list_with_errors(
        &self,
        agents: Vec<NamedAgentRecord>,
        errors: Vec<NamedAgentFileError>,
    ) -> (r: NamedAgentList)
        ensures
            r.agents@ == order::sorted_seq(agents@),
            order::sorted(r.agents@),
            r.agents@.to_multiset() == agents@.to_multiset(),
            r.errors == errors,
    {
        NamedAgentList { agents: order::sort(agents), errors }
    }

    /// The named agents that were read, in order, unless a file is none.
    pub fn list(&self, agents: Vec<NamedAgentRecord>, errors: Vec<NamedAgentFileError>) -> (r:
        Result<Vec<NamedAgentRecord>, NamedAgentError>)
        ensures
            match r {
                Ok(listed) => errors@.len() == 0 && listed@ == order::sorted_seq(agents@),
                Err(e) => errors@.len() > 0 && e@ == (NamedAgentError::<Seq<char>>::Parse {
                    path: errors@[0].path@,
                    location: errors@[0].message@,
                }),
            },
    {
        let found = self.list_with_errors(agents, errors);
        if found.errors.len() > 0 {
            let first = &found.errors[0];
            return Err(
                NamedAgentError::Parse {
                    path: first.path.clone(),
                    location: first.message.clone(),
                },
            );
        }
        Ok(found.agents)
    }
}

// ---------------------------------------------------------------------------
// What the commands print.

pub fn created_message(record: &NamedAgentRecord) -> (r: String)
    ensures
        r@ == "created local named agent "@ + record@.bundle.name + " ("@ + ids::hyphenated(
            record@.id,
        ) + ")"@,
{
    text::concat5(
        "created local named agent ",
        record.bundle().name.as_str(),
        " (",
        ids::uuid_text(record.id()).as_str(),
        ")",
    )
}

pub fn updated_message(record: &NamedAgentRecord) -> (r: String)
    ensures
        r@ == "updated local named agent "@ + record@.bundle.name + " ("@ + ids::hyphenated(
            record@.id,
        ) + ")"@,
{
    text::concat5(
        "updated local named agent ",
        record.bundle().name.as_str(),
        " (",
        ids::uuid_text(record.id()).as_str(),
        ")",
    )
}

/// The lines above a bundle that is shown.
pub fn shown_heading(record: &NamedAgentRecord) -> (r: String)
    ensures
        r@ == "id: "@ + ids::hyphenated(record@.id) + "\nrevision: "@ + record@.revision,
{
    text::concat4("id: ", ids::uuid_text(record.id()).as_str(), "\nrevision: ", record.revision())
}

/// Refuses a deletion that was not confirmed.
pub fn check_confirmed(yes: bool) -> (r: Result<(), String>)
    ensures
        match r {
            Ok(_) => yes,
            Err(e) => !yes && e@ == "deleting a local named agent requires --yes"@,
        },
{
    if yes {
        Ok(())
    } else {
        Err("deleting a local named agent requires --yes".to_owned())
    }
}

// ---------------------------------------------------------------------------
// Laws.

/// No lost update: of two writers that read the same revision, the second one
/// is refused once the first one's change shows in the file.
pub proof fn law_stale_update_is_refused(
    id: u128,
    read: Seq<char>,
    current: Seq<char>,
    latest: Seq<char>,
)
    requires
        current != read || latest != read,
    ensures
        local_named_agents::first_of(
            revision_problem(id, read, current),
            revision_problem(id, read, latest),
        ) is Some,
{
}

/// A path in the directory stands for at most one identity, and only the usual
/// form of that identity is its name.
pub proof fn law_managed_names_are_canonical(path: Seq<char>)
    requires
        identity_of(path) is Some,
    ensures
        paths::file_stem(path) == Some(ids::hyphenated(identity_of(path)->0)),
        paths::extension(path) == Some("yaml"@),
{
}

/// A file that stands for an identity is read; every other YAML file is
/// reported, and no file of another kind is.
pub proof fn law_every_yaml_file_counts(directory: Seq<char>, path: String)
    ensures
        ({
            let d = decision(directory, FoundFile::File { path });
            &&& d is Skip <==> !is_yaml(path@)
            &&& is_yaml(path@) && identity_of(path@) is Some ==> d is Read
            &&& is_yaml(path@) && identity_of(path@) is None ==> d is Report
        }),
{
}

/// A file may hold up to 262144 bytes.
pub proof fn law_sizes_of_files(size: int, what: Seq<char>)
    ensures
        size_problem(size, what) is None <==> 0 <= size <= 262_144,
        size_problem(size, what) is Some ==> size_problem(size, what)->0 is InvalidBundle,
{
}

/// A file is read exactly where it is text and holds one document.
pub proof fn law_files_hold_one_document<T>(path: Seq<char>, reading: FileReading<T>)
    ensures
        reading_problem(path, reading) is None <==> reading is Document && !reading->more,
        reading is Document && reading->more ==> reading_problem(path, reading) == Some(
            NamedAgentError::<Seq<char>>::MultipleDocuments { path },
        ),
        reading is NotText || reading is Empty || reading is Invalid ==> reading_problem(
            path,
            reading,
        ) is Some && reading_problem(path, reading)->0 is Parse,
        reading matches FileReading::Invalid(location) ==> reading_problem(path, reading) == Some(
            NamedAgentError::<Seq<char>>::Parse { path, location: location@ },
        ),
{
}

/// A named agent is read from a file that is small enough and holds one sound
/// bundle; it is that bundle, under the identity and the path of the file, and
/// its revision is the digest of the contents.
pub proof fn law_agents_are_read_as_they_are_stored(
    id: u128,
    path: Seq<char>,
    bytes: Seq<u8>,
    reading: FileReading<NamedAgentBundle>,
)
    ensures
        contents_outcome(id, path, bytes, reading) is Ok <==> bytes.len() <= 262_144 && reading
            is Document && !reading->more && local_named_agents::bundle_problem(
            reading->document@,
        ) is None,
        contents_outcome(id, path, bytes, reading) matches Ok(record) ==> record.id == id
            && record.path == path && record.bundle == reading->document@ && record.revision
            == digest::digest_of(bytes),
        bytes.len() <= 262_144 && reading is Document && !reading->more
            && local_named_agents::bundle_problem(reading->document@) is Some ==> contents_outcome(
            id,
            path,
            bytes,
            reading,
        ) == Err::<RecordModel, ErrorModel>(
            local_named_agents::bundle_problem(reading->document@)->0,
        ),
{
}

/// What was recorded of a run is read exactly where the file holds it alone and
/// is named after the run.
pub proof fn law_runs_are_read_from_their_own_file(
    path: Seq<char>,
    reading: FileReading<LocalNamedAgentRunMetadata>,
)
    ensures
        metadata_file_problem(path, reading) is None <==> {
            &&& reading is Document
            &&& !reading->more
            &&& paths::file_stem(path) is Some
            &&& ids::parsed_uuid(paths::file_stem(path)->0) is Ok
            &&& ids::parsed_uuid(paths::file_stem(path)->0)->Ok_0 == reading->document.run_id
        },
{
}

/// Of the message of the reader its first line is told, without the white space
/// around it, and where it stands if that is known.
pub proof fn law_first_line_is_told(line: Seq<char>, rest: Seq<char>, position: (usize, usize))
    requires
        forall|i: int| 0 <= i < line.len() ==> #[trigger] line[i] != '\n',
    ensures
        first_line(line.push('\n') + rest) == text::trimmed(line),
        line.len() > 0 ==> first_line(line) == text::trimmed(line),
        first_line(Seq::empty()) == "invalid YAML"@,
        error_location(line, None) == first_line(line),
        error_location(line, Some(position)) == first_line(line) + (" (line "@ + text::decimal(
            position.0 as nat,
        ) + ", column "@ + text::decimal(position.1 as nat) + ")"@),
{
    let whole = line.push('\n') + rest;
    text::lemma_first_index(whole, '\n');
    text::lemma_first_index(line, '\n');
    let at = text::first_index(whole, '\n');
    assert(whole[line.len() as int] == '\n');
    assert(at == line.len()) by {
        if at < line.len() {
            assert(whole[at] == line[at]);
        }
    }
    assert(whole.subrange(0, at) =~= line);
    assert(line.subrange(0, line.len() as int) =~= line);
}

/// A name stands for every agent that has it, and for no other.
pub proof fn law_names_stand_for_their_agents(
    records: Seq<RecordModel>,
    name: Seq<char>,
    i: int,
)
    ensures
        0 <= i < records.len() && records[i].bundle.name == name ==> named(records, name).contains(
            records[i],
        ),
        0 <= i < named(records, name).len() ==> records.contains(named(records, name)[i])
            && named(records, name)[i].bundle.name == name,
{
    let keep = |record: RecordModel| record.bundle.name == name;
    if 0 <= i < records.len() && records[i].bundle.name == name {
        records.lemma_filter_contains(keep, i);
    }
    if 0 <= i < named(records, name).len() {
        order::lemma_filtered(records, keep, i);
    }
}

/// A bundle replaces another exactly where it is sound and the revision that was
/// edited is still there both times that it is looked at.
pub proof fn law_updates_that_are_made(
    id: u128,
    expected: Seq<char>,
    bundle: local_named_agents::BundleModel,
    current: Seq<char>,
    latest: Seq<char>,
)
    ensures
        update_problem(id, expected, bundle, current, latest) is None
            <==> local_named_agents::bundle_problem(bundle) is None && current == expected && latest
            == expected,
        local_named_agents::bundle_problem(bundle) is None && current != expected
            ==> update_problem(id, expected, bundle, current, latest) == Some(
            NamedAgentError::<Seq<char>>::Conflict { id, expected, actual: Some(current) },
        ),
        local_named_agents::bundle_problem(bundle) is None && current == expected && latest
            != expected ==> update_problem(id, expected, bundle, current, latest) == Some(
            NamedAgentError::<Seq<char>>::Conflict { id, expected, actual: Some(latest) },
        ),
        local_named_agents::bundle_problem(bundle) is Some ==> update_problem(
            id,
            expected,
            bundle,
            current,
            latest,
        ) == local_named_agents::bundle_problem(bundle),
{
}

/// An agent is deleted exactly where its file is there and, if a revision is
/// expected, has it both times that it is looked at.
pub proof fn law_deletions_that_are_made(
    id: u128,
    expected: Seq<char>,
    current: Seq<char>,
    contents: Option<Seq<u8>>,
)
    ensures
        delete_problem(id, None, current, contents) is None <==> contents is Some,
        delete_problem(id, Some(expected), current, contents) is None <==> contents is Some
            && current == expected && digest::digest_of(contents->0) == expected,
        contents is None ==> delete_problem(id, None, current, contents) == Some(
            NamedAgentError::<Seq<char>>::NotFound { id },
        ),
        current != expected ==> delete_problem(id, Some(expected), current, contents) == Some(
            NamedAgentError::<Seq<char>>::Conflict { id, expected, actual: Some(current) },
        ),
{
}

/// What is told of a file is its name, and nothing of its directories.
pub proof fn law_nothing_is_told_of_directories(
    a: Seq<char>,
    b: Seq<char>,
    location: Seq<char>,
)
    ensures
        safe_text(NamedAgentError::Parse { path: a, location }) == safe_text(
            NamedAgentError::Parse { path: b, location },
        ),
        safe_text(NamedAgentError::MultipleDocuments { path: a }) == safe_text(
            NamedAgentError::MultipleDocuments { path: b },
        ),
        paths::file_name(a) == paths::file_name(b) ==> label_of(a) == label_of(b),
        paths::file_name(a) is Some && paths::file_name(a)->0.len() > 0 ==> label_of(a)
            == paths::file_name(a)->0,
        paths::file_name(a) is None ==> label_of(a) == "<managed-file>"@,
{
}

/// A file is read under the identity that its path stands for, and reported
/// under its path.
pub proof fn law_found_files(directory: Seq<char>, path: String, error: String)
    ensures
        identity_of(path@) is Some && is_yaml(path@) ==> decision(
            directory,
            FoundFile::File { path },
        ) == (DecisionModel::Read { id: identity_of(path@)->0, at: path@ }),
        decision(directory, FoundFile::File { path }) is Report ==> decision(
            directory,
            FoundFile::File { path },
        )->Report_0.path == path@,
        decision(directory, FoundFile::Unreadable { error }) == DecisionModel::Report(
            NamedAgentFileError { path: directory, message: error@ },
        ),
        is_yaml(path@) <==> paths::extension(path@) is Some && (text::same_but_case(
            paths::extension(path@)->0,
            "yaml"@,
        ) || text::same_but_case(paths::extension(path@)->0, "yml"@)),
{
}

/// Agents are listed by their names in small letters, those of the same name by
/// their identities.
pub proof fn law_agents_are_listed_by_name(a: RecordModel, b: RecordModel)
    ensures
        text::text_lowercase(a.bundle.name) == text::text_lowercase(b.bundle.name) ==> (
        record_at_most(a, b) <==> a.id <= b.id),
        text::text_lowercase(a.bundle.name) != text::text_lowercase(b.bundle.name) ==> (
        record_at_most(a, b) <==> text::text_at_most(
            text::text_lowercase(a.bundle.name),
            text::text_lowercase(b.bundle.name),
        )),
{
}

/// A directory is managed where it is one and no link, and a file is named after
/// its identity.
pub proof fn law_managed_directories(
    directory: Seq<char>,
    is_symlink: bool,
    is_dir: bool,
    id: u128,
)
    ensures
        directory_problem(directory, is_symlink, is_dir) is None <==> is_dir && !is_symlink,
        directory_problem(directory, is_symlink, is_dir) is Some ==> directory_problem(
            directory,
            is_symlink,
            is_dir,
        ) == Some(NamedAgentError::<Seq<char>>::NotManaged { path: directory }),
        file_name_of(id) == ids::hyphenated(id) + ".yaml"@,
{
}

} // verus!
