//! The directory that holds the router files: which paths it manages, when a
//! file may be changed, and how its files are listed.

use crate::custom_model_routers;
use crate::custom_model_routers::{
    CustomModelRouter, RouterReading, SourcePath, MAX_ROUTER_YAML_BYTES,
};
use crate::digest;
use crate::file_publication::{FileChange, Publication};
use crate::file_publication;
use crate::ids;
use crate::order;
use crate::order::Ordered;
use crate::paths;
use crate::text;
use vstd::prelude::*;

verus! {

/// What distinguishes one state of a file from another.
#[derive(Debug, PartialEq, Eq)]
pub struct RouterFileRevision {
    /// The SHA-256 digest of the contents.
    pub content_hash: Vec<u8>,
    pub size: u64,
    /// When the file was changed, in nanoseconds, where nothing better is
    /// known of it.
    pub modified: Option<u64>,
    pub device: u64,
    pub inode: u64,
}

/// What a revision says.
#[verifier::ext_equal]
pub struct RevisionModel {
    pub content_hash: Seq<u8>,
    pub size: u64,
    pub modified: Option<u64>,
    pub device: u64,
    pub inode: u64,
}

impl View for RouterFileRevision {
    type V = RevisionModel;

    open spec fn view(&self) -> RevisionModel {
        RevisionModel {
            content_hash: self.content_hash@,
            size: self.size,
            modified: self.modified,
            device: self.device,
            inode: self.inode,
        }
    }
}

/// Whether two byte strings are the same.
pub fn same_bytes(a: &Vec<u8>, b: &Vec<u8>) -> (r: bool)
    ensures
        r == (a@ == b@),
{
    if a.len() != b.len() {
        return false;
    }
    let mut i: usize = 0;
    while i < a.len()
        invariant
            i <= a.len(),
            a.len() == b.len(),
            forall|j: int| 0 <= j < i ==> #[trigger] a@[j] == b@[j],
        decreases a.len() - i,
    {
        if a[i] != b[i] {
            return false;
        }
        i += 1;
    }
    assert(a@ =~= b@);
    true
}

fn copy_bytes(v: &Vec<u8>) -> (r: Vec<u8>)
    ensures
        r@ == v@,
{
    let mut out: Vec<u8> = Vec::new();
    let mut i: usize = 0;
    while i < v.len()
        invariant
            i <= v.len(),
            out@ == v@.subrange(0, i as int),
        decreases v.len() - i,
    {
        out.push(v[i]);
        i += 1;
        assert(v@.subrange(0, i as int) =~= v@.subrange(0, i - 1).push(v@[i - 1]));
    }
    assert(v@.subrange(0, v@.len() as int) =~= v@);
    out
}

impl Clone for RouterFileRevision {
    fn clone(&self) -> (r: Self)
        ensures
            r@ == self@,
    {
        RouterFileRevision {
            content_hash: copy_bytes(&self.content_hash),
            size: self.size,
            modified: self.modified,
            device: self.device,
            inode: self.inode,
        }
    }
}

/// The revision that no file has.
pub open spec fn no_revision() -> RevisionModel {
    RevisionModel {
        content_hash: Seq::new(32, |i: int| 0u8),
        size: 0,
        modified: None,
        device: 0,
        inode: 0,
    }
}

impl RouterFileRevision {
    /// The revision of a file with those contents. A negative size counts as
    /// none.
    pub fn of_file(contents: &[u8], size: i64, device: u64, inode: u64) -> (r: Self)
        ensures
            r@ == (RevisionModel {
                content_hash: digest::sha256_of(contents@),
                size: if size < 0 {
                    0
                } else {
                    size as u64
                },
                modified: None,
                device,
                inode,
            }),
    {
        RouterFileRevision {
            content_hash: digest::sha256(contents),
            size: if size < 0 {
                0
            } else {
                size as u64
            },
            modified: None,
            device,
            inode,
        }
    }

    /// The revision that no file has.
    pub fn empty() -> (r: Self)
        ensures
            r@ == no_revision(),
    {
        let mut content_hash: Vec<u8> = Vec::new();
        let mut i: usize = 0;
        while i < 32
            invariant
                i <= 32,
                content_hash@ == Seq::new(i as nat, |k: int| 0u8),
            decreases 32 - i,
        {
            content_hash.push(0);
            i += 1;
            assert(content_hash@ =~= Seq::new(i as nat, |k: int| 0u8));
        }
        RouterFileRevision { content_hash, size: 0, modified: None, device: 0, inode: 0 }
    }

    /// Whether two revisions are the same.
    pub fn same(&self, other: &RouterFileRevision) -> (r: bool)
        ensures
            r == (self@ == other@),
    {
        self.size == other.size && self.device == other.device && self.inode == other.inode
            && same_bytes(&self.content_hash, &other.content_hash) && match (
            self.modified,
            other.modified,
        ) {
            (Some(a), Some(b)) => a == b,
            (None, None) => true,
            _ => false,
        }
    }
}

pub open spec fn revision_opt(r: Option<RouterFileRevision>) -> Option<RevisionModel> {
    match r {
        Some(r) => Some(r@),
        None => None,
    }
}

fn clone_revision_opt(r: &Option<RouterFileRevision>) -> (c: Option<RouterFileRevision>)
    ensures
        revision_opt(c) == revision_opt(*r),
{
    match r {
        Some(r) => Some(r.clone()),
        None => None,
    }
}

/// Why a router file cannot be read or changed.
#[derive(Debug)]
pub enum LocalCustomModelRouterRepositoryError<S = String, R = RouterFileRevision> {
    InvalidPath { path: S },
    AlreadyExists { path: S },
    NotFound { path: S },
    Conflict { path: S, expected: R, actual: Option<R> },
    NotManaged { path: S },
    Parse { path: S, message: S },
    Serialize(S),
    Oversize { path: S, size: u64, limit: u64 },
    Io { path: S, source: S },
}

pub type ErrorModel = LocalCustomModelRouterRepositoryError<Seq<char>, RevisionModel>;

impl View for LocalCustomModelRouterRepositoryError<String, RouterFileRevision> {
    type V = ErrorModel;

    open spec fn view(&self) -> ErrorModel {
        match self {
            LocalCustomModelRouterRepositoryError::InvalidPath { path } =>
                LocalCustomModelRouterRepositoryError::InvalidPath { path: path@ },
            LocalCustomModelRouterRepositoryError::AlreadyExists { path } =>
                LocalCustomModelRouterRepositoryError::AlreadyExists { path: path@ },
            LocalCustomModelRouterRepositoryError::NotFound { path } =>
                LocalCustomModelRouterRepositoryError::NotFound { path: path@ },
            LocalCustomModelRouterRepositoryError::Conflict { path, expected, actual } =>
                LocalCustomModelRouterRepositoryError::Conflict {
                path: path@,
                expected: expected@,
                actual: revision_opt(*actual),
            },
            LocalCustomModelRouterRepositoryError::NotManaged { path } =>
                LocalCustomModelRouterRepositoryError::NotManaged { path: path@ },
            LocalCustomModelRouterRepositoryError::Parse { path, message } =>
                LocalCustomModelRouterRepositoryError::Parse { path: path@, message: message@ },
            LocalCustomModelRouterRepositoryError::Serialize(error) =>
                LocalCustomModelRouterRepositoryError::Serialize(error@),
            LocalCustomModelRouterRepositoryError::Oversize { path, size, limit } =>
                LocalCustomModelRouterRepositoryError::Oversize {
                path: path@,
                size: *size,
                limit: *limit,
            },
            LocalCustomModelRouterRepositoryError::Io { path, source } =>
                LocalCustomModelRouterRepositoryError::Io { path: path@, source: source@ },
        }
    }
}

/// The error for what is no regular file or directory of its own.
pub open spec fn not_managed(path: Seq<char>) -> ErrorModel {
    LocalCustomModelRouterRepositoryError::NotManaged { path }
}

/// The error for a file that does not hold a router.
pub open spec fn parse_error(path: Seq<char>, message: Seq<char>) -> ErrorModel {
    LocalCustomModelRouterRepositoryError::Parse { path, message }
}

/// The text of an error.
pub open spec fn error_text(error: ErrorModel) -> Seq<char> {
    match error {
        LocalCustomModelRouterRepositoryError::InvalidPath { path } =>
            "router path is outside the managed directory: "@ + path,
        LocalCustomModelRouterRepositoryError::AlreadyExists { path } =>
            "router file already exists: "@ + path,
        LocalCustomModelRouterRepositoryError::NotFound { path } =>
            "router file was not found: "@ + path,
        LocalCustomModelRouterRepositoryError::Conflict { path, .. } =>
            "router file changed while it was being edited: "@ + path,
        LocalCustomModelRouterRepositoryError::NotManaged { path } =>
            "router file is not a regular managed file: "@ + path,
        LocalCustomModelRouterRepositoryError::Parse { path, message } =>
            "could not parse router file "@ + path + ": "@ + message,
        LocalCustomModelRouterRepositoryError::Serialize(error) =>
            "could not serialize router: "@ + error,
        LocalCustomModelRouterRepositoryError::Oversize { path, size, limit } =>
            "router file is "@ + text::decimal(size as nat) + " bytes, exceeding the "@
            + text::decimal(limit as nat) + "-byte limit: "@ + path,
        LocalCustomModelRouterRepositoryError::Io { path, source } =>
            "could not access router file "@ + path + ": "@ + source,
    }
}

impl LocalCustomModelRouterRepositoryError {
    /// The text of the error.
    pub fn message(&self) -> (r: String)
        ensures
            r@ == error_text(self@),
    {
        match self {
            LocalCustomModelRouterRepositoryError::InvalidPath { path } => text::joined(
                "router path is outside the managed directory: ",
                path.as_str(),
            ),
            LocalCustomModelRouterRepositoryError::AlreadyExists { path } => text::joined(
                "router file already exists: ",
                path.as_str(),
            ),
            LocalCustomModelRouterRepositoryError::NotFound { path } => text::joined(
                "router file was not found: ",
                path.as_str(),
            ),
            LocalCustomModelRouterRepositoryError::Conflict { path, .. } => text::joined(
                "router file changed while it was being edited: ",
                path.as_str(),
            ),
            LocalCustomModelRouterRepositoryError::NotManaged { path } => text::joined(
                "router file is not a regular managed file: ",
                path.as_str(),
            ),
            LocalCustomModelRouterRepositoryError::Parse { path, message } => text::concat4(
                "could not parse router file ",
                path.as_str(),
                ": ",
                message.as_str(),
            ),
            LocalCustomModelRouterRepositoryError::Serialize(error) => text::joined(
                "could not serialize router: ",
                error.as_str(),
            ),
            LocalCustomModelRouterRepositoryError::Oversize { path, size, limit } => {
                let start = text::concat3(
                    "router file is ",
                    text::decimal_text(*size).as_str(),
                    " bytes, exceeding the ",
                );
                text::concat4(
                    start.as_str(),
                    text::decimal_text(*limit).as_str(),
                    "-byte limit: ",
                    path.as_str(),
                )
            },
            LocalCustomModelRouterRepositoryError::Io { path, source } => text::concat4(
                "could not access router file ",
                path.as_str(),
                ": ",
                source.as_str(),
            ),
        }
    }
}

// ---------------------------------------------------------------------------
// Paths.

/// Whether a name ends in one of the two extensions of router files.
pub open spec fn has_router_extension(path: Seq<char>) -> bool {
    paths::extension(path) == Some("yaml"@) || paths::extension(path) == Some("yml"@)
}

/// Whether a path can name a router file: it goes nowhere up, it is not
/// hidden, and it has the right extension.
pub open spec fn names_router_file(path: Seq<char>) -> bool {
    &&& paths::file_name(path) is Some
    &&& forall|i: int|
        0 <= i < paths::components(path).len() ==> !paths::is_special(
            #[trigger] paths::components(path)[i],
        )
    &&& !text::starts_with(paths::file_name(path)->0, "."@)
    &&& has_router_extension(path)
}

/// What was found at a path that is to be managed: its parent's own path, or
/// why it cannot be told, and whether nothing is there.
pub struct PathProbe {
    pub parent: Result<String, String>,
    /// The parent as the path names it.
    pub named_parent: String,
    pub missing: bool,
}

/// The path under which a requested file is managed, or why it is not.
pub open spec fn managed_outcome(
    directory: Seq<char>,
    requested: Seq<char>,
    probe: PathProbe,
    missing_allowed: bool,
) -> Result<Seq<char>, ErrorModel> {
    let path = paths::join(directory, requested);
    if !names_router_file(path) {
        Err(LocalCustomModelRouterRepositoryError::InvalidPath { path })
    } else {
        match probe.parent {
            Err(source) => Err(
                LocalCustomModelRouterRepositoryError::Io {
                    path: probe.named_parent@,
                    source: source@,
                },
            ),
            Ok(parent) => if !paths::same_path(parent@, directory) {
                Err(LocalCustomModelRouterRepositoryError::InvalidPath { path })
            } else if !missing_allowed && probe.missing {
                Err(LocalCustomModelRouterRepositoryError::NotFound { path })
            } else {
                Ok(paths::join(directory, paths::file_name(path)->0))
            },
        }
    }
}

/// The repository of router files in a directory.
#[derive(Clone, Debug)]
pub struct LocalCustomModelRouterRepository {
    directory: String,
}

impl View for LocalCustomModelRouterRepository {
    type V = Seq<char>;

    closed spec fn view(&self) -> Seq<char> {
        self.directory@
    }
}

fn path_names_router_file(path: &str) -> (r: bool)
    ensures
        r == names_router_file(path@),
{
    let name = match paths::path_file_name(path) {
        Some(name) => name,
        None => {
            return false;
        },
    };
    let parts = paths::path_components(path);
    let ghost all = text::texts(parts@);
    let mut i: usize = 0;
    while i < parts.len()
        invariant
            i <= parts.len(),
            all == text::texts(parts@),
            all == paths::components(path@),
            forall|j: int| 0 <= j < i ==> !paths::is_special(#[trigger] all[j]),
        decreases parts.len() - i,
    {
        assert(all[i as int] == parts@[i as int]@);
        if text::same_text(parts[i].as_str(), "..") || text::same_text(parts[i].as_str(), ".") {
            assert(paths::is_special(paths::components(path@)[i as int]));
            return false;
        }
        i += 1;
    }
    if text::str_starts_with(name.as_str(), ".") {
        return false;
    }
    path_has_router_extension(path)
}

fn path_has_router_extension(path: &str) -> (r: bool)
    ensures
        r == has_router_extension(path@),
{
    match paths::path_extension(path) {
        Some(extension) => text::same_text(extension.as_str(), "yaml") || text::same_text(
            extension.as_str(),
            "yml",
        ),
        None => false,
    }
}

impl LocalCustomModelRouterRepository {
    pub fn new(directory: &str) -> (r: Self)
        ensures
            r@ == directory@,
    {
        LocalCustomModelRouterRepository { directory: directory.to_owned() }
    }

    pub fn directory(&self) -> (r: &str)
        ensures
            r@ == self@,
    {
        self.directory.as_str()
    }

    /// Accepts what stands at the repository's path as its directory.
    pub fn check_directory(&self, is_symlink: bool, is_dir: bool) -> (r: Result<
        (),
        LocalCustomModelRouterRepositoryError,
    >)
        ensures
            match r {
                Ok(_) => !is_symlink && is_dir,
                Err(e) => (is_symlink || !is_dir) && e@ == not_managed(self@),
            },
    {
        if is_symlink || !is_dir {
            return Err(
                LocalCustomModelRouterRepositoryError::NotManaged { path: self.directory.clone() },
            );
        }
        Ok(())
    }

    /// Where a requested file would be: the path to look at before it is
    /// accepted. `directory` is the repository's own path.
    pub fn requested_path(&self, directory: &str, requested: &str) -> (r: String)
        ensures
            r@ == paths::join(directory@, requested@),
    {
        paths::join_path(directory, requested)
    }

    /// The path under which a requested file is managed. `directory` is the
    /// repository's own path and `probe` what was found at the requested one.
    pub fn managed_path(
        &self,
        directory: &str,
        requested: &str,
        probe: &PathProbe,
        missing_allowed: bool,
    ) -> (r: Result<String, LocalCustomModelRouterRepositoryError>)
        ensures
            match r {
                Ok(path) => managed_outcome(directory@, requested@, *probe, missing_allowed)
                    == Ok::<Seq<char>, ErrorModel>(path@),
                Err(e) => managed_outcome(directory@, requested@, *probe, missing_allowed) == Err::<
                    Seq<char>,
                    ErrorModel,
                >(e@),
            },
    {
        let path = paths::join_path(directory, requested);
        if !path_names_router_file(path.as_str()) {
            return Err(LocalCustomModelRouterRepositoryError::InvalidPath { path });
        }
        match &probe.parent {
            Err(source) => {
                return Err(
                    LocalCustomModelRouterRepositoryError::Io {
                        path: probe.named_parent.clone(),
                        source: source.clone(),
                    },
                );
            },
            Ok(parent) => {
                if !paths::are_same_path(parent.as_str(), directory) {
                    return Err(LocalCustomModelRouterRepositoryError::InvalidPath { path });
                }
            },
        }
        if !missing_allowed && probe.missing {
            return Err(LocalCustomModelRouterRepositoryError::NotFound { path });
        }
        match paths::path_file_name(path.as_str()) {
            Some(name) => Ok(paths::join_path(directory, name.as_str())),
            None => Err(LocalCustomModelRouterRepositoryError::InvalidPath { path }),
        }
    }

    /// The path under which an existing file is managed.
    pub fn validate_managed_path(&self, directory: &str, requested: &str, probe: &PathProbe) -> (r:
        Result<String, LocalCustomModelRouterRepositoryError>)
        ensures
            match r {
                Ok(path) => managed_outcome(directory@, requested@, *probe, false) == Ok::<
                    Seq<char>,
                    ErrorModel,
                >(path@),
                Err(e) => managed_outcome(directory@, requested@, *probe, false) == Err::<
                    Seq<char>,
                    ErrorModel,
                >(e@),
            },
    {
        self.managed_path(directory, requested, probe, false)
    }
}

// ---------------------------------------------------------------------------
// Reading.

/// A router with the file that holds it.
#[derive(Clone, Debug, PartialEq)]
pub struct StoredCustomModelRouter {
    pub router: CustomModelRouter,
    pub path: String,
    pub revision: RouterFileRevision,
}

/// What a stored router says.
#[verifier::ext_equal]
pub struct StoredModel {
    pub router: custom_model_routers::RouterModel,
    pub path: Seq<char>,
    pub revision: RevisionModel,
}

impl View for StoredCustomModelRouter {
    type V = StoredModel;

    open spec fn view(&self) -> StoredModel {
        StoredModel { router: self.router@, path: self.path@, revision: self.revision@ }
    }
}

/// What stands under a name in the directory.
#[derive(Clone, Copy, Debug, PartialEq, Eq, Structural)]
pub enum EntryKind {
    Regular,
    Link,
    Other,
}

/// Refuses what is not a regular file.
pub fn check_entry(path: &str, kind: EntryKind) -> (r: Result<
    (),
    LocalCustomModelRouterRepositoryError,
>)
    ensures
        match r {
            Ok(_) => kind is Regular,
            Err(e) => !(kind is Regular) && e@ == not_managed(path@),
        },
{
    match kind {
        EntryKind::Regular => Ok(()),
        _ => Err(LocalCustomModelRouterRepositoryError::NotManaged { path: path.to_owned() }),
    }
}

/// Why an operation on a file failed.
#[derive(Clone, Copy, Debug, PartialEq, Eq, Structural)]
pub enum FailureKind {
    /// Nothing stands under the name.
    Missing,
    /// The name is a link, which is not followed.
    Link,
    Other,
}

/// The error for a file that could not be opened or changed.
pub fn access_failure(path: &str, kind: FailureKind, source: &str) -> (r:
    LocalCustomModelRouterRepositoryError)
    ensures
        r@ == (match kind {
            FailureKind::Missing => LocalCustomModelRouterRepositoryError::<
                Seq<char>,
                RevisionModel,
            >::NotFound { path: path@ },
            FailureKind::Link => not_managed(path@),
            FailureKind::Other => LocalCustomModelRouterRepositoryError::<
                Seq<char>,
                RevisionModel,
            >::Io { path: path@, source: source@ },
        }),
{
    match kind {
        FailureKind::Missing => LocalCustomModelRouterRepositoryError::NotFound {
            path: path.to_owned(),
        },
        FailureKind::Link => LocalCustomModelRouterRepositoryError::NotManaged {
            path: path.to_owned(),
        },
        FailureKind::Other => LocalCustomModelRouterRepositoryError::Io {
            path: path.to_owned(),
            source: source.to_owned(),
        },
    }
}

/// Refuses a file of that size, unless it is small enough.
pub open spec fn size_problem(path: Seq<char>, size: int) -> Option<ErrorModel> {
    if size < 0 || size > MAX_ROUTER_YAML_BYTES {
        Some(
            LocalCustomModelRouterRepositoryError::Oversize {
                path,
                size: if size < 0 {
                    0
                } else {
                    size as u64
                },
                limit: MAX_ROUTER_YAML_BYTES as u64,
            },
        )
    } else {
        None
    }
}

/// Refuses a file whose reported size is out of bounds.
pub fn check_size(path: &str, size: i64) -> (r: Result<(), LocalCustomModelRouterRepositoryError>)
    ensures
        match r {
            Ok(_) => size_problem(path@, size as int) is None,
            Err(e) => size_problem(path@, size as int) == Some(e@),
        },
{
    if size < 0 || size as u64 > MAX_ROUTER_YAML_BYTES as u64 {
        return Err(
            LocalCustomModelRouterRepositoryError::Oversize {
                path: path.to_owned(),
                size: if size < 0 {
                    0
                } else {
                    size as u64
                },
                limit: MAX_ROUTER_YAML_BYTES as u64,
            },
        );
    }
    Ok(())
}

/// Refuses contents that are too large to be written.
pub fn validate_serialized_size(path: &str, bytes: &[u8]) -> (r: Result<
    (),
    LocalCustomModelRouterRepositoryError,
>)
    ensures
        match r {
            Ok(_) => size_problem(path@, bytes@.len() as int) is None,
            Err(e) => size_problem(path@, bytes@.len() as int) == Some(e@),
        },
{
    if bytes.len() > MAX_ROUTER_YAML_BYTES {
        return Err(
            LocalCustomModelRouterRepositoryError::Oversize {
                path: path.to_owned(),
                size: bytes.len() as u64,
                limit: MAX_ROUTER_YAML_BYTES as u64,
            },
        );
    }
    Ok(())
}

/// Takes in one more part of a file that is being read, unless it makes the
/// whole too large.
pub fn append_bounded(path: &str, bytes: &mut Vec<u8>, part: &[u8]) -> (r: Result<
    (),
    LocalCustomModelRouterRepositoryError,
>)
    requires
        old(bytes)@.len() + part@.len() <= usize::MAX,
    ensures
        match r {
            Ok(_) => size_problem(path@, (old(bytes)@.len() + part@.len()) as int) is None
                && final(bytes)@ == old(bytes)@ + part@,
            Err(e) => size_problem(path@, (old(bytes)@.len() + part@.len()) as int) == Some(e@)
                && final(bytes)@ == old(bytes)@,
        },
{
    let size: usize = bytes.len() + part.len();
    if size > MAX_ROUTER_YAML_BYTES {
        return Err(
            LocalCustomModelRouterRepositoryError::Oversize {
                path: path.to_owned(),
                size: size as u64,
                limit: MAX_ROUTER_YAML_BYTES as u64,
            },
        );
    }
    let ghost start = bytes@;
    let mut i: usize = 0;
    assert(start + part@.subrange(0, 0) =~= start);
    while i < part.len()
        invariant
            i <= part.len(),
            bytes@ == start + part@.subrange(0, i as int),
        decreases part.len() - i,
    {
        bytes.push(part[i]);
        i += 1;
        assert(start + part@.subrange(0, i as int) =~= (start + part@.subrange(0, i - 1)).push(
            part@[i - 1],
        ));
    }
    assert(part@.subrange(0, part@.len() as int) =~= part@);
    Ok(())
}

impl LocalCustomModelRouterRepository {
    /// The router that a file's bytes describe. `contents` is what they say as
    /// text, or why they are no text, and `reading` the text read as YAML.
    pub fn read(
        &self,
        source: &SourcePath,
        contents: &Result<String, String>,
        reading: RouterReading,
        revision: RouterFileRevision,
    ) -> (r: Result<StoredCustomModelRouter, LocalCustomModelRouterRepositoryError>)
        ensures
            match *contents {
                Err(error) => r matches Err(e) && e@ == parse_error(
                    source.path@,
                    "router YAML is not valid UTF-8: "@ + error@,
                ),
                Ok(contents) => match custom_model_routers::reading_outcome(
                    contents@,
                    reading,
                    Some((source.path@, source.shown@)),
                ) {
                    Ok(router) => r matches Ok(stored) && stored@ == (StoredModel {
                        router,
                        path: source.path@,
                        revision: revision@,
                    }),
                    Err(message) => r matches Err(e) && e@ == parse_error(source.path@, message),
                },
            },
    {
        let contents = match contents {
            Ok(contents) => contents,
            Err(error) => {
                return Err(
                    LocalCustomModelRouterRepositoryError::Parse {
                        path: source.path.clone(),
                        message: text::joined("router YAML is not valid UTF-8: ", error.as_str()),
                    },
                );
            },
        };
        match custom_model_routers::parse_model_config_yaml(contents.as_str(), reading, Some(source)) {
            Ok(router) => Ok(
                StoredCustomModelRouter { router, path: source.path.clone(), revision },
            ),
            Err(message) => Err(
                LocalCustomModelRouterRepositoryError::Parse { path: source.path.clone(), message },
            ),
        }
    }
}

// ---------------------------------------------------------------------------
// Writing.

/// Why a file may not be changed in the state it is in, if it may not. A file
/// that is created must not be there; any other must be as the caller last saw
/// it.
pub open spec fn expectation_problem(
    path: Seq<char>,
    expected: Option<RevisionModel>,
    creating: bool,
    actual: Option<RevisionModel>,
) -> Option<ErrorModel> {
    if creating {
        if actual is Some {
            Some(LocalCustomModelRouterRepositoryError::AlreadyExists { path })
        } else {
            None
        }
    } else {
        match expected {
            None => Some(
                LocalCustomModelRouterRepositoryError::Conflict {
                    path,
                    expected: no_revision(),
                    actual,
                },
            ),
            Some(revision) => if actual != Some(revision) {
                Some(
                    LocalCustomModelRouterRepositoryError::Conflict {
                        path,
                        expected: revision,
                        actual,
                    },
                )
            } else {
                None
            },
        }
    }
}

pub fn check_expected(
    path: &str,
    expected: &Option<RouterFileRevision>,
    creating: bool,
    actual: &Option<RouterFileRevision>,
) -> (r: Result<(), LocalCustomModelRouterRepositoryError>)
    ensures
        match r {
            Ok(_) => expectation_problem(
                path@,
                revision_opt(*expected),
                creating,
                revision_opt(*actual),
            ) is None,
            Err(e) => expectation_problem(
                path@,
                revision_opt(*expected),
                creating,
                revision_opt(*actual),
            ) == Some(e@),
        },
{
    if creating {
        if actual.is_some() {
            return Err(
                LocalCustomModelRouterRepositoryError::AlreadyExists { path: path.to_owned() },
            );
        }
        return Ok(());
    }
    let revision = match expected {
        Some(revision) => revision,
        None => {
            return Err(
                LocalCustomModelRouterRepositoryError::Conflict {
                    path: path.to_owned(),
                    expected: RouterFileRevision::empty(),
                    actual: clone_revision_opt(actual),
                },
            );
        },
    };
    let same = match actual {
        Some(actual) => actual.same(revision),
        None => false,
    };
    if !same {
        return Err(
            LocalCustomModelRouterRepositoryError::Conflict {
                path: path.to_owned(),
                expected: revision.clone(),
                actual: clone_revision_opt(actual),
            },
        );
    }
    Ok(())
}

/// Starts the change of a file that was looked at twice: the second look is
/// there for writers that do not respect the lock. The change starts only if
/// the file was as expected both times.
fn begin_write(
    path: &str,
    expected: &Option<RouterFileRevision>,
    creating: bool,
    first: &Option<RouterFileRevision>,
    second: &Option<RouterFileRevision>,
) -> (r: Result<
    Publication<LocalCustomModelRouterRepositoryError>,
    LocalCustomModelRouterRepositoryError,
>)
    ensures
        ({
            let want = revision_opt(*expected);
            let before = expectation_problem(path@, want, creating, revision_opt(*first));
            let again = expectation_problem(path@, want, creating, revision_opt(*second));
            match r {
                Ok(p) => before is None && again is None && p.change == (if creating {
                    FileChange::Create { undo: true }
                } else {
                    FileChange::Replace
                }) && p.phase == file_publication::first_phase::<
                    LocalCustomModelRouterRepositoryError,
                >(p.change),
                Err(e) => before == Some(e@) || before is None && again == Some(e@),
            }
        }),
{
    match check_expected(path, expected, creating, first) {
        Ok(_) => {},
        Err(error) => {
            return Err(error);
        },
    }
    match check_expected(path, expected, creating, second) {
        Ok(_) => {},
        Err(error) => {
            return Err(error);
        },
    }
    let change = if creating {
        FileChange::Create { undo: true }
    } else {
        FileChange::Replace
    };
    Ok(Publication::new(change))
}

/// Whether a change may start: it has passed every look at the file.
pub open spec fn started(
    change: FileChange,
    r: Result<
        Publication<LocalCustomModelRouterRepositoryError>,
        LocalCustomModelRouterRepositoryError,
    >,
    problem: Option<ErrorModel>,
) -> bool {
    match r {
        Ok(p) => problem is None && p.change == change && p.phase == file_publication::first_phase::<
            LocalCustomModelRouterRepositoryError,
        >(change),
        Err(e) => problem == Some(e@),
    }
}

/// Why contents cannot be written to a file that was looked at twice, if they
/// cannot.
pub open spec fn write_problem(
    path: Seq<char>,
    size: int,
    expected: Option<RevisionModel>,
    creating: bool,
    first: Option<RevisionModel>,
    second: Option<RevisionModel>,
) -> Option<ErrorModel> {
    if size_problem(path, size) is Some {
        size_problem(path, size)
    } else if expectation_problem(path, expected, creating, first) is Some {
        expectation_problem(path, expected, creating, first)
    } else {
        expectation_problem(path, expected, creating, second)
    }
}

impl LocalCustomModelRouterRepository {
    /// Starts the creation of a file. `first` and `second` are what stood under
    /// its name when it was looked at, the second time right before the change.
    pub fn create(
        &self,
        path: &str,
        serialized: &[u8],
        first: &Option<RouterFileRevision>,
        second: &Option<RouterFileRevision>,
    ) -> (r: Result<
        Publication<LocalCustomModelRouterRepositoryError>,
        LocalCustomModelRouterRepositoryError,
    >)
        ensures
            started(
                FileChange::Create { undo: true },
                r,
                write_problem(
                    path@,
                    serialized@.len() as int,
                    None,
                    true,
                    revision_opt(*first),
                    revision_opt(*second),
                ),
            ),
    {
        match validate_serialized_size(path, serialized) {
            Ok(_) => begin_write(path, &None, true, first, second),
            Err(error) => Err(error),
        }
    }

    /// Starts the replacement of a file that must be as the caller read it,
    /// both times that it was looked at.
    pub fn update(
        &self,
        path: &str,
        expected: &RouterFileRevision,
        serialized: &[u8],
        first: &Option<RouterFileRevision>,
        second: &Option<RouterFileRevision>,
    ) -> (r: Result<
        Publication<LocalCustomModelRouterRepositoryError>,
        LocalCustomModelRouterRepositoryError,
    >)
        ensures
            started(
                FileChange::Replace,
                r,
                write_problem(
                    path@,
                    serialized@.len() as int,
                    Some(expected@),
                    false,
                    revision_opt(*first),
                    revision_opt(*second),
                ),
            ),
    {
        match validate_serialized_size(path, serialized) {
            Ok(_) => begin_write(path, &Some(expected.clone()), false, first, second),
            Err(error) => Err(error),
        }
    }

    /// Starts the deletion of a file that is still as the caller read it.
    pub fn delete_checked(
        &self,
        path: &str,
        expected: &RouterFileRevision,
        current: &Option<RouterFileRevision>,
    ) -> (r: Result<
        Publication<LocalCustomModelRouterRepositoryError>,
        LocalCustomModelRouterRepositoryError,
    >)
        ensures
            match r {
                Ok(p) => revision_opt(*current) == Some(expected@) && p.change is Delete && p.phase
                    == file_publication::first_phase::<LocalCustomModelRouterRepositoryError>(p.change),
                Err(e) => revision_opt(*current) != Some(expected@) && e@
                    == (LocalCustomModelRouterRepositoryError::Conflict {
                    path: path@,
                    expected: expected@,
                    actual: revision_opt(*current),
                }),
            },
    {
        let expected = Some(expected.clone());
        match check_expected(path, &expected, false, current) {
            Ok(_) => Ok(Publication::new(FileChange::Delete)),
            Err(error) => Err(error),
        }
    }

    /// Whether a file that need not hold a router may be removed, by what
    /// stands under its name.
    pub fn delete_invalid(&self, path: &str, found: Option<EntryKind>) -> (r: Result<
        (),
        LocalCustomModelRouterRepositoryError,
    >)
        ensures
            match found {
                None => r matches Err(e) && e@ == (LocalCustomModelRouterRepositoryError::<
                    Seq<char>,
                    RevisionModel,
                >::NotFound { path: path@ }),
                Some(EntryKind::Regular) => r is Ok,
                Some(_) => r matches Err(e) && e@ == not_managed(path@),
            },
    {
        match found {
            None => Err(LocalCustomModelRouterRepositoryError::NotFound { path: path.to_owned() }),
            Some(kind) => check_entry(path, kind),
        }
    }
}

/// The name of the temporary file beside a file.
pub fn temp_name_as(target: &str, allocated: u128) -> (r: String)
    ensures
        r@ == "."@ + target@ + ".router-temp-"@ + ids::hyphenated(allocated),
{
    text::concat4(".", target, ".router-temp-", ids::uuid_text(allocated).as_str())
}

/// The name under which a file is moved aside.
pub fn backup_name_as(target: &str, allocated: u128) -> (r: String)
    ensures
        r@ == "."@ + target@ + ".router-backup-"@ + ids::hyphenated(allocated),
{
    text::concat4(".", target, ".router-backup-", ids::uuid_text(allocated).as_str())
}

/// A fresh name for the temporary file beside a file.
pub fn temp_name(target: &str) -> (r: String)
    ensures
        exists|id: u128|
            ids::is_v4(id) && r@ == "."@ + target@ + ".router-temp-"@
                + #[trigger] ids::hyphenated(id),
{
    temp_name_as(target, ids::random_uuid())
}

/// A fresh name under which a file is moved aside.
pub fn backup_name(target: &str) -> (r: String)
    ensures
        exists|id: u128|
            ids::is_v4(id) && r@ == "."@ + target@ + ".router-backup-"@
                + #[trigger] ids::hyphenated(id),
{
    backup_name_as(target, ids::random_uuid())
}

// ---------------------------------------------------------------------------
// Listing.

/// A file that could not be read as a router.
#[derive(Clone, Debug, PartialEq, Eq)]
pub struct ModelConfigError<S = String> {
    pub file_name: S,
    pub file_path: S,
    pub error_message: S,
}

impl View for ModelConfigError<String> {
    type V = ModelConfigError<Seq<char>>;

    open spec fn view(&self) -> ModelConfigError<Seq<char>> {
        ModelConfigError {
            file_name: self.file_name@,
            file_path: self.file_path@,
            error_message: self.error_message@,
        }
    }
}

/// An entry of the directory, as a walk over it reports it.
pub enum ScannedEntry {
    /// The entry could not be looked at.
    Unreadable { at: Option<String>, error: String },
    Entry { path: String, is_symlink: bool },
}

/// What an entry is: no router file, a file to report, or one to read.
pub enum EntryDecision<S = String> {
    Skip,
    Report(ModelConfigError<S>),
    Read { file_name: S, path: S },
}

pub type DecisionModel = EntryDecision<Seq<char>>;

impl View for EntryDecision<String> {
    type V = DecisionModel;

    open spec fn view(&self) -> DecisionModel {
        match self {
            EntryDecision::Skip => EntryDecision::Skip,
            EntryDecision::Report(error) => EntryDecision::Report(error@),
            EntryDecision::Read { file_name, path } => EntryDecision::Read {
                file_name: file_name@,
                path: path@,
            },
        }
    }
}

/// How a file is called in messages.
pub open spec fn shown_name(path: Seq<char>) -> Seq<char> {
    match paths::file_name(path) {
        Some(name) => name,
        None => "router.yaml"@,
    }
}

fn name_to_show(path: &str) -> (r: String)
    ensures
        r@ == shown_name(path@),
{
    match paths::path_file_name(path) {
        Some(name) => name,
        None => "router.yaml".to_owned(),
    }
}

pub open spec fn decision_of(directory: Seq<char>, entry: ScannedEntry) -> DecisionModel {
    match entry {
        ScannedEntry::Unreadable { at, error } => {
            let path = match at {
                Some(path) => path@,
                None => directory,
            };
            EntryDecision::Report(
                ModelConfigError {
                    file_name: shown_name(path),
                    file_path: path,
                    error_message: error@,
                },
            )
        },
        ScannedEntry::Entry { path, is_symlink } => if !paths::is_child(path@, directory)
            || !has_router_extension(path@) {
            EntryDecision::Skip
        } else if is_symlink {
            EntryDecision::Report(
                ModelConfigError {
                    file_name: shown_name(path@),
                    file_path: path@,
                    error_message: "router files must be regular files, not symlinks"@,
                },
            )
        } else {
            EntryDecision::Read { file_name: shown_name(path@), path: path@ }
        },
    }
}

/// Decides about one entry of the directory. Links are reported and never
/// followed.
pub fn decide_entry(directory: &str, entry: ScannedEntry) -> (r: EntryDecision)
    ensures
        r@ == decision_of(directory@, entry),
{
    match entry {
        ScannedEntry::Unreadable { at, error } => {
            let path = match at {
                Some(path) => path,
                None => directory.to_owned(),
            };
            EntryDecision::Report(
                ModelConfigError {
                    file_name: name_to_show(path.as_str()),
                    file_path: path,
                    error_message: error,
                },
            )
        },
        ScannedEntry::Entry { path, is_symlink } => {
            if !paths::path_is_child(path.as_str(), directory) || !path_has_router_extension(
                path.as_str(),
            ) {
                return EntryDecision::Skip;
            }
            let file_name = name_to_show(path.as_str());
            if is_symlink {
                return EntryDecision::Report(
                    ModelConfigError {
                        file_name,
                        file_path: path,
                        error_message: "router files must be regular files, not symlinks".to_owned(),
                    },
                );
            }
            EntryDecision::Read { file_name, path }
        },
    }
}

impl Ordered for StoredCustomModelRouter {
    /// By name without regard to case, then by path.
    open spec fn at_most(&self, other: &Self) -> bool {
        let a = text::text_lowercase(self@.router.info.display_name);
        let b = text::text_lowercase(other@.router.info.display_name);
        if a == b {
            paths::path_at_most(self@.path, other@.path)
        } else {
            text::text_at_most(a, b)
        }
    }

    proof fn order_total(a: &Self, b: &Self) {
        text::lemma_text_total(
            text::text_lowercase(a@.router.info.display_name),
            text::text_lowercase(b@.router.info.display_name),
        );
        paths::lemma_path_total(a@.path, b@.path);
    }

    proof fn order_transitive(a: &Self, b: &Self, c: &Self) {
        let x = text::text_lowercase(a@.router.info.display_name);
        let y = text::text_lowercase(b@.router.info.display_name);
        let z = text::text_lowercase(c@.router.info.display_name);
        if x == y && y == z {
            paths::lemma_path_transitive(a@.path, b@.path, c@.path);
        } else if x != y && y != z {
            text::lemma_text_transitive(x, y, z);
            if x == z {
                text::lemma_text_antisymmetric(x, y);
            }
        }
    }

    fn is_at_most(&self, other: &Self) -> (r: bool) {
        let a = text::lowercase_text(self.router.info.display_name.as_str());
        let b = text::lowercase_text(other.router.info.display_name.as_str());
        if text::same_text(a.as_str(), b.as_str()) {
            paths::is_path_at_most(self.path.as_str(), other.path.as_str())
        } else {
            text::is_text_at_most(a.as_str(), b.as_str())
        }
    }
}

impl LocalCustomModelRouterRepository {
    /// The routers of a listing in the order in which they are shown, beside
    /// the files that could not be read.
    pub fn list_with_errors(
        &self,
        routers: Vec<StoredCustomModelRouter>,
        errors: Vec<ModelConfigError>,
    ) -> (r: (Vec<StoredCustomModelRouter>, Vec<ModelConfigError>))
        ensures
            r.0@ == order::sorted_seq(routers@),
            order::sorted(r.0@),
            r.0@.to_multiset() == routers@.to_multiset(),
            r.1@ == errors@,
    {
        (order::sort(routers), errors)
    }

    /// The routers of a listing in the order in which they are shown, unless a
    /// file could not be read: then the first such file.
    pub fn list(&self, routers: Vec<StoredCustomModelRouter>, errors: Vec<ModelConfigError>) -> (r:
        Result<Vec<StoredCustomModelRouter>, LocalCustomModelRouterRepositoryError>)
        ensures
            match r {
                Ok(listed) => errors@.len() == 0 && listed@ == order::sorted_seq(routers@),
                Err(e) => errors@.len() > 0 && e@ == parse_error(
                    errors@[0].file_path@,
                    errors@[0].error_message@,
                ),
            },
    {
        let (routers, errors) = self.list_with_errors(routers, errors);
        if errors.len() > 0 {
            return Err(
                LocalCustomModelRouterRepositoryError::Parse {
                    path: errors[0].file_path.clone(),
                    message: errors[0].error_message.clone(),
                },
            );
        }
        Ok(routers)
    }
}

// ---------------------------------------------------------------------------
// Laws.

/// A file is managed only under a router file's name, directly in the
/// directory, and only where the requested path's parent is that directory.
pub proof fn law_managed_files_have_router_names(
    directory: Seq<char>,
    requested: Seq<char>,
    probe: PathProbe,
    missing_allowed: bool,
    path: Seq<char>,
)
    requires
        managed_outcome(directory, requested, probe, missing_allowed) == Ok::<
            Seq<char>,
            ErrorModel,
        >(path),
    ensures
        ({
            let asked = paths::join(directory, requested);
            &&& names_router_file(asked)
            &&& path == paths::join(directory, paths::file_name(asked)->0)
            &&& probe.parent matches Ok(parent) && paths::same_path(parent@, directory)
        }),
{
}

/// No lost update: of two writers that read the same revision, the second one
/// is refused once the first one's change shows in the file.
pub proof fn law_stale_writer_is_refused(
    path: Seq<char>,
    read: RevisionModel,
    now: Option<RevisionModel>,
)
    requires
        now != Some(read),
    ensures
        expectation_problem(path, Some(read), false, now) == Some(
            LocalCustomModelRouterRepositoryError::<Seq<char>, RevisionModel>::Conflict {
                path,
                expected: read,
                actual: now,
            },
        ),
{
}

/// Whether two revisions are of different files: the temporary file that an
/// update writes is there beside the old file.
pub open spec fn another_file(a: RevisionModel, b: RevisionModel) -> bool {
    a.device != b.device || a.inode != b.inode
}

/// An update is a compare-and-swap. It starts only for contents within the
/// limit and a file that has the expected revision. However its steps go, once
/// it has ended well the file has the new revision, and a second update that
/// expects the same as the first is a conflict; if it has failed, the old file
/// is kept.
pub proof fn law_update_is_a_compare_and_swap(
    path: Seq<char>,
    expected: RevisionModel,
    size: int,
    files: file_publication::Files<RevisionModel>,
    new: RevisionModel,
    steps: Seq<(Result<(), LocalCustomModelRouterRepositoryError>, Option<RevisionModel>)>,
    second_size: int,
)
    requires
        files.target matches Some(current) && another_file(new, current),
        0 <= size,
        0 <= second_size <= MAX_ROUTER_YAML_BYTES,
        file_publication::possible(
            FileChange::Replace,
            file_publication::first_phase(FileChange::Replace),
            files,
            new,
            steps,
        ),
    ensures
        ({
            let problem = write_problem(
                path,
                size,
                Some(expected),
                false,
                files.target,
                files.target,
            );
            let (phase, after) = file_publication::played(
                FileChange::Replace,
                file_publication::first_phase(FileChange::Replace),
                files,
                new,
                steps,
            );
            &&& problem is None <==> size <= MAX_ROUTER_YAML_BYTES && files.target == Some(expected)
            &&& size > MAX_ROUTER_YAML_BYTES ==> problem->0 is Oversize
            &&& size <= MAX_ROUTER_YAML_BYTES && files.target != Some(expected) ==> problem == Some(
                LocalCustomModelRouterRepositoryError::<Seq<char>, RevisionModel>::Conflict {
                    path,
                    expected,
                    actual: files.target,
                },
            )
            &&& problem is None && (phase matches file_publication::PublicationPhase::Done(Ok(_))) ==> after.target
                == Some(new) && write_problem(
                path,
                second_size,
                Some(expected),
                false,
                after.target,
                after.target,
            ) == Some(
                LocalCustomModelRouterRepositoryError::<Seq<char>, RevisionModel>::Conflict {
                    path,
                    expected,
                    actual: Some(new),
                },
            )
            &&& phase matches file_publication::PublicationPhase::Done(Err(_)) ==> file_publication::old_is_kept(
                after,
                files.target,
            )
        }),
{
    file_publication::law_replacement_is_all_or_nothing(files, new, steps);
}

/// A router file has a name of its own, which is not hidden and ends in `.yaml`
/// or `.yml`, and no part of its path goes up or stays.
pub proof fn law_names_of_router_files(path: Seq<char>)
    ensures
        names_router_file(path) <==> {
            &&& paths::file_name(path) is Some
            &&& !text::starts_with(paths::file_name(path)->0, "."@)
            &&& paths::extension(path) == Some("yaml"@) || paths::extension(path) == Some("yml"@)
            &&& forall|i: int|
                0 <= i < paths::components(path).len() ==> #[trigger] paths::components(path)[i]
                    != "."@ && paths::components(path)[i] != ".."@
        },
{
    if names_router_file(path) {
        assert forall|i: int| 0 <= i < paths::components(path).len() implies #[trigger]
        paths::components(path)[i] != "."@ && paths::components(path)[i] != ".."@ by {
            assert(!paths::is_special(paths::components(path)[i]));
        }
    }
}

/// A file is managed exactly where its name is that of a router file, its parent
/// is the directory, and it is there unless it may be missing.
pub proof fn law_files_that_are_managed(
    directory: Seq<char>,
    requested: Seq<char>,
    probe: PathProbe,
    missing_allowed: bool,
)
    ensures
        ({
            let path = paths::join(directory, requested);
            let outcome = managed_outcome(directory, requested, probe, missing_allowed);
            let in_place = probe.parent is Ok && paths::same_path(probe.parent->Ok_0@, directory);
            &&& outcome is Ok <==> names_router_file(path) && in_place && (missing_allowed
                || !probe.missing)
            &&& !names_router_file(path) ==> outcome == Err::<Seq<char>, ErrorModel>(
                LocalCustomModelRouterRepositoryError::InvalidPath { path },
            )
            &&& names_router_file(path) && probe.parent is Ok && !in_place ==> outcome == Err::<
                Seq<char>,
                ErrorModel,
            >(LocalCustomModelRouterRepositoryError::InvalidPath { path })
            &&& names_router_file(path) && in_place && !missing_allowed && probe.missing
                ==> outcome == Err::<Seq<char>, ErrorModel>(
                LocalCustomModelRouterRepositoryError::NotFound { path },
            )
            &&& names_router_file(path) && probe.parent is Err ==> outcome == Err::<
                Seq<char>,
                ErrorModel,
            >(
                LocalCustomModelRouterRepositoryError::Io {
                    path: probe.named_parent@,
                    source: probe.parent->Err_0@,
                },
            )
        }),
{
}

/// A router file may hold up to 262144 bytes; the error for a larger one tells
/// its size and the limit.
pub proof fn law_sizes_of_router_files(path: Seq<char>, size: int)
    requires
        size <= u64::MAX,
    ensures
        size_problem(path, size) is None <==> 0 <= size <= 262_144,
        size > 262_144 ==> size_problem(path, size) == Some(
            LocalCustomModelRouterRepositoryError::<Seq<char>, RevisionModel>::Oversize {
                path,
                size: size as u64,
                limit: 262_144,
            },
        ),
{
}

/// A file is created exactly where nothing is there, and changed or deleted
/// exactly where it is what the caller last saw.
pub proof fn law_expected_files(
    path: Seq<char>,
    expected: Option<RevisionModel>,
    actual: Option<RevisionModel>,
)
    ensures
        expectation_problem(path, expected, true, actual) is None <==> actual is None,
        actual is Some ==> expectation_problem(path, expected, true, actual) == Some(
            LocalCustomModelRouterRepositoryError::<Seq<char>, RevisionModel>::AlreadyExists {
                path,
            },
        ),
        expectation_problem(path, expected, false, actual) is None <==> expected is Some && actual
            == expected,
        expected is None ==> expectation_problem(path, expected, false, actual) == Some(
            LocalCustomModelRouterRepositoryError::<Seq<char>, RevisionModel>::Conflict {
                path,
                expected: no_revision(),
                actual,
            },
        ),
{
}

/// Contents are written exactly where they are small enough and both looks at
/// the file show what is expected; the first problem is told.
pub proof fn law_writes_that_start(
    path: Seq<char>,
    size: int,
    expected: Option<RevisionModel>,
    creating: bool,
    first: Option<RevisionModel>,
    second: Option<RevisionModel>,
)
    ensures
        write_problem(path, size, expected, creating, first, second) is None <==> 0 <= size
            <= 262_144 && (if creating {
            first is None && second is None
        } else {
            expected is Some && first == expected && second == expected
        }),
        size_problem(path, size) is Some ==> write_problem(
            path,
            size,
            expected,
            creating,
            first,
            second,
        ) == size_problem(path, size),
        size_problem(path, size) is None && expectation_problem(path, expected, creating, first)
            is Some ==> write_problem(path, size, expected, creating, first, second)
            == expectation_problem(path, expected, creating, first),
{
}

/// An entry is read exactly where it is a router file directly in the directory
/// and no link; a link is reported, and anything else is passed over.
pub proof fn law_entries_of_the_directory(
    directory: Seq<char>,
    path: String,
    is_symlink: bool,
    at: Option<String>,
    error: String,
)
    ensures
        ({
            let d = decision_of(directory, ScannedEntry::Entry { path, is_symlink });
            let ours = paths::is_child(path@, directory) && (paths::extension(path@) == Some(
                "yaml"@,
            ) || paths::extension(path@) == Some("yml"@));
            &&& d is Skip <==> !ours
            &&& d is Read <==> ours && !is_symlink
            &&& d is Report <==> ours && is_symlink
            &&& d is Read ==> d->path == path@
            &&& d is Read && paths::file_name(path@) is Some ==> d->file_name == paths::file_name(
                path@,
            )->0
            &&& d is Report ==> d->Report_0.file_path == path@
        }),
        ({
            let d = decision_of(directory, ScannedEntry::Unreadable { at, error });
            &&& d is Report
            &&& d->Report_0.error_message == error@
            &&& at is Some ==> d->Report_0.file_path == at->0@
            &&& at is None ==> d->Report_0.file_path == directory
        }),
{
}

} // verus!
