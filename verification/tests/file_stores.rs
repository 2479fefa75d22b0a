use local_ai::custom_model_routers::{
    CustomModelRouter, CustomModelRouting, PromptRouting, RouterDocument, RouterReading,
    RoutingSection, SourcePath,
};
use local_ai::file_publication::{FileChange, FileOperation, Publication};
use local_ai::router_repository::{
    access_failure, append_bounded, check_size, decide_entry, temp_name_as,
    validate_serialized_size, EntryDecision, EntryKind, FailureKind,
    LocalCustomModelRouterRepository, LocalCustomModelRouterRepositoryError, PathProbe,
    RouterFileRevision, ScannedEntry, StoredCustomModelRouter,
};

/// One file of a directory and the names beside it.
#[derive(Clone, Default)]
struct Directory {
    target: Option<String>,
    temp: Option<String>,
    backup: Option<String>,
    inode: u64,
}

impl Directory {
    fn perform(&mut self, operation: FileOperation, contents: &str) -> Result<(), String> {
        match operation {
            FileOperation::WriteTemp => self.temp = Some(contents.to_owned()),
            FileOperation::LinkTempToTarget => {
                if self.target.is_some() {
                    return Err("already there".to_owned());
                }
                self.target = self.temp.clone();
                self.inode += 1;
            }
            FileOperation::RemoveTemp => self.temp = None,
            FileOperation::MoveTargetToBackup => self.backup = self.target.take(),
            FileOperation::MoveTempToTarget => {
                self.target = self.temp.take();
                self.inode += 1;
            }
            FileOperation::MoveBackupToTarget => self.target = self.backup.take(),
            FileOperation::RemoveTarget => self.target = None,
            FileOperation::RemoveBackup => self.backup = None,
            FileOperation::SyncDirectory | FileOperation::Nothing => {}
        }
        Ok(())
    }

    fn revision(&self) -> Option<RouterFileRevision> {
        self.target.as_ref().map(|contents| {
            RouterFileRevision::of_file(contents.as_bytes(), contents.len() as i64, 1, self.inode)
        })
    }

    /// Carries a change out; the operation with that number fails.
    fn publish<E>(
        &mut self,
        mut publication: Publication<E>,
        contents: &str,
        failing: Option<usize>,
        error: impl Fn(String) -> E,
    ) -> Result<(), E> {
        for step in 0..20 {
            let operation = publication.operation();
            if matches!(operation, FileOperation::Nothing) {
                break;
            }
            let outcome = if failing == Some(step) {
                Err(error("failed".to_owned()))
            } else {
                self.perform(operation, contents).map_err(&error)
            };
            publication = publication.advance(outcome);
        }
        publication.finish().unwrap()
    }
}

fn io_error(source: String) -> LocalCustomModelRouterRepositoryError {
    LocalCustomModelRouterRepositoryError::Io { path: "/routers/one.yaml".to_owned(), source }
}

fn repository() -> LocalCustomModelRouterRepository {
    LocalCustomModelRouterRepository::new("/routers")
}

fn source() -> SourcePath {
    SourcePath { path: "/routers/one.yaml".to_owned(), shown: "~/one.yaml".to_owned() }
}

fn contents_of(router: &CustomModelRouter) -> String {
    format!("name: {}\ntype: prompt\ndefault: custom/local/model\n", router.info.display_name)
}

fn read(directory: &Directory) -> StoredCustomModelRouter {
    let contents = directory.target.clone().unwrap();
    let name = contents.lines().next().unwrap().trim_start_matches("name: ").to_owned();
    let reading = RouterReading::Router {
        document: RouterDocument {
            name,
            model_type: "prompt".to_owned(),
            default: Some("custom/local/model".to_owned()),
            routing: RoutingSection::Absent,
        },
        more: false,
    };
    repository()
        .read(&source(), &Ok(contents), reading, directory.revision().unwrap())
        .ok()
        .unwrap()
}

fn router(name: &str) -> CustomModelRouter {
    CustomModelRouter::new_local(
        name.to_owned(),
        CustomModelRouting::Prompt(PromptRouting {
            default_model: "custom/local/model".to_owned(),
            rules: Vec::new(),
        }),
        None,
    )
}

fn write(
    directory: &mut Directory,
    expected: &Option<RouterFileRevision>,
    router: &CustomModelRouter,
) -> Result<(), LocalCustomModelRouterRepositoryError> {
    let now = directory.revision();
    let contents = contents_of(router);
    let publication = match expected {
        Some(expected) => repository().update(
            "/routers/one.yaml",
            expected,
            contents.as_bytes(),
            &now,
            &now,
        )?,
        None => repository().create("/routers/one.yaml", contents.as_bytes(), &now, &now)?,
    };
    directory.publish(publication, &contents, None, io_error)
}

#[test]
fn repository_crud_uses_stable_ids_and_compare_and_swap() {
    let mut directory = Directory::default();
    let one = router("One");
    assert!(write(&mut directory, &None, &one).is_ok());
    let created = read(&directory);
    let again = read(&directory);
    assert_eq!(again.router.llm_id().as_str(), created.router.llm_id().as_str());
    let renamed = one.with_display_name("Renamed".to_owned());
    let opened = Some(again.revision.clone());
    assert!(write(&mut directory, &opened, &renamed).is_ok());
    assert!(matches!(
        write(&mut directory, &opened, &one),
        Err(LocalCustomModelRouterRepositoryError::Conflict { .. })
    ));
    assert!(repository().delete_checked("/routers/one.yaml", &again.revision, &directory.revision()).is_err());
    let updated = read(&directory);
    assert_eq!(updated.router.info.display_name, "Renamed");
    assert_eq!(updated.router.llm_id().as_str(), created.router.llm_id().as_str());
    let deletion =
        repository().delete_checked("/routers/one.yaml", &updated.revision, &directory.revision()).ok().unwrap();
    assert!(directory.publish(deletion, "", None, io_error).is_ok());
    assert!(directory.target.is_none());
    assert!(directory.backup.is_none());
}

#[test]
fn files_that_are_there_are_not_created() {
    let mut directory = Directory { target: Some("x".to_owned()), ..Directory::default() };
    assert!(matches!(
        write(&mut directory, &None, &router("One")),
        Err(LocalCustomModelRouterRepositoryError::AlreadyExists { .. })
    ));
}

#[test]
fn failed_changes_leave_the_old_file() {
    for failing in 0..6 {
        let mut directory =
            Directory { target: Some("old".to_owned()), inode: 1, ..Directory::default() };
        let publication = Publication::new(FileChange::Replace);
        match directory.publish(publication, "new", Some(failing), |error| error) {
            Ok(()) => assert_eq!(directory.target.as_deref(), Some("new")),
            Err(_) => assert_eq!(directory.target.as_deref(), Some("old")),
        }
        let mut directory =
            Directory { target: Some("old".to_owned()), inode: 1, ..Directory::default() };
        let publication = Publication::new(FileChange::Delete);
        match directory.publish(publication, "", Some(failing), |error| error) {
            Ok(()) => assert!(directory.target.is_none()),
            Err(_) => assert_eq!(directory.target.as_deref(), Some("old")),
        }
    }
    let mut directory = Directory::default();
    let publication = Publication::new(FileChange::Create { undo: true });
    assert!(directory.publish(publication, "new", Some(1), |error| error).is_err());
    assert!(directory.target.is_none() && directory.temp.is_none());
}

#[test]
fn paths_outside_the_directory_are_not_managed() {
    let repository = LocalCustomModelRouterRepository::new("/routers");
    let probe = |parent: &str| PathProbe {
        parent: Ok(parent.to_owned()),
        named_parent: parent.to_owned(),
        missing: false,
    };
    assert_eq!(
        repository.validate_managed_path("/routers", "one.yaml", &probe("/routers")).ok().unwrap(),
        "/routers/one.yaml"
    );
    assert!(matches!(
        repository.validate_managed_path("/routers", "../x.yaml", &probe("/")),
        Err(LocalCustomModelRouterRepositoryError::NotManaged { .. })
            | Err(LocalCustomModelRouterRepositoryError::InvalidPath { .. })
    ));
    assert!(repository
        .validate_managed_path("/routers", "notes.txt", &probe("/routers"))
        .is_err());
    assert!(repository.check_directory(false, true).is_ok());
    assert!(repository.check_directory(true, true).is_err());
    assert_eq!(
        temp_name_as("one.yaml", 1),
        ".one.yaml.router-temp-00000000-0000-0000-0000-000000000001"
    );
}

#[test]
fn links_and_unreadable_entries_are_reported() {
    let entry = |path: &str, is_symlink: bool| ScannedEntry::Entry {
        path: path.to_owned(),
        is_symlink,
    };
    assert!(matches!(
        decide_entry("/routers", entry("/routers/link.yaml", true)),
        EntryDecision::Report(error)
            if error.error_message == "router files must be regular files, not symlinks"
    ));
    assert!(matches!(
        decide_entry("/routers", entry("/routers/one.yaml", false)),
        EntryDecision::Read { .. }
    ));
    assert!(matches!(
        decide_entry("/routers", entry("/routers/deep/one.yaml", false)),
        EntryDecision::Skip
    ));
    let EntryDecision::Report(error) = decide_entry(
        "/routers",
        ScannedEntry::Unreadable { at: None, error: "denied".to_owned() },
    ) else {
        panic!("an entry that cannot be read is reported");
    };
    assert_eq!(error.file_path, "/routers");
    assert!(matches!(
        repository().list(Vec::new(), vec![error]),
        Err(LocalCustomModelRouterRepositoryError::Parse { .. })
    ));
}

#[test]
fn oversized_files_are_refused() {
    let limit = 262_144;
    assert!(check_size("/a", limit).is_ok());
    assert!(matches!(
        check_size("/a", limit + 1),
        Err(LocalCustomModelRouterRepositoryError::Oversize { .. })
    ));
    assert!(validate_serialized_size("/a", &vec![0; limit as usize + 1]).is_err());
    let mut bytes = vec![0; limit as usize];
    assert!(append_bounded("/a", &mut bytes, &[1]).is_err());
}

#[test]
fn revisions_follow_the_contents_and_the_file() {
    let of = |contents: &str, inode: u64| {
        RouterFileRevision::of_file(contents.as_bytes(), contents.len() as i64, 1, inode)
    };
    assert!(of("a", 1).same(&of("a", 1)));
    assert!(!of("a", 1).same(&of("b", 1)));
    assert!(!of("a", 1).same(&of("a", 2)));
    assert_eq!(of("abc", 1).content_hash[0], 0xba);
}

#[test]
fn listings_are_sorted_by_name_without_case() {
    let stored = |name: &str| StoredCustomModelRouter {
        router: router(name),
        path: format!("/routers/{name}.yaml"),
        revision: RouterFileRevision::empty(),
    };
    let names = repository()
        .list_with_errors(vec![stored("beta"), stored("Alpha"), stored("ALPHA")], Vec::new())
        .0
        .into_iter()
        .map(|stored| stored.path)
        .collect::<Vec<_>>();
    assert_eq!(names, ["/routers/ALPHA.yaml", "/routers/Alpha.yaml", "/routers/beta.yaml"]);
}

#[test]
fn only_regular_files_are_removed_unread() {
    let path = "/routers/one.yaml";
    assert!(repository().delete_invalid(path, Some(EntryKind::Regular)).is_ok());
    assert!(matches!(
        repository().delete_invalid(path, Some(EntryKind::Link)),
        Err(LocalCustomModelRouterRepositoryError::NotManaged { .. })
    ));
    assert!(matches!(
        repository().delete_invalid(path, None),
        Err(LocalCustomModelRouterRepositoryError::NotFound { .. })
    ));
    assert!(matches!(
        access_failure(path, FailureKind::Missing, "gone"),
        LocalCustomModelRouterRepositoryError::NotFound { .. }
    ));
    assert_eq!(
        access_failure(path, FailureKind::Other, "denied").message(),
        "could not access router file /routers/one.yaml: denied"
    );
}
