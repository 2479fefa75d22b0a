use local_ai::local_artifacts::{
    append_copied, artifact_from_row, normalize_description, owner_from_row,
    resolve_verified_path, safe_extension, stored_row, validate_managed_file, validate_owner,
    ArtifactIndex, ArtifactRow, ImportPhase, LocalArtifactError, LocalArtifactKind,
    LocalArtifactOwner, LocalArtifactRecord, LocalArtifactRepository, OwnerRow, SourceMetadata,
    SourceProbe, StoredArtifactRow, StoredOwnerRow,
};

fn repository() -> LocalArtifactRepository {
    let paths = LocalArtifactRepository::in_directory("/data");
    assert_eq!(paths.database_path, "/data/local-artifacts.sqlite");
    let root = paths.root.clone();
    LocalArtifactRepository::open(paths, Ok(root)).ok().unwrap()
}

fn probe(path: &str, len: usize) -> SourceProbe {
    SourceProbe {
        resolved: Some(path.to_owned()),
        metadata: Some(SourceMetadata { is_file: true, len: len as u64 }),
    }
}

fn import(
    repository: &LocalArtifactRepository,
    index: &mut ArtifactIndex,
    source: &str,
    contents: &[u8],
    owner: LocalArtifactOwner,
    description: Option<String>,
    mime_type: &str,
) -> ArtifactRow {
    let plan = repository
        .import_path(source, &probe(source, contents.len()), &owner, description)
        .ok()
        .unwrap();
    let mut copied = Vec::new();
    append_copied(&mut copied, contents).ok().unwrap();
    plan.check_copied(copied.len()).ok().unwrap();
    let row = plan.row(&copied, mime_type.to_owned(), mime_type.starts_with("image/"), 10);
    index.insert(row.clone(), owner).ok().unwrap();
    row
}

#[test]
fn p2_5_local_artifact_metadata_and_bytes_survive_restart() {
    let repository = repository();
    let mut index = ArtifactIndex::new();
    let contents = b"\x89PNG\r\n\x1a\nlocal screenshot artifact contents".to_vec();
    let source = "/home/me/screenshot.png";
    let imported = import(
        &repository,
        &mut index,
        source,
        &contents,
        LocalArtifactOwner::conversation("conversation-a"),
        Some("Local preview".to_string()),
        "image/png",
    );

    assert_eq!(imported.kind, LocalArtifactKind::Screenshot);
    assert_eq!(imported.mime_type, "image/png");
    assert_eq!(imported.checksum_sha256.len(), 64);
    assert_ne!(imported.local_path, source);
    assert!(imported.local_path.starts_with(repository.root()));

    let stored = stored_row(&imported);
    let owner = StoredOwnerRow {
        artifact_uid: stored.artifact_uid.clone(),
        owner_kind: "conversation".to_owned(),
        owner_id: "conversation-a".to_owned(),
        created_at: 10,
    };
    let read_back = artifact_from_row(stored).ok().unwrap();
    let owners = vec![owner_from_row(owner).ok().unwrap()];
    let reopened = ArtifactIndex::restore(vec![read_back], owners).unwrap();
    let record = reopened.get(imported.artifact_uid);
    let path = validate_managed_file(
        Ok(repository.root().to_owned()),
        Ok(imported.local_path.clone()),
        true,
    )
    .ok()
    .unwrap();
    let restored =
        resolve_verified_path(imported.artifact_uid, record, path, &contents).ok().unwrap();
    let record = LocalArtifactRecord {
        artifact_uid: imported.artifact_uid,
        kind: imported.kind,
        local_path: imported.local_path,
        source_path: imported.source_path,
        filename: imported.filename,
        mime_type: imported.mime_type,
        checksum_sha256: imported.checksum_sha256,
        size_bytes: imported.size_bytes,
        description: imported.description,
        created_at: imported.created_at,
        owners: vec![LocalArtifactOwner::conversation("conversation-a")],
    };
    assert_eq!(restored, record);
    assert_eq!(index.get(record.artifact_uid), Some(record));
    assert_eq!(restored.description, Some("Local preview".to_string()));
    assert_eq!(restored.filename, "screenshot.png");
    assert_eq!(restored.source_path, source);
    assert_eq!(restored.size_bytes, contents.len() as i64);
}

#[test]
fn owner_rows_name_an_artifact() {
    let row = |uid: &str| StoredOwnerRow {
        artifact_uid: uid.to_owned(),
        owner_kind: "conversation".to_owned(),
        owner_id: "a".to_owned(),
        created_at: 3,
    };
    let owner = owner_from_row(row("00000000-0000-0000-0000-00000000000a")).ok().unwrap();
    assert_eq!(owner.artifact_uid, 10);
    assert_eq!(owner.owner, LocalArtifactOwner::conversation("a"));
    assert_eq!(owner.created_at, 3);
    assert!(matches!(
        owner_from_row(row("nobody")),
        Err(LocalArtifactError::Corrupt(message)) if message.starts_with("invalid uid: ")
    ));
}

#[test]
fn p2_5_owner_release_keeps_shared_artifact_then_removes_last_copy() {
    let repository = repository();
    let mut index = ArtifactIndex::new();
    let owner_a = LocalArtifactOwner::conversation("conversation-a");
    let owner_b = LocalArtifactOwner::conversation("conversation-b");
    let imported = import(
        &repository,
        &mut index,
        "/home/me/report.txt",
        b"local report",
        owner_a.clone(),
        None,
        "text/plain",
    );
    assert!(index
        .attach_owner_if_present(imported.artifact_uid, &owner_b, 11)
        .ok()
        .expect("attach"));

    assert!(index.release_owner(&owner_a).ok().expect("release a").is_empty());
    assert!(index.get(imported.artifact_uid).is_some());

    assert_eq!(
        index.release_owner(&owner_b).ok().expect("release b"),
        vec![(imported.artifact_uid, imported.local_path)]
    );
    assert!(index.get(imported.artifact_uid).is_none());
}

#[test]
fn p2_5_checksum_verification_detects_tampering() {
    let repository = repository();
    let mut index = ArtifactIndex::new();
    let imported = import(
        &repository,
        &mut index,
        "/home/me/report.txt",
        b"trusted local report",
        LocalArtifactOwner::manual("test"),
        Some("Report".to_string()),
        "text/plain",
    );
    assert!(matches!(
        resolve_verified_path(
            imported.artifact_uid,
            index.get(imported.artifact_uid),
            imported.local_path.clone(),
            &b"tampered".to_vec()
        ),
        Err(LocalArtifactError::ChecksumMismatch { .. })
    ));
    assert!(matches!(
        resolve_verified_path(7, None, String::new(), &Vec::new()),
        Err(LocalArtifactError::NotFound(7))
    ));
}

#[test]
fn checksum_is_that_of_the_bytes() {
    let repository = repository();
    let mut index = ArtifactIndex::new();
    let row = import(
        &repository,
        &mut index,
        "/a.txt",
        b"abc",
        LocalArtifactOwner::manual("m"),
        None,
        "text/plain",
    );
    assert_eq!(
        row.checksum_sha256,
        "ba7816bf8f01cfea414140de5dae2223b00361a396177a9cb410ff61f20015ad"
    );
    assert_eq!(row.kind, LocalArtifactKind::File);
    assert_eq!(row.filename, "a.txt");
}

#[test]
fn imports_are_planned_below_the_root() {
    let plan = repository()
        .import_path_as(
            "report.TXT",
            &probe("/home/me/report.TXT", 3),
            &LocalArtifactOwner::manual("m"),
            Some("  kept  ".to_owned()),
            0xab000000000000000000000000000001,
        )
        .ok()
        .unwrap();
    let root = repository().root().to_owned();
    assert_eq!(plan.directory, format!("{root}/objects/ab"));
    assert_eq!(
        plan.destination,
        format!("{root}/objects/ab/ab000000-0000-0000-0000-000000000001.txt")
    );
    assert_eq!(
        plan.temporary,
        format!("{root}/objects/ab/.ab000000-0000-0000-0000-000000000001.partial")
    );
    assert_eq!(plan.description, Some("kept".to_owned()));
    assert!(plan.check_copied(2).is_err());
}

#[test]
fn sources_are_checked_before_they_are_taken() {
    let repository = repository();
    let owner = LocalArtifactOwner::manual("m");
    let problem = |probe: SourceProbe| {
        repository.import_path("/x", &probe, &owner, None).err().unwrap()
    };
    assert!(matches!(
        problem(SourceProbe { resolved: None, metadata: None }),
        LocalArtifactError::InvalidSource(_)
    ));
    assert!(matches!(
        problem(SourceProbe {
            resolved: Some("/x".to_owned()),
            metadata: Some(SourceMetadata { is_file: false, len: 1 })
        }),
        LocalArtifactError::InvalidSource(_)
    ));
    let nobody = LocalArtifactOwner { kind: String::new(), id: "x".to_owned() };
    assert!(validate_owner(&nobody).is_err());
    assert!(validate_owner(&owner).is_ok());
    assert_eq!(normalize_description(Some("  ".to_owned())).ok().unwrap(), None);
    assert_eq!(safe_extension("/a/b.PNG"), Some("png".to_owned()));
    assert_eq!(safe_extension("/a/b.ta/r"), None);
    assert_eq!(safe_extension("/a/.hidden"), None);
}

#[test]
fn failed_imports_leave_nothing_behind() {
    let phase: ImportPhase<u8> = ImportPhase::first();
    let phase = phase.advance(Ok(())).advance(Err(5));
    assert!(matches!(phase, ImportPhase::DropTemporary(5)));
    assert!(matches!(phase.advance(Ok(())), ImportPhase::Done(Err(5))));
}

#[test]
fn files_outside_the_root_are_not_managed() {
    let root = || Ok("/data/artifacts".to_owned());
    assert!(validate_managed_file(root(), Ok("/data/artifacts/a".to_owned()), true).is_ok());
    assert!(validate_managed_file(root(), Ok("/data/other".to_owned()), true).is_err());
    assert!(validate_managed_file(root(), Ok("/data/artifacts/a".to_owned()), false).is_err());
    assert!(validate_managed_file(root(), Err("gone".to_owned()), true).is_err());
}

#[test]
fn attaching_twice_changes_nothing() {
    let repository = repository();
    let mut index = ArtifactIndex::new();
    let owner = LocalArtifactOwner::manual("m");
    let row =
        import(&repository, &mut index, "/a", b"a", owner.clone(), None, "text/plain");
    assert!(index.attach_owner_if_present(row.artifact_uid, &owner, 20).ok().unwrap());
    assert_eq!(index.get(row.artifact_uid).unwrap().owners.len(), 1);
    assert!(!index.attach_owner_if_present(99, &owner, 20).ok().unwrap());
    assert!(index.cleanup_unowned().is_empty());
    assert_eq!(index.list(Some(&owner)).ok().unwrap().len(), 1);
    assert_eq!(index.list(None).ok().unwrap().len(), 1);
}

#[test]
fn unowned_artifacts_are_cleaned_up() {
    let repository = repository();
    let mut index = ArtifactIndex::new();
    let row = import(
        &repository,
        &mut index,
        "/a",
        b"a",
        LocalArtifactOwner::manual("m"),
        None,
        "text/plain",
    );
    let mut unowned = ArtifactIndex::restore(vec![row.clone()], Vec::new()).unwrap();
    assert_eq!(unowned.cleanup_unowned(), vec![(row.artifact_uid, row.local_path.clone())]);
    let orphan = OwnerRow {
        artifact_uid: 1,
        owner: LocalArtifactOwner::manual("m"),
        created_at: 0,
    };
    assert!(ArtifactIndex::restore(Vec::new(), vec![orphan]).is_none());
}

#[test]
fn broken_rows_are_refused() {
    let row = |uid: &str, checksum: &str| StoredArtifactRow {
        artifact_uid: uid.to_owned(),
        kind: "file".to_owned(),
        local_path: "/a".to_owned(),
        source_path: "/b".to_owned(),
        filename: "b".to_owned(),
        mime_type: "text/plain".to_owned(),
        checksum_sha256: checksum.to_owned(),
        size_bytes: 1,
        description: None,
        created_at: 0,
    };
    assert!(artifact_from_row(row("x", &"0".repeat(64))).is_err());
    let uid = "00000000-0000-0000-0000-000000000001";
    assert!(artifact_from_row(row(uid, "short")).is_err());
    assert_eq!(artifact_from_row(row(uid, &"a".repeat(64))).ok().unwrap().artifact_uid, 1);
}
