use local_ai::relevant_files::{
    absolute_path_of, bounded_content_scores, check_outline, content_candidate_score,
    contains_token_sequence, contexts_of, local_outline_locations_from_candidates,
    normalized_path, normalized_tokens, outline_candidate_score,
    rank_local_outline_candidates as rank_local_outline_candidates_with_content, revalidate,
    root_directory_for_search, search_order, validated_local_candidates, CandidateProbe,
    FileContext, GetRelevantFilesController, GetRelevantFilesControllerEvent,
    GetRelevantFilesControllerResult, GetRelevantFilesError, LocalCandidateScore, OutlineStatus,
    RequestHandle, SearchCodebaseResult, SearchedFile, StartedRequest,
    LOCAL_CONTENT_SEARCH_MAX_BYTES_PER_FILE, LOCAL_CONTENT_SEARCH_MAX_FILES,
    LOCAL_OUTLINE_RESULT_LIMIT,
};
use std::collections::{BTreeMap, BTreeSet};

type Event = GetRelevantFilesControllerEvent<BTreeSet<String>, u8>;

fn file(path: &str, symbols: &str) -> FileContext {
    FileContext { path: path.to_owned(), symbols: symbols.to_owned() }
}

fn paths(files: Vec<FileContext>) -> Vec<String> {
    files.into_iter().map(|file| file.path).collect()
}

fn rank_local_outline_candidates(
    query: &str,
    partial_path_segments: Option<&Vec<String>>,
    candidates: Vec<FileContext>,
) -> Vec<FileContext> {
    let none = Vec::new();
    rank_local_outline_candidates_with_content(
        query,
        partial_path_segments.unwrap_or(&none),
        candidates,
        &Vec::new(),
    )
}

/// A codebase: the files by their path on disk.
struct Disk {
    root: String,
    files: BTreeMap<String, Vec<u8>>,
}

impl Disk {
    fn new(root: &str) -> Disk {
        Disk { root: root.to_owned(), files: BTreeMap::new() }
    }

    fn write(&mut self, relative_path: &str, contents: &[u8]) -> String {
        let path = format!("{}/{relative_path}", self.root);
        self.files.insert(path.clone(), contents.to_vec());
        path
    }

    fn resolve(&self, path: &str) -> Option<String> {
        let full =
            if path.starts_with('/') { path.to_owned() } else { format!("{}/{path}", self.root) };
        self.files.contains_key(&full).then_some(full)
    }

    fn probe(&self, context: FileContext) -> CandidateProbe {
        let resolved = self.resolve(&context.path);
        let is_file = resolved.is_some();
        CandidateProbe { context, resolved, is_file }
    }

    /// Searches the outline and the contents of the candidates.
    fn search(&self, query: &str, candidates: Vec<FileContext>) -> BTreeSet<String> {
        let none = Vec::new();
        let probes = candidates.into_iter().map(|context| self.probe(context)).collect();
        let validated = validated_local_candidates(&self.root, &probes);
        let searched = search_order(query, &none, &contexts_of(&validated))
            .into_iter()
            .map(|context| SearchedFile {
                contents: absolute_path_of(&validated, &context.path)
                    .and_then(|path| self.files.get(&path).cloned()),
                path: context.path,
            })
            .collect();
        local_outline_locations_from_candidates(query, &none, &validated, &searched)
            .into_iter()
            .filter_map(|path| {
                let resolved = self.resolve(&path);
                let is_file = resolved.is_some();
                revalidate(&self.root, resolved, is_file)
            })
            .collect()
    }
}

#[test]
fn ranks_local_outline_candidates_without_inventing_or_repeating_paths() {
    assert!(rank_local_outline_candidates("needle", None, Vec::new()).is_empty());
    assert!(rank_local_outline_candidates(
        "",
        None,
        vec![file("src/a.rs", ""), file("src/b.rs", "")],
    )
    .is_empty());
    assert_eq!(
        paths(rank_local_outline_candidates("", None, vec![file("src/only.rs", "")])),
        ["src/only.rs"]
    );

    let mut candidates =
        vec![file("src/duplicate.rs", "fn token"), file("src/duplicate.rs", "fn token")];
    candidates.extend(
        (0..=LOCAL_OUTLINE_RESULT_LIMIT)
            .map(|index| file(&format!("src/result_{index:02}.rs"), "fn token")),
    );
    let ranked = rank_local_outline_candidates("token", None, candidates);

    assert_eq!(ranked.len(), LOCAL_OUTLINE_RESULT_LIMIT);
    assert_eq!(ranked.iter().filter(|file| file.path == "src/duplicate.rs").count(), 1);
    assert_eq!(ranked[0].path, "src/duplicate.rs");
    assert_eq!(ranked[LOCAL_OUTLINE_RESULT_LIMIT - 1].path, "src/result_18.rs");
}

#[test]
fn ranks_local_outline_candidates_without_cross_tier_inversion() {
    let query = "one two three four five six seven eight nine ten eleven twelve";
    let partial_paths = vec!["src/high".to_owned()];
    let path_match = file("src/high/unrelated.rs", "");
    let many_filename_matches =
        file("src/one-two-three-four-five-six-seven-eight-nine-ten-eleven-twelve.rs", "");
    assert_eq!(
        paths(rank_local_outline_candidates(
            query,
            Some(&partial_paths),
            vec![many_filename_matches, path_match],
        )),
        [
            "src/high/unrelated.rs",
            "src/one-two-three-four-five-six-seven-eight-nine-ten-eleven-twelve.rs",
        ]
    );

    let filename_match = file("src/one.rs", "");
    let many_symbol_matches = file(
        "src/symbols.rs",
        "fn two three four five six seven eight nine ten eleven twelve",
    );
    assert_eq!(
        paths(rank_local_outline_candidates(
            query,
            None,
            vec![many_symbol_matches, filename_match],
        )),
        ["src/one.rs", "src/symbols.rs"]
    );

    let symbol_token_match = file("src/symbol_token.rs", "fn one");
    let many_symbol_substrings = file(
        "src/symbol_substrings.rs",
        "fn xtwox xthreex xfourx xfivex xsixx xsevenx xeightx xninex xtenx xelevenx xtwelvex",
    );
    assert_eq!(
        paths(rank_local_outline_candidates(
            query,
            None,
            vec![many_symbol_substrings, symbol_token_match],
        )),
        ["src/symbol_token.rs", "src/symbol_substrings.rs"]
    );

    let symbol_substring = file("src/symbol_substring.rs", "fn prefixneedle_suffix");
    let content_only = file("src/content_only.rs", "");
    let content_scores = vec![(
        content_only.path.clone(),
        LocalCandidateScore { content_token_matches: 100, ..LocalCandidateScore::default() },
    )];
    assert_eq!(
        paths(rank_local_outline_candidates_with_content(
            "needle",
            &Vec::new(),
            vec![content_only, symbol_substring],
            &content_scores,
        )),
        ["src/symbol_substring.rs", "src/content_only.rs"]
    );
}

#[test]
fn ranks_local_outline_candidates_with_canonically_equivalent_unicode() {
    let decomposed_query = "cafe\u{301}";
    let ranked = rank_local_outline_candidates(
        decomposed_query,
        None,
        vec![file("src/caf\u{e9}.rs", "fn unrelated")],
    );

    assert_eq!(paths(ranked), ["src/caf\u{e9}.rs"]);
}

#[test]
fn local_outline_search_returns_existing_whole_files_from_content_evidence() {
    let mut repo = Disk::new("/repo");
    let name_match = repo.write("src/needle_name.rs", b"fn unrelated() {}\n");
    let content_match = repo.write(
        "src/content.rs",
        b"fn unrelated() { let search_value = \"needle\"; }\n",
    );
    repo.write("src/irrelevant.rs", b"fn unrelated() {}\n");
    let outline = || {
        vec![
            file("src/content.rs", "fn unrelated"),
            file("src/irrelevant.rs", "fn unrelated"),
            file("src/needle_name.rs", "fn unrelated"),
        ]
    };
    assert!(check_outline(Some(OutlineStatus::Complete)).is_ok());
    let first = repo.search("needle", outline());
    let second = repo.search("needle", outline());
    let expected = BTreeSet::from([name_match, content_match]);
    assert_eq!(first, expected);
    assert_eq!(second, expected);
}

#[test]
fn local_outline_controller_dispatch_is_synchronous_and_keeps_no_pending_request() {
    let mut repo = Disk::new("/repo");
    let matching = repo.write("src/controller_needle.rs", b"fn unrelated() {}\n");
    repo.write("src/irrelevant.rs", b"fn unrelated() {}\n");
    let found = repo.search(
        "controller needle",
        vec![
            file("src/controller_needle.rs", "fn unrelated"),
            file("src/irrelevant.rs", "fn unrelated"),
        ],
    );

    let mut controller = GetRelevantFilesController::new();
    let event: Option<Event> = controller
        .send_request(
            "local-controller-search".to_owned(),
            StartedRequest::Local { retrieval: None, outline: Ok(found) },
        )
        .1
        .ok()
        .unwrap();
    assert_eq!(controller.pending_count(), 0);
    let Some(GetRelevantFilesControllerEvent::Success {
        action_id,
        result: GetRelevantFilesControllerResult::Locations(locations),
    }) = event
    else {
        panic!("the outline answers at once");
    };
    assert_eq!(action_id, "local-controller-search");
    assert_eq!(locations, BTreeSet::from([matching]));
}

#[test]
fn local_outline_states_remain_explicit_errors() {
    assert!(matches!(
        check_outline(Some(OutlineStatus::Pending)),
        Err(GetRelevantFilesError::Pending)
    ));
    assert!(matches!(
        check_outline(Some(OutlineStatus::Failed)),
        Err(GetRelevantFilesError::CreateFailed)
    ));
    assert!(matches!(check_outline(None), Err(GetRelevantFilesError::Missing)));
    assert_eq!(
        GetRelevantFilesError::Pending.message(),
        "Repo outline is still being computed."
    );
    assert_eq!(GetRelevantFilesError::Missing.message(), "Failed to create outline.");
}

#[test]
fn search_codebase_local_content_search_obeys_file_and_byte_bounds() {
    let mut repo = Disk::new("/repo");
    let mut candidates = Vec::new();
    for index in 0..=LOCAL_CONTENT_SEARCH_MAX_FILES {
        let relative_path = format!("src/file_{index:03}.rs");
        let contents = if index + 1 >= LOCAL_CONTENT_SEARCH_MAX_FILES {
            b"// boundedneedle\n".as_slice()
        } else {
            b"// unrelated\n".as_slice()
        };
        repo.write(&relative_path, contents);
        candidates.push(file(&relative_path, ""));
    }

    let locations = repo.search("boundedneedle", candidates);
    assert_eq!(
        locations,
        BTreeSet::from([format!("/repo/src/file_{:03}.rs", LOCAL_CONTENT_SEARCH_MAX_FILES - 1)])
    );

    let after_byte_bound = vec![b'x'; LOCAL_CONTENT_SEARCH_MAX_BYTES_PER_FILE];
    let mut after_byte_bound_with_match = after_byte_bound;
    after_byte_bound_with_match.extend_from_slice(b"boundedneedle");
    repo.write("src/after_byte_bound.rs", &after_byte_bound_with_match);
    let searched = vec![SearchedFile {
        path: "src/after_byte_bound.rs".to_owned(),
        contents: Some(after_byte_bound_with_match),
    }];
    assert!(bounded_content_scores("boundedneedle", &searched).is_empty());
}

#[test]
fn search_codebase_local_outline_rejects_missing_and_outside_paths() {
    let mut repo = Disk::new("/repo");
    let valid = repo.write("src/valid.rs", b"// safequery\n");
    repo.files.insert("/outside/outside.rs".to_owned(), b"// safequery\n".to_vec());
    let candidates = vec![
        file("src/valid.rs", ""),
        file("src/missing.rs", "fn safequery"),
        file("/outside/outside.rs", "fn safequery"),
    ];
    assert_eq!(repo.search("safequery", candidates), BTreeSet::from([valid]));
}

#[test]
fn search_codebase_local_outline_revalidates_a_selected_path() {
    let inside = Some("/repo/src/replace_me.rs".to_owned());
    assert_eq!(revalidate("/repo", inside.clone(), true), inside);
    assert_eq!(revalidate("/repo", None, false), None);
    assert_eq!(revalidate("/repo", Some("/outside/outside.rs".to_owned()), true), None);
    assert_eq!(revalidate("/repo", Some("/repository/a.rs".to_owned()), true), None);
    assert_eq!(revalidate("/repo", Some("/repo/src".to_owned()), false), None);
}

#[test]
fn cancelled_requests_are_gone_and_others_stay() {
    let mut controller = GetRelevantFilesController::new();
    for (action, id) in [("a", 1), ("b", 2)] {
        let (former, sent) = controller.send_request::<BTreeSet<String>, u8>(
            action.to_owned(),
            StartedRequest::Local {
                retrieval: Some(("/repo".to_owned(), id)),
                outline: Err(GetRelevantFilesError::Missing),
            },
        );
        assert!(former.is_none());
        assert!(matches!(sent, Ok(None)));
    }
    assert_eq!(controller.pending_count(), 2);
    assert!(matches!(
        controller.cancel_request_for_action("a"),
        Some(RequestHandle::RetrievalID { retrieval_id: 1, .. })
    ));
    assert!(controller.cancel_request_for_action("a").is_none());
    let late: Option<Event> = controller.handle_codebase_manager_event(1, Ok(BTreeSet::new()));
    assert!(late.is_none());
    let other: Option<Event> =
        controller.handle_codebase_manager_event(2, Err("failed".to_owned()));
    assert!(matches!(other, Some(GetRelevantFilesControllerEvent::Error { .. })));
    assert_eq!(controller.pending_count(), 0);
}

#[test]
fn remote_failures_are_results_too() {
    let mut controller = GetRelevantFilesController::new();
    for task in [8, 9] {
        let (former, sent) = controller
            .send_request::<BTreeSet<String>, u8>("a".to_owned(), StartedRequest::Remote(Err(task)));
        assert!(matches!(sent, Ok(None)));
        assert_eq!(former.is_some(), task == 9);
    }
    assert_eq!(controller.pending_count(), 1);
    let event: Option<Event> =
        controller.handle_remote_search_result(Err("offline".to_owned()), "a".to_owned());
    let Some(GetRelevantFilesControllerEvent::Success {
        action_id,
        result: GetRelevantFilesControllerResult::SearchResult(result),
    }) = event
    else {
        panic!("a remote request ends with a result");
    };
    assert_eq!(action_id, "a");
    assert!(matches!(
        result,
        SearchCodebaseResult::ClientError { message } if message == "offline"
    ));
    let again: Option<Event> =
        controller.handle_relevant_file_paths_result(Ok(BTreeSet::new()), "a".to_owned());
    assert!(again.is_none());
}

#[test]
fn tokens_are_normalized_and_matched_in_a_row() {
    assert_eq!(normalized_tokens("Src/FooBar.rs"), ["src", "foobar", "rs"]);
    assert_eq!(normalized_path("Src//Cafe\u{301}.rs"), "src/caf\u{e9}/rs");
    let hay = normalized_tokens("a b c");
    assert!(contains_token_sequence(&hay, &normalized_tokens("b c")));
    assert!(!contains_token_sequence(&hay, &normalized_tokens("a c")));
    assert!(!contains_token_sequence(&hay, &Vec::new()));
}

#[test]
fn binary_contents_do_not_count_and_broken_text_does() {
    let query = normalized_tokens("needle");
    assert_eq!(content_candidate_score(&query, b"needle\0"), LocalCandidateScore::default());
    assert_eq!(content_candidate_score(&query, b"\xff needle").content_token_matches, 1);
    assert_eq!(content_candidate_score(&query, b"xneedlex").content_substring_matches, 1);
}

#[test]
fn outline_score_counts_the_strongest_match() {
    let score = outline_candidate_score(
        &normalized_tokens("auth"),
        &Vec::new(),
        &file("src/auth/controller.rs", "fn auth"),
    );
    assert_eq!(score.path_matches, 1);
    assert_eq!(score.symbol_token_matches, 0);
}

#[test]
fn search_root_follows_the_index_in_use() {
    let index = Some("/index".to_owned());
    let outline = Some("/outline".to_owned());
    assert_eq!(root_directory_for_search(true, index.clone(), outline.clone()), index);
    assert_eq!(root_directory_for_search(false, index, outline.clone()), outline);
}

#[test]
fn ranks_local_outline_candidates() {
    let partial_paths = vec!["src/auth".to_owned()];
    let ranked = rank_local_outline_candidates(
        "auth",
        Some(&partial_paths),
        vec![
            file("src/misc.rs", "fn superauthhelper"),
            file("src/http/handler.rs", "fn auth_handler"),
            file("src/other/authentication.rs", "fn unrelated"),
            file("src/auth/controller.rs", "fn unrelated"),
        ],
    );

    assert_eq!(
        paths(ranked),
        [
            "src/auth/controller.rs",
            "src/other/authentication.rs",
            "src/http/handler.rs",
            "src/misc.rs",
        ]
    );

    let ranked = rank_local_outline_candidates(
        "cache invalidation",
        None,
        vec![file("src/one.rs", "fn cache"), file("src/both.rs", "fn cache_invalidation")],
    );
    assert_eq!(paths(ranked), ["src/both.rs", "src/one.rs"]);

    let tied = rank_local_outline_candidates(
        "needle",
        None,
        vec![file("src/Zeta.rs", "fn needle"), file("src/alpha.rs", "fn needle")],
    );
    assert_eq!(paths(tied), ["src/alpha.rs", "src/Zeta.rs"]);
}

#[test]
fn first_path_in_order_stands_for_a_file() {
    let probe = |path: &str, resolved: Option<&str>, is_file: bool| CandidateProbe {
        context: file(path, ""),
        resolved: resolved.map(str::to_owned),
        is_file,
    };
    let probes = vec![
        probe("src/z_link.rs", Some("/repo/src/a.rs"), true),
        probe("src/b.rs", Some("/repo/src/b.rs"), true),
        probe("src/a.rs", Some("/repo/src/a.rs"), true),
        probe("src/outside.rs", Some("/elsewhere/outside.rs"), true),
        probe("src/directory", Some("/repo/src/directory"), false),
        probe("src/missing.rs", None, false),
    ];
    let found = validated_local_candidates("/repo", &probes);
    assert_eq!(
        found
            .iter()
            .map(|found| (found.context.path.as_str(), found.absolute_path.as_str()))
            .collect::<Vec<_>>(),
        [("src/a.rs", "/repo/src/a.rs"), ("src/b.rs", "/repo/src/b.rs")]
    );
}

#[test]
fn answers_are_paths_on_disk_with_the_best_first() {
    let probes = ["src/other.rs", "src/needle.rs", "src/unrelated.rs"]
        .iter()
        .map(|path| CandidateProbe {
            context: file(path, ""),
            resolved: Some(format!("/repo/{path}")),
            is_file: true,
        })
        .collect();
    let found = validated_local_candidates("/repo", &probes);
    let searched = vec![
        SearchedFile { path: "src/other.rs".to_owned(), contents: Some(b"needle".to_vec()) },
        SearchedFile { path: "src/unrelated.rs".to_owned(), contents: None },
    ];
    let none = Vec::new();
    assert_eq!(
        local_outline_locations_from_candidates("needle", &none, &found, &searched),
        ["/repo/src/needle.rs", "/repo/src/other.rs"]
    );
}
