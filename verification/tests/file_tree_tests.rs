use alpine_studio::file_tree::{
    bounded_message, bounded_text, restored_identity, DirectoryResult, FileTreeAction, FileTreeAdmission,
    FileTreeEntryKind, FileTreeError, FileTreeLimits, FileTreeRequest, FileTreeWorkerOutput, SessionFileTree,
    MAX_CACHED_DIRECTORIES, MAX_CACHED_ENTRIES, MAX_CACHED_PATH_BYTES, MAX_CHILDREN_PER_DIRECTORY, MAX_DEPTH,
    MAX_DIRECTORY_PATH_BYTES, MAX_ERROR_BYTES, MAX_PATH_BYTES, MAX_SCANNED_PER_DIRECTORY, MAX_VISIBLE_ROWS,
};
use alpine_studio::path_order::{compare_paths, PathOrder};
use alpine_studio::scan::{ignore_verdict, DirectoryScan, IgnoreMatch};
use alpine_studio::tree_state::FileTreeState;
use ignore::gitignore::GitignoreBuilder;

use FileTreeEntryKind::{Directory, File};

/// An in-memory workspace: each directory with the entries it lists, in
/// the order a directory read returns them.
type Workspace<'a> = &'a [(&'a str, &'a [(&'a str, FileTreeEntryKind)])];

fn read(request: &FileTreeRequest, workspace: Workspace) -> Result<DirectoryResult, FileTreeError> {
    let Some((_, children)) = workspace.iter().find(|(dir, _)| *dir == request.relative()) else {
        return Err(FileTreeError::Io {
            operation: "enumerate",
            path: request.relative().to_string(),
            detail: String::from("No such file or directory"),
        });
    };
    let mut scan = DirectoryScan::new(request.relative(), request.limits())?;
    for (name, kind) in children.iter() {
        if !scan.begin_entry() {
            break;
        }
        if !scan.admit_name(name) {
            continue;
        }
        scan.offer(name, *kind, false)?;
    }
    Ok(scan.finish())
}

fn admit_next(state: &mut FileTreeState, workspace: Workspace) -> Result<FileTreeAdmission, FileTreeError> {
    let request = state.take_request().ok_or(FileTreeError::MissingSelection)?;
    let result = read(&request, workspace);
    Ok(state.receive(request.complete(result)))
}

fn scan_names(relative: &str, limits: FileTreeLimits, names: &[(&str, FileTreeEntryKind)]) -> DirectoryResult {
    let mut scan = DirectoryScan::new(relative, limits).expect("valid limits");
    for (name, kind) in names {
        if !scan.begin_entry() {
            break;
        }
        if !scan.admit_name(name) {
            continue;
        }
        scan.offer(name, *kind, false).expect("entry stored");
    }
    scan.finish()
}

fn paths(result: &DirectoryResult) -> Vec<&str> {
    result.entries().iter().map(|entry| entry.path.as_str()).collect()
}

const SRC_AND_TOP: &[(&str, &[(&str, FileTreeEntryKind)])] =
    &[("", &[("top.rs", File), ("src", Directory)]), ("src", &[("main.rs", File)])];

#[test]
fn activation_and_directory_caps_are_exact() {
    let workspace: Workspace = &[("", &[("a.rs", File), ("b.rs", File), ("c.rs", File)])];
    let limits = FileTreeLimits::new(16, 1, 8, 2, 1, 8, 8, 2, 2);
    let mut state = FileTreeState::with_limits(limits);
    assert!(state.take_request().is_none());
    assert!(state.activate(7).unwrap());
    assert_eq!(admit_next(&mut state, workspace).unwrap(), FileTreeAdmission::Directory);
    assert_eq!(state.snapshot(), (1, 1, 4, None));
    assert_eq!(state.total_rows(), 1);
    let row = state.visible_rows(0, 1, 0).unwrap().remove(0);
    assert_eq!(row.path(), "a.rs");
    assert_eq!(row.label(), "a.rs");
    assert_eq!(MAX_SCANNED_PER_DIRECTORY, 16_384);
    assert_eq!(MAX_CHILDREN_PER_DIRECTORY, 4_096);
    assert_eq!(MAX_DIRECTORY_PATH_BYTES, 1_048_576);
    assert_eq!(MAX_CACHED_DIRECTORIES, 4_096);
    assert_eq!(MAX_CACHED_ENTRIES, 65_536);
    assert_eq!(MAX_CACHED_PATH_BYTES, 8_388_608);
    assert_eq!(MAX_PATH_BYTES, 4_096);
    assert_eq!(MAX_DEPTH, 256);
    assert_eq!(MAX_VISIBLE_ROWS, 512);
}

#[test]
fn state_rejects_stale_directory_results_and_bounds_projection() {
    let names: Vec<String> = (0..20).map(|index| format!("file-{index:02}.rs")).collect();
    let entries: Vec<(&str, FileTreeEntryKind)> = names.iter().map(|name| (name.as_str(), File)).collect();
    let workspace: Workspace = &[("", &entries)];
    let mut state = FileTreeState::default();
    state.activate(1).unwrap();
    let request = state.take_request().expect("request");
    let identity = request.identity();
    assert!(state.conceal());
    let result = read(&request, workspace);
    assert_eq!(state.receive(request.complete(result)), FileTreeAdmission::Stale);
    state.activate(1).unwrap();
    let retry = state.take_request().expect("retry");
    assert!(!state.reject_submission(identity));
    let result = read(&retry, workspace);
    assert_eq!(state.receive(retry.complete(result)), FileTreeAdmission::Directory);
    assert_eq!(state.visible_rows(0, 3, 1).unwrap().len(), 5);
    assert!(state.visible_rows(0, usize::MAX, usize::MAX).unwrap().len() <= MAX_VISIBLE_ROWS);
}

#[test]
fn tree_navigation_opens_only_current_file_rows() {
    let mut state = FileTreeState::default();
    state.activate(1).unwrap();
    assert_eq!(admit_next(&mut state, SRC_AND_TOP).unwrap(), FileTreeAdmission::Directory);
    assert!(matches!(state.activate_row(0).unwrap(), FileTreeAction::Changed));
    assert_eq!(admit_next(&mut state, SRC_AND_TOP).unwrap(), FileTreeAdmission::Directory);
    assert_eq!(state.total_rows(), 3);
    assert!(state.navigate(true, 2));
    assert!(matches!(
        state.activate_selected().unwrap(),
        FileTreeAction::Open(path) if path == "src/main.rs"
    ));
    assert!(state.select_path("top.rs").unwrap());
    assert!(matches!(
        state.activate_selected().unwrap(),
        FileTreeAction::Open(path) if path == "top.rs"
    ));
}

#[test]
fn restored_expansion_and_selection_remain_dormant_then_rebind_by_path() {
    let workspace: Workspace = &[
        ("", &[("top.rs", File), ("src", Directory)]),
        ("src", &[("nested", Directory)]),
        ("src/nested", &[("main.rs", File)]),
    ];
    let session = SessionFileTree {
        expanded: vec![String::from("src"), String::from("src/nested")],
        selected: Some(String::from("src/nested/main.rs")),
    };
    let mut state = FileTreeState::default();
    state.restore_session(9, &session).unwrap();
    assert_eq!(state.snapshot(), (3, 0, 0, None));
    assert!(state.take_request().is_none());
    assert_eq!(state.session_state().unwrap(), session);

    state.activate(9).unwrap();
    assert_eq!(admit_next(&mut state, workspace).unwrap(), FileTreeAdmission::Directory);
    assert_eq!(state.snapshot().3, None);
    assert_eq!(admit_next(&mut state, workspace).unwrap(), FileTreeAdmission::Directory);
    assert_eq!(state.snapshot().3, None);
    assert_eq!(admit_next(&mut state, workspace).unwrap(), FileTreeAdmission::Directory);
    assert!(matches!(
        state.activate_selected().unwrap(),
        FileTreeAction::Open(path) if path == "src/nested/main.rs"
    ));
    assert_eq!(state.session_state().unwrap(), session);
}

#[test]
fn restored_identity_and_duplicate_boundaries_are_independent() {
    let limits = FileTreeLimits::default();
    let exact_path = "a".repeat(limits.path_bytes);
    assert_eq!(restored_identity(&exact_path, limits).unwrap().len(), limits.path_bytes);
    assert!(matches!(
        restored_identity(&"a".repeat(limits.path_bytes + 1), limits),
        Err(FileTreeError::InvalidRelativePath(_))
    ));

    let exact_depth = (0..limits.depth).map(|_| "a").collect::<Vec<_>>().join("/");
    assert_eq!(restored_identity(&exact_depth, limits).unwrap().split('/').count(), limits.depth);
    let excessive_depth = format!("{exact_depth}/a");
    for invalid in ["", "/workspace/absolute", "a\0b", "a//b", "a/./b", "a/../b", excessive_depth.as_str()] {
        assert!(matches!(
            restored_identity(invalid, limits),
            Err(FileTreeError::InvalidRelativePath(_))
        ));
    }

    let mut state = FileTreeState::default();
    assert!(matches!(
        state.restore_session(
            1,
            &SessionFileTree { expanded: vec![String::from("src"), String::from("src")], selected: None }
        ),
        Err(FileTreeError::InvalidRelativePath(_))
    ));
    assert_eq!(state.snapshot(), (0, 0, 0, None));
}

#[test]
fn visible_path_recursion_distinguishes_ready_expanded_nodes() {
    let mut state = FileTreeState::default();
    state.activate(1).unwrap();
    assert_eq!(admit_next(&mut state, SRC_AND_TOP).unwrap(), FileTreeAdmission::Directory);
    assert!(matches!(state.activate_row(0).unwrap(), FileTreeAction::Changed));
    assert_eq!(admit_next(&mut state, SRC_AND_TOP).unwrap(), FileTreeAdmission::Directory);

    assert_eq!(state.visible_path_at(0).as_deref(), Some("src"));
    assert_eq!(state.visible_path_at(1).as_deref(), Some("src/main.rs"));
    assert_eq!(state.visible_path_at(2).as_deref(), Some("top.rs"));
    assert_eq!(state.visible_path_at(3), None);
    assert_eq!(state.visible_index_of("src"), Some(0));
    assert_eq!(state.visible_index_of("src/main.rs"), Some(1));
    assert_eq!(state.visible_index_of("top.rs"), Some(2));
    assert_eq!(state.visible_index_of("missing"), None);

    assert!(matches!(state.activate_row(0).unwrap(), FileTreeAction::Changed));
    assert_eq!(state.visible_path_at(1).as_deref(), Some("top.rs"));
    assert_eq!(state.visible_index_of("src/main.rs"), None);
    assert!(matches!(state.activate_row(0).unwrap(), FileTreeAction::Changed));
    assert_eq!(state.visible_path_at(1).as_deref(), Some("src/main.rs"));
    assert_eq!(state.visible_index_of("top.rs"), Some(2));
}

#[test]
fn missing_restored_directory_fails_without_retargeting_selection() {
    let workspace: Workspace = &[("", &[("top.rs", File)])];
    let mut state = FileTreeState::default();
    state
        .restore_session(
            3,
            &SessionFileTree {
                expanded: vec![String::from("missing")],
                selected: Some(String::from("missing/file.rs")),
            },
        )
        .unwrap();
    state.activate(3).unwrap();
    assert_eq!(admit_next(&mut state, workspace).unwrap(), FileTreeAdmission::Directory);
    assert_eq!(admit_next(&mut state, workspace).unwrap(), FileTreeAdmission::Failed);
    assert!(matches!(state.activate_selected(), Err(FileTreeError::MissingSelection)));
    assert_eq!(state.session_state().unwrap().selected, None);

    let accepted = state.session_state().unwrap();
    let snapshot = state.snapshot();
    assert!(matches!(
        state.restore_session(
            4,
            &SessionFileTree { expanded: vec![String::from("../escape")], selected: None }
        ),
        Err(FileTreeError::InvalidRelativePath(_))
    ));
    assert_eq!(state.snapshot(), snapshot);
    assert_eq!(state.session_state().unwrap(), accepted);
}

#[test]
fn error_contracts_generation_limits_and_diagnostics_are_bounded() {
    let invalid_limits = FileTreeLimits::new(0, 1, 1, 1, 1, 1, 1, 1, 1);
    let mut invalid = FileTreeState::with_limits(invalid_limits);
    assert!(matches!(invalid.activate(1), Err(FileTreeError::InvalidLimits)));
    assert!(matches!(DirectoryScan::new("", invalid_limits), Err(FileTreeError::InvalidLimits)));

    let errors = [
        FileTreeError::NoWorkspace,
        FileTreeError::InvalidLimits,
        FileTreeError::GenerationExhausted,
        FileTreeError::AllocationFailed,
        FileTreeError::MissingSelection,
        FileTreeError::InvalidRelativePath(String::from("../escape")),
        FileTreeError::PathDepthExceeded { actual: 3, limit: 2 },
        FileTreeError::Symlink(String::from("linked")),
        FileTreeError::NotDirectory(String::from("file.rs")),
        FileTreeError::CacheLimitExceeded { resource: "directory count", limit: 1 },
        FileTreeError::Ignore(String::from("bad rule")),
    ];
    for error in errors {
        assert!(!error.message().is_empty());
    }
    let io_error = FileTreeError::Io {
        operation: "enumerate",
        path: String::from("root"),
        detail: String::from("denied"),
    };
    assert_eq!(io_error.message(), "file-tree enumerate failed for root: denied");

    let long = format!("{}é", "a".repeat(MAX_ERROR_BYTES - 1));
    let bounded = bounded_text(&long);
    assert_eq!(bounded.len(), MAX_ERROR_BYTES - 1);
    assert!(long.starts_with(bounded.as_str()));
    assert_eq!(bounded_text("short"), "short");
    assert_eq!(bounded_message(&FileTreeError::AllocationFailed), "file-tree allocation failed");
}

#[test]
fn state_authority_cache_caps_and_nested_collapse_are_exact() {
    let workspace: Workspace = &[
        ("", &[("top.rs", File), ("src", Directory)]),
        ("src", &[("nested", Directory)]),
        ("src/nested", &[("deep.rs", File)]),
    ];
    let mut state = FileTreeState::default();
    assert!(state.activate(7).unwrap());
    assert!(!state.activate(7).unwrap());
    let request = state.take_request().expect("root request");
    let identity = request.identity();
    assert!(state.take_request().is_none());
    assert_eq!(
        state.receive(FileTreeWorkerOutput::failed(identity, String::from("wrong"), FileTreeError::NoWorkspace)),
        FileTreeAdmission::Stale
    );
    assert!(state.reject_submission(identity));
    assert_eq!(state.error_message().as_deref(), Some("file-tree allocation failed"));
    assert!(!state.reject_submission(identity));
    assert_eq!(admit_next(&mut state, workspace).unwrap(), FileTreeAdmission::Directory);
    assert!(state.navigate(true, 2));
    assert!(state.navigate(false, 2));
    assert!(!state.navigate(false, 2));
    assert!(!state.select_path("src").unwrap());
    assert!(matches!(state.activate_selected().unwrap(), FileTreeAction::Changed));
    assert_eq!(admit_next(&mut state, workspace).unwrap(), FileTreeAdmission::Directory);
    assert!(state.select_path("src/nested").unwrap());
    assert!(matches!(state.activate_selected().unwrap(), FileTreeAction::Changed));
    assert_eq!(admit_next(&mut state, workspace).unwrap(), FileTreeAdmission::Directory);
    assert_eq!(state.total_rows(), 4);
    assert_eq!(state.visible_rows(0, usize::MAX, 0).unwrap().len(), 4);
    assert_eq!(
        state.visible_rows(2, 1, 0).unwrap().first().map(|row| (row.index(), row.path().to_string())),
        Some((2, String::from("src/nested/deep.rs")))
    );
    assert!(state.select_path("src").unwrap());
    assert!(matches!(state.activate_selected().unwrap(), FileTreeAction::Changed));
    assert_eq!(state.snapshot().0, 2);
    assert_eq!(state.total_rows(), 2);
    assert!(state.visible_rows(usize::MAX, 1, 0).unwrap().is_empty());
    assert!(!state.select_path("src/nested/deep.rs").unwrap());
    assert!(state.unfocus());
    assert!(!state.unfocus());
    assert!(state.conceal());
    assert!(!state.conceal());

    let mut failed = FileTreeState::default();
    failed.activate(9).unwrap();
    let failed_request = failed.take_request().expect("request");
    let vanished: Workspace = &[];
    let result = read(&failed_request, vanished);
    assert_eq!(failed.receive(failed_request.complete(result)), FileTreeAdmission::Failed);
    assert!(failed.error_message().is_some_and(|message| message.contains("enumerate failed")));

    let capped_workspace: Workspace = &[("", &[("other.rs", File), ("dir", Directory)])];
    let limits = FileTreeLimits::new(8, 8, 64, 1, 1, 8, 16, 4, 8);
    let mut capped = FileTreeState::with_limits(limits);
    capped.activate(11).unwrap();
    assert_eq!(admit_next(&mut capped, capped_workspace).unwrap(), FileTreeAdmission::Directory);
    assert_eq!(capped.snapshot().1, 1);
    assert!(matches!(
        capped.activate_row(0),
        Err(FileTreeError::CacheLimitExceeded { resource: "directory count", limit: 1 })
    ));

    let mut empty = FileTreeState::default();
    assert!(!empty.navigate(true, 1));
    assert!(matches!(empty.activate_selected(), Err(FileTreeError::MissingSelection)));
    assert!(matches!(empty.activate_row(4), Err(FileTreeError::MissingSelection)));
}

#[test]
fn filesystem_validation_ignore_errors_and_scan_ceilings_are_explicit() {
    let root: &[(&str, FileTreeEntryKind)] = &[("src", Directory), ("a.rs", File), ("b.rs", File)];
    let scanned = scan_names("", FileTreeLimits::new(1, 8, 64, 8, 8, 64, 16, 4, 8), root);
    assert_eq!(scanned.report().scanned, 1);
    assert!(scanned.report().truncated);
    assert!(scanned.report().omitted >= 1);

    let children = scan_names("", FileTreeLimits::new(16, 1, 64, 8, 8, 64, 16, 4, 8), root);
    assert_eq!(children.report().retained, 1);
    assert!(children.report().truncated);

    let bytes = scan_names("", FileTreeLimits::new(16, 16, 1, 8, 8, 64, 16, 4, 8), root);
    assert_eq!(bytes.report().retained, 0);
    assert!(bytes.report().truncated);

    let depth = scan_names("src", FileTreeLimits::new(16, 16, 64, 8, 8, 64, 16, 1, 8), &[("file.rs", File)]);
    assert_eq!(depth.report().retained, 0);
    assert!(depth.report().truncated);

    let mut ignored = DirectoryScan::new("", FileTreeLimits::default()).unwrap();
    ignored.record_error("ignore file is not a regular file");
    ignored.record_error("unclosed character class");
    let ignored = ignored.finish();
    assert!(ignored.report().errors >= 2);
    assert_eq!(ignored.first_error(), Some("ignore file is not a regular file"));
}

#[test]
fn directory_byte_cap_is_independent_of_enumeration_order() {
    for order in [
        ["z", "yy", "aaa"],
        ["z", "aaa", "yy"],
        ["yy", "z", "aaa"],
        ["yy", "aaa", "z"],
        ["aaa", "z", "yy"],
        ["aaa", "yy", "z"],
    ] {
        let names: Vec<(&str, FileTreeEntryKind)> = order.iter().map(|name| (*name, File)).collect();
        let limits = FileTreeLimits::new(16, 16, 3, 8, 8, 64, 16, 4, 8);
        let result = scan_names("", limits, &names);
        assert_eq!(paths(&result), ["yy", "z"]);
        assert_eq!(result.report().retained, 2);
        assert_eq!(result.report().path_bytes, 3);
        assert_eq!(result.report().omitted, 1);
        assert!(result.report().truncated);
    }
}

#[test]
fn scan_lists_directories_first_and_leaves_out_the_repository_directory() {
    let result = scan_names(
        "src",
        FileTreeLimits::default(),
        &[("b.rs", File), (".git", Directory), ("nested", Directory), ("a.rs", File)],
    );
    assert_eq!(paths(&result), ["src/nested", "src/a.rs", "src/b.rs"]);
    assert_eq!(result.entries()[0].name_start, 4);
    assert_eq!(result.entries()[0].depth, 1);
    assert_eq!(result.report().scanned, 4);
    assert_eq!(result.report().omitted, 1);
    assert_eq!(result.report().retained, 3);
    assert_eq!(result.report().path_bytes, 26);
    assert!(!result.report().truncated);
}

#[test]
fn scan_counts_unreadable_and_ignored_entries_as_omitted() {
    let mut scan = DirectoryScan::new("", FileTreeLimits::default()).unwrap();
    assert!(scan.begin_entry());
    scan.record_failure("permission denied");
    assert!(scan.begin_entry());
    scan.skip();
    assert!(scan.begin_entry());
    scan.offer("target", Directory, true).unwrap();
    assert!(scan.begin_entry());
    scan.offer("kept.rs", File, false).unwrap();
    let result = scan.finish();
    assert_eq!(paths(&result), ["kept.rs"]);
    assert_eq!(result.report().scanned, 4);
    assert_eq!(result.report().omitted, 3);
    assert_eq!(result.report().errors, 1);
    assert_eq!(result.first_error(), Some("permission denied"));
}

#[test]
fn scan_keeps_the_first_error_cut_to_its_ceiling() {
    let mut scan = DirectoryScan::new("", FileTreeLimits::default()).unwrap();
    let long = "é".repeat(MAX_ERROR_BYTES);
    scan.record_failure(&long);
    scan.record_failure("second");
    let result = scan.finish();
    let first = result.first_error().unwrap();
    assert_eq!(first.len(), MAX_ERROR_BYTES);
    assert!(long.starts_with(first));
    assert_eq!(result.report().errors, 2);
}

#[test]
fn the_last_deciding_ignore_rule_wins() {
    assert!(!ignore_verdict(&[]));
    assert!(ignore_verdict(&[IgnoreMatch::Ignore]));
    assert!(!ignore_verdict(&[IgnoreMatch::Ignore, IgnoreMatch::Whitelist]));
    assert!(ignore_verdict(&[IgnoreMatch::Whitelist, IgnoreMatch::Ignore, IgnoreMatch::Unmatched]));
    assert!(!ignore_verdict(&[IgnoreMatch::Unmatched, IgnoreMatch::Unmatched]));
}

#[test]
fn paths_compare_byte_by_byte() {
    assert_eq!(compare_paths("a", "b"), PathOrder::Less);
    assert_eq!(compare_paths("a", "a"), PathOrder::Equal);
    assert_eq!(compare_paths("ab", "a"), PathOrder::Greater);
    assert_eq!(compare_paths("Z", "a"), PathOrder::Less);
    assert_eq!(compare_paths("é", "z"), PathOrder::Greater);
}

#[test]
fn long_entry_paths_and_deep_directories_are_omitted_and_truncate() {
    let limits = FileTreeLimits::new(16, 16, 64, 8, 8, 64, 6, 4, 8);
    let result = scan_names("", limits, &[("short", File), ("too-long.rs", File)]);
    assert_eq!(paths(&result), ["short"]);
    assert_eq!(result.report().omitted, 1);
    assert!(result.report().truncated);
}

#[test]
fn ignore_rules_decide_in_order_with_later_rules_winning() {
    let mut outer = GitignoreBuilder::new("/workspace");
    outer.add_line(None, "*.log").unwrap();
    let outer = outer.build().unwrap();
    let mut inner = GitignoreBuilder::new("/workspace/src");
    inner.add_line(None, "!keep.log").unwrap();
    let inner = inner.build().unwrap();
    let matchers = vec![outer, inner];
    assert!(alpine_studio::scan::ignored(&matchers, "/workspace/skip.log", false));
    assert!(!alpine_studio::scan::ignored(&matchers, "/workspace/src/keep.log", false));
    assert!(!alpine_studio::scan::ignored(&matchers, "/workspace/main.rs", false));
    assert!(!alpine_studio::scan::ignored(&Vec::new(), "/workspace/skip.log", false));
}
