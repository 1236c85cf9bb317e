use alpine_studio::documents::{
    DocumentTabError, DocumentTabLimits, DEFAULT_HISTORY_CAPACITY, DEFAULT_PATH_BYTE_BUDGET,
    DEFAULT_TAB_CAPACITY,
};

#[test]
fn every_tab_error_has_a_nonempty_structured_message() {
    let errors = [
        DocumentTabError::InvalidLimits,
        DocumentTabError::AllocationFailed,
        DocumentTabError::CapacityReached(2),
        DocumentTabError::PathBudgetExceeded(3),
        DocumentTabError::IdentityExhausted,
        DocumentTabError::MissingTab(4),
        DocumentTabError::DuplicatePath(String::from("duplicate")),
        DocumentTabError::LastTab,
        DocumentTabError::InvalidPayloadState,
    ];
    for error in errors {
        assert!(!error.message().is_empty());
    }
}

#[test]
fn tab_error_messages_name_their_values() {
    assert_eq!(
        DocumentTabError::CapacityReached(2).message(),
        "document tab limit of 2 was reached"
    );
    assert_eq!(
        DocumentTabError::DuplicatePath(String::from("duplicate")).message(),
        "document path is already open: duplicate"
    );
    let defaults = DocumentTabLimits::default();
    assert_eq!(defaults.tab_capacity, DEFAULT_TAB_CAPACITY);
    assert_eq!(defaults.path_byte_budget, DEFAULT_PATH_BYTE_BUDGET);
    assert_eq!(defaults.history_capacity, DEFAULT_HISTORY_CAPACITY);
    assert_eq!(defaults, DocumentTabLimits::new(32, 65_536, 256));
}

use alpine_studio::documents::{tab_metadata, DocumentTabs, RestoredDocumentTab, TabPath};
use std::path::Path;

#[derive(Clone, Copy, Debug, PartialEq)]
struct ViewState {
    offset: usize,
    scroll_y: f32,
}

fn view(offset: usize, scroll_y: f32) -> ViewState {
    ViewState { offset, scroll_y }
}

fn tab_path(path: &str) -> TabPath {
    TabPath {
        path: path.to_owned(),
        file_name: Path::new(path).file_name().map(|name| name.to_string_lossy().into_owned()),
    }
}

fn ok<T>(result: Result<T, DocumentTabError>) -> Result<T, String> {
    result.map_err(|error| error.message())
}

#[test]
fn tabs_preserve_payload_view_identity_and_duplicate_lookup() -> Result<(), String> {
    let mut tabs = ok(DocumentTabs::new(None, None, DocumentTabLimits::new(4, 1_024, 4), view(0, 0.0)))?;
    let mut active = String::from("scratch");
    ok(tabs.insert_and_activate(&tab_path("/root/a.rs"), Some(2), "alpha".into(), &mut active, view(1, 2.0)))?;
    ok(tabs.insert_and_activate(&tab_path("/root/b.rs"), Some(3), "beta".into(), &mut active, view(3, 4.0)))?;
    assert_eq!(active, "beta");
    assert_eq!(tabs.len(), 3);
    assert_eq!(tabs.active_workspace_entry(), Some(3));
    assert_eq!(tabs.index_for_path("/root/a.rs"), Some(1));
    let restored = ok(tabs.activate(1, &mut active, view(5, 6.0)))?.ok_or("activation")?;
    assert_eq!(active, "alpha");
    assert_eq!(restored, view(3, 4.0));
    assert_eq!(tabs.active_index(), 1);
    assert_eq!(tabs.label(1).as_deref(), Some("a.rs"));
    assert!(tabs.retained_path_bytes() > 0);
    Ok(())
}

#[test]
fn limits_refuse_without_mutating_active_payload() -> Result<(), String> {
    let defaults = DocumentTabLimits::default();
    assert_eq!(defaults.tab_capacity, 32);
    assert_eq!(defaults.path_byte_budget, 65_536);
    assert_eq!(defaults.history_capacity, 256);
    assert!(matches!(
        DocumentTabs::<String, ViewState>::new(None, None, DocumentTabLimits::new(0, 1, 1), view(0, 0.0)),
        Err(DocumentTabError::InvalidLimits)
    ));
    let mut tabs = ok(DocumentTabs::new(None, None, DocumentTabLimits::new(2, 20, 2), view(0, 0.0)))?;
    let mut active = String::from("scratch");
    ok(tabs.insert_and_activate(&tab_path("a"), Some(0), "a".into(), &mut active, view(0, 0.0)))?;
    let before = active.clone();
    assert!(matches!(
        tabs.insert_and_activate(&tab_path("b"), Some(1), "b".into(), &mut active, view(0, 0.0)),
        Err(DocumentTabError::CapacityReached(2))
    ));
    assert_eq!(active, before);
    assert_eq!(tabs.len(), 2);

    let mut limited = ok(DocumentTabs::new(None, None, DocumentTabLimits::new(3, 4, 2), view(0, 0.0)))?;
    let mut limited_active = String::from("scratch");
    assert!(matches!(
        limited.insert_and_activate(&tab_path("long-name"), Some(0), "x".into(), &mut limited_active, view(0, 0.0)),
        Err(DocumentTabError::PathBudgetExceeded(4))
    ));
    assert_eq!(limited_active, "scratch");
    assert_eq!(limited.len(), 1);

    let mut exact = ok(DocumentTabs::new(None, None, DocumentTabLimits::new(2, 2, 2), view(0, 0.0)))?;
    let mut exact_active = String::from("scratch");
    ok(exact.insert_and_activate(&tab_path("a"), Some(0), "a".into(), &mut exact_active, view(0, 0.0)))?;
    assert_eq!(exact.retained_path_bytes(), 2);
    Ok(())
}

#[test]
fn bounded_history_branches_and_close_are_deterministic() -> Result<(), String> {
    let mut tabs = ok(DocumentTabs::new(None, None, DocumentTabLimits::new(5, 1_024, 3), view(0, 0.0)))?;
    let mut active = String::from("scratch");
    assert!(ok(tabs.navigate_back(&mut active, view(0, 0.0)))?.is_none());
    assert!(matches!(tabs.close_active(&mut active), Err(DocumentTabError::LastTab)));
    ok(tabs.insert_and_activate(&tab_path("/a"), Some(0), "a".into(), &mut active, view(0, 0.0)))?;
    ok(tabs.insert_and_activate(&tab_path("/b"), Some(1), "b".into(), &mut active, view(0, 0.0)))?;
    ok(tabs.insert_and_activate(&tab_path("/c"), Some(2), "c".into(), &mut active, view(0, 0.0)))?;
    assert!(tabs.can_navigate_back());
    assert!(!tabs.can_navigate_forward());
    assert_eq!(tabs.history_len(), 3);
    assert!(ok(tabs.navigate_back(&mut active, view(1, 1.0)))?.is_some());
    assert!(tabs.can_navigate_back());
    assert!(tabs.can_navigate_forward());
    assert_eq!(active, "b");
    assert!(ok(tabs.navigate_back(&mut active, view(2, 2.0)))?.is_some());
    assert!(!tabs.can_navigate_back());
    assert!(tabs.can_navigate_forward());
    assert_eq!(active, "a");
    assert!(ok(tabs.navigate_forward(&mut active, view(3, 3.0)))?.is_some());
    assert_eq!(active, "b");
    let a = tabs.index_for_path("/a").ok_or("a")?;
    assert!(ok(tabs.activate(a, &mut active, view(4, 4.0)))?.is_some());
    assert!(ok(tabs.navigate_forward(&mut active, view(5, 5.0)))?.is_none());
    let restored = ok(tabs.close_active(&mut active))?;
    assert_eq!(active, "b");
    assert_eq!(restored, view(4, 4.0));

    let c = tabs.index_for_path("/c").ok_or("c")?;
    assert!(ok(tabs.activate(c, &mut active, view(6, 6.0)))?.is_some());
    assert_eq!(active, "c");
    let restored_last = ok(tabs.close_active(&mut active))?;
    assert_eq!(active, "b");
    assert_eq!(restored_last, view(6, 6.0));
    assert_eq!(tabs.active_workspace_entry(), Some(1));
    Ok(())
}

#[test]
fn defensive_transitions_fail_without_losing_the_active_payload() -> Result<(), String> {
    let tiny = DocumentTabLimits::new(2, 1, 2);
    assert!(matches!(
        DocumentTabs::<String, ViewState>::new(Some(&tab_path("long")), None, tiny, view(0, 0.0)),
        Err(DocumentTabError::PathBudgetExceeded(1))
    ));
    let (root_label, root_bytes) = ok(tab_metadata(Some(&tab_path(std::path::MAIN_SEPARATOR_STR))))?;
    assert_eq!(root_label, "Untitled");
    assert!(root_bytes > 0);

    let mut tabs = ok(DocumentTabs::new(None, None, DocumentTabLimits::new(4, 1_024, 4), view(0, 0.0)))?;
    let mut active = String::from("scratch");
    ok(tabs.insert_and_activate(&tab_path("a"), Some(0), "alpha".into(), &mut active, view(1, 1.0)))?;
    let before = active.clone();
    assert!(matches!(
        tabs.insert_and_activate(&tab_path("a"), Some(0), "duplicate".into(), &mut active, view(2, 2.0)),
        Err(DocumentTabError::DuplicatePath(path)) if path == "a"
    ));
    assert_eq!(active, before);
    let same_tab = ok(tabs.activate(tabs.active_index(), &mut active, view(3, 3.0)))?;
    assert!(same_tab.is_none());
    assert_eq!(active, before);
    Ok(())
}

#[test]
fn restored_tabs_defer_payloads_until_checked_materialization() -> Result<(), String> {
    let restored = vec![
        RestoredDocumentTab { path: Some(tab_path("/alpha")), view: view(1, 1.0) },
        RestoredDocumentTab { path: Some(tab_path("/beta")), view: view(2, 2.0) },
        RestoredDocumentTab { path: Some(tab_path("/gamma")), view: view(3, 3.0) },
    ];
    let mut tabs = ok(DocumentTabs::from_restored(restored, 1, DocumentTabLimits::new(3, 1_024, 3), view(0, 0.0)))?;
    let mut active = String::from("beta");

    assert_eq!(tabs.active_index(), 1);
    assert_eq!(tabs.is_deferred(0), Ok(true));
    assert_eq!(tabs.is_deferred(1), Ok(false));
    assert_eq!(tabs.is_deferred(2), Ok(true));
    assert!(matches!(tabs.document_at(0, &active), Err(DocumentTabError::InvalidPayloadState)));

    ok(tabs.materialize(0, String::from("alpha")))?;
    assert_eq!(tabs.is_deferred(0), Ok(false));
    assert!(ok(tabs.activate(0, &mut active, view(4, 4.0)))?.is_some());
    assert_eq!(active, "alpha");
    assert_eq!(ok(tabs.document_at(1, &active))?, "beta");
    assert!(matches!(
        tabs.materialize(0, String::from("duplicate")),
        Err(DocumentTabError::InvalidPayloadState)
    ));
    assert_eq!(tabs.navigation_target(false), Some(1));
    assert_eq!(tabs.close_target(), Ok(1));
    Ok(())
}

#[test]
fn visible_projection_is_bounded_to_range_and_overscan() -> Result<(), String> {
    let mut tabs = ok(DocumentTabs::new(None, None, DocumentTabLimits::new(8, 1_024, 8), view(0, 0.0)))?;
    let mut active = String::from("scratch");
    for index in 0..5 {
        let path = format!("/{index}");
        ok(tabs.insert_and_activate(&tab_path(&path), Some(index), index.to_string(), &mut active, view(0, 0.0)))?;
    }
    assert_eq!(tabs.visible_range(3, 1, 1), 2..5);
    assert_eq!(tabs.visible_range(99, usize::MAX, 2), 6..6);
    Ok(())
}

#[test]
fn restoring_refuses_duplicates_budgets_and_bad_shapes() {
    let limits = DocumentTabLimits::new(3, 1_024, 3);
    let entry = |path: &str| RestoredDocumentTab { path: Some(tab_path(path)), view: view(0, 0.0) };
    assert!(matches!(
        DocumentTabs::<String, ViewState>::from_restored(vec![entry("/a"), entry("/a")], 0, limits, view(0, 0.0)),
        Err(DocumentTabError::DuplicatePath(path)) if path == "/a"
    ));
    assert!(matches!(
        DocumentTabs::<String, ViewState>::from_restored(vec![], 0, limits, view(0, 0.0)),
        Err(DocumentTabError::InvalidPayloadState)
    ));
    assert!(matches!(
        DocumentTabs::<String, ViewState>::from_restored(vec![entry("/a")], 1, limits, view(0, 0.0)),
        Err(DocumentTabError::InvalidPayloadState)
    ));
    assert!(matches!(
        DocumentTabs::<String, ViewState>::from_restored(
            vec![entry("/a"), entry("/b")],
            0,
            DocumentTabLimits::new(3, 5, 3),
            view(0, 0.0)
        ),
        Err(DocumentTabError::PathBudgetExceeded(5))
    ));
    let untitled = RestoredDocumentTab { path: None, view: view(7, 7.0) };
    let tabs = DocumentTabs::<String, ViewState>::from_restored(vec![untitled, entry("/b")], 1, limits, view(0, 0.0))
        .unwrap();
    assert_eq!(tabs.path_at(0), None);
    assert_eq!(tabs.path_at(1), Some("/b"));
    assert_eq!(tabs.label(0).as_deref(), Some("Untitled"));
    assert_eq!(tabs.active_id(), Ok(alpine_studio::documents::DocumentTabId(2)));
    assert_eq!(tabs.view_at(0, view(9, 9.0)), Ok(view(7, 7.0)));
    assert_eq!(tabs.view_at(1, view(9, 9.0)), Ok(view(9, 9.0)));
    assert_eq!(tabs.retained_path_bytes(), 3);
}
