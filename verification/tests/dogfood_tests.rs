use alpine_studio::dogfood::{
    capture_requested, omission_inventory, upload_evidence, valid_git_sha, valid_slug,
    valid_timestamp, CaptureError, CaptureIdentity, CaptureInputs, FrameEvidence,
    LanguageCounters, ResourceEvidence, StudioOwnedSnapshot, LANGUAGE_BUDGET_BYTES,
};

#[test]
fn identity_and_output_boundaries_fail_closed() {
    let sha = "a".repeat(40);
    let valid = CaptureIdentity::new("local-edit".to_owned(), sha.clone(), "2026-08-30T12:00:00Z".to_owned());
    assert!(valid.is_ok());
    assert_eq!(
        CaptureIdentity::new("Local Edit".to_owned(), sha.clone(), "2026-08-30T12:00:00Z".to_owned()).err(),
        Some(CaptureError("dogfood workload id must be a bounded slug"))
    );
    assert_eq!(
        CaptureIdentity::new("local-edit".to_owned(), "A".repeat(40), "2026-08-30T12:00:00Z".to_owned()).err(),
        Some(CaptureError("dogfood revision must be a lowercase 40-character Git SHA"))
    );
    assert_eq!(
        CaptureIdentity::new("local-edit".to_owned(), sha, "2026-08-30 12:00:00Z".to_owned()).err(),
        Some(CaptureError("dogfood timestamp must be UTC YYYY-MM-DDTHH:MM:SSZ"))
    );
}

#[test]
fn identity_fields_have_exact_shapes() {
    assert!(valid_slug("a"));
    assert!(valid_slug(&"a".repeat(128)));
    assert!(!valid_slug(&"a".repeat(129)));
    assert!(!valid_slug(""));
    assert!(valid_slug("v1.2-rc"));
    assert!(!valid_slug("under_score"));
    assert!(valid_git_sha(&"0123456789abcdef".repeat(3)[..40]));
    assert!(!valid_git_sha(&"a".repeat(39)));
    assert!(!valid_git_sha(&"g".repeat(40)));
    assert!(valid_timestamp("1999-12-31T23:59:59Z"));
    assert!(!valid_timestamp("1999-12-31T23:59:59"));
    assert!(!valid_timestamp("1999/12/31T23:59:59Z"));
    assert!(!valid_timestamp("1999-12-31T23:5a:59Z"));
}

#[test]
fn capture_is_all_or_nothing() {
    assert_eq!(capture_requested(false, false, false, false), Ok(false));
    assert_eq!(capture_requested(true, true, true, true), Ok(true));
    for mask in 1..15u8 {
        let bits = [mask & 1 != 0, mask & 2 != 0, mask & 4 != 0, mask & 8 != 0];
        assert_eq!(
            capture_requested(bits[0], bits[1], bits[2], bits[3]),
            Err(CaptureError("dogfood diagnostic environment must be supplied completely"))
        );
    }
    assert_eq!(
        CaptureError("dogfood diagnostic environment must be supplied completely").message(),
        "dogfood diagnostic environment must be supplied completely"
    );
}

#[test]
fn captured_counters_sum_saturating() {
    let language = LanguageCounters {
        completion_requests: 1,
        navigation_requests: 2,
        symbol_requests: 3,
        workspace_edit_requests: 4,
        stale_completions: 1,
        stale_navigation: 1,
        stale_symbols: 1,
        stale_workspace_edits: 1,
        stale_diagnostics: u64::MAX,
        restarts: 5,
        process_retained_bytes: 100,
        diagnostic_bytes: 10,
        completion_bytes: 20,
        hover_bytes: 30,
        location_bytes: 40,
        symbol_bytes: 50,
        workspace_edit_wire_bytes: 60,
        peak_diagnostic_bytes: 11,
        peak_completion_bytes: 0,
        peak_hover_bytes: 0,
        peak_location_bytes: 0,
        peak_symbol_bytes: 0,
        peak_workspace_edit_wire_bytes: 0,
    };
    let inputs = CaptureInputs {
        frame_builds: 9,
        shape_calls: 8,
        accessibility_nodes: Some(4),
        language,
        atlas_pixel_bytes: usize::MAX,
        atlas_metadata_bytes: 1,
        atlas_peak_bytes: 70,
        atlas_budget_bytes: 80,
        ..CaptureInputs::default()
    };
    let owned = StudioOwnedSnapshot::capture(&inputs);
    assert_eq!(owned.frame_builds, 9);
    assert_eq!(owned.shape_calls, 8);
    assert_eq!(owned.language_requests, 10);
    assert_eq!(owned.stale_language_responses, u64::MAX);
    assert_eq!(owned.language_restarts, 5);
    assert_eq!(
        owned.language,
        ResourceEvidence { current: 310, peak: 310, budget: LANGUAGE_BUDGET_BYTES }
    );
    assert_eq!(owned.glyph_atlas_cpu, ResourceEvidence { current: usize::MAX, peak: 70, budget: 80 });
    assert_eq!(owned.accessibility_nodes, Some(4));
}

#[test]
fn language_peak_is_the_sum_of_peaks_when_larger() {
    let language = LanguageCounters { process_retained_bytes: 5, peak_hover_bytes: 100, hover_bytes: 1, ..LanguageCounters::default() };
    let owned = StudioOwnedSnapshot::capture(&CaptureInputs { language, ..CaptureInputs::default() });
    assert_eq!(owned.language.current, 6);
    assert_eq!(owned.language.peak, 105);
}

#[test]
fn frame_accounting_is_derived_from_surface_counts() {
    let frames = FrameEvidence::from_counts(10, 12, 3, 20);
    assert_eq!(
        frames,
        FrameEvidence { requested: 12, submitted: 12, completed: 9, presented: 9, omitted: 0, idle_submissions: 2 }
    );
    let frames = FrameEvidence::from_counts(10, 2, 3, 0);
    assert_eq!(
        frames,
        FrameEvidence { requested: 10, submitted: 2, completed: 0, presented: 0, omitted: 0, idle_submissions: 0 }
    );
    let frames = FrameEvidence::from_counts(4, 8, 1, 5);
    assert_eq!(frames.omitted, 2);
    assert_eq!(upload_evidence(3, 7), ResourceEvidence { current: 3, peak: 7, budget: 7 });
    assert_eq!(upload_evidence(9, 7), ResourceEvidence { current: 9, peak: 7, budget: 9 });
}

#[test]
fn unavailable_axes_are_null_and_explicitly_omitted() {
    let owned = StudioOwnedSnapshot::default();
    let omissions = omission_inventory(&owned);
    for required in [
        "accessibility-stale-actions",
        "accessibility-tree",
        "language-responses",
        "upload-staging-budget",
    ] {
        assert!(omissions.iter().any(|item| *item == required));
    }
    assert_eq!(omissions.len(), 11);
    let with_tree = StudioOwnedSnapshot { accessibility_nodes: Some(3), ..StudioOwnedSnapshot::default() };
    let omissions = omission_inventory(&with_tree);
    assert_eq!(omissions.len(), 10);
    assert!(!omissions.contains(&"accessibility-tree"));
}
