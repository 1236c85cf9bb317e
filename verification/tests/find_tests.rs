use alpine_studio::find::{
    search_text, suffix_boundary, FindAdmission, FindError, FindField, FindIdentity, FindLimits,
    FindRequest, FindState, FindWorkerOutput, MAX_DISPLAY_BYTES, MAX_MATCHES,
    MAX_MATCH_METADATA_BYTES, MAX_QUERY_BYTES, MAX_REPLACEMENT_TRANSACTION_BYTES,
    MAX_SOURCE_BYTES, MAX_VISIBLE_MATCHES,
};
use std::mem::size_of;
use std::ops::Range;

fn identity(generation: u64) -> FindIdentity {
    FindIdentity::new(7, 11, generation)
}

#[test]
fn literal_unicode_matches_are_ordered_non_overlapping_and_bounded() {
    let limits = FindLimits {
        query_bytes: 8,
        source_bytes: 64,
        matches: 2,
        match_metadata_bytes: 2 * size_of::<Range<usize>>(),
    };
    let result = search_text(identity(1), "ééé", 8, "é", limits).unwrap();
    assert_eq!(result.range(0), Some(0..2));
    assert_eq!(result.range(1), Some(2..4));
    assert_eq!(result.range(2), None);
    assert!(result.matches_truncated());
    assert!(result.source_truncated());
    assert_eq!(
        result.retained_metadata_bytes(),
        2 * size_of::<Range<usize>>()
    );
}

#[test]
fn locked_find_resource_limits_are_exact() {
    assert_eq!(MAX_QUERY_BYTES, 4_096);
    assert_eq!(MAX_SOURCE_BYTES, 16_777_216);
    assert_eq!(MAX_MATCHES, 16_384);
    assert_eq!(MAX_MATCH_METADATA_BYTES, 262_144);
    assert_eq!(MAX_VISIBLE_MATCHES, 2_048);
    assert_eq!(MAX_REPLACEMENT_TRANSACTION_BYTES, 16_777_216);
}

#[test]
fn empty_query_and_invalid_limits_fail_without_hidden_matches() {
    let result = search_text(identity(1), "alpha", 5, "", FindLimits::default()).unwrap();
    assert!(result.is_empty());
    assert!(!result.matches_truncated());
    assert!(matches!(
        FindRequest::with_limits(
            identity(1),
            String::from("x"),
            "x",
            FindLimits {
                query_bytes: 0,
                ..FindLimits::default()
            }
        ),
        Err(FindError::InvalidLimits)
    ));
    assert!(matches!(
        search_text(identity(1), "long", 3, "x", FindLimits::default()),
        Err(FindError::InvalidSourceLength {
            retained: 4,
            total: 3
        })
    ));
}

#[test]
fn request_materialization_backtracks_to_a_utf8_boundary() {
    let limits = FindLimits {
        query_bytes: 8,
        source_bytes: 4,
        matches: 8,
        match_metadata_bytes: 8 * size_of::<Range<usize>>(),
    };
    let output = FindRequest::with_limits(identity(1), String::from("a🦀a"), "a", limits)
        .unwrap()
        .execute();
    let result = output.into_result().unwrap();
    assert_eq!(result.source_bytes(), 1);
    assert_eq!(result.total_source_bytes(), 6);
    assert_eq!(result.range(0), Some(0..1));
}

#[test]
fn stale_result_never_replaces_current_generation() {
    let text = "alpha alpha";
    let mut state = FindState::default();
    assert!(state.open(false));
    assert!(state.commit_text("alpha").unwrap());
    let request = state
        .request(7, 1, String::from(text))
        .unwrap()
        .expect("request");
    let stale_output = request.execute();
    assert!(state.commit_text("x").unwrap());
    assert_eq!(state.receive(stale_output, 7, 1), FindAdmission::Stale);
    assert!(state.result().is_none());
    assert_eq!(state.stale_results(), 1);
}

#[test]
fn current_result_is_received_and_navigation_wraps() {
    let mut state = FindState::default();
    state.open(false);
    state.commit_text("x").unwrap();
    let request = state
        .request(7, 11, "x".repeat(MAX_VISIBLE_MATCHES + 2))
        .unwrap()
        .expect("request");
    let output = request.execute();
    assert_eq!(state.receive(output, 7, 11), FindAdmission::Accepted);
    assert_eq!(
        state
            .visible_ranges(7, 11, 0..MAX_VISIBLE_MATCHES + 2)
            .len(),
        MAX_VISIBLE_MATCHES
    );
    let first = state.navigate(true).expect("next");
    assert_eq!(first.index(), 1);
    assert!(!first.wrapped());
    let last = state.result().expect("result").len() - 1;
    for _ in 1..last {
        state.navigate(true);
    }
    let wrapped = state.navigate(true).expect("wrapped");
    assert_eq!(wrapped.index(), 0);
    assert!(wrapped.wrapped());
    let back = state.navigate(false).expect("back");
    assert_eq!(back.index(), last);
    assert!(back.wrapped());
}

#[test]
fn query_replacement_composition_and_errors_preserve_caps() {
    let mut state = FindState::default();
    state.open(true);
    assert_eq!(state.field(), FindField::Replacement);
    assert!(state.begin_composition());
    assert!(state.update_composition("漢").unwrap());
    assert!(state.cancel_composition());
    assert!(!state.commit_text("value").unwrap());
    assert_eq!(state.replacement(), "value");
    assert!(state.toggle_field());
    assert!(state.commit_text("needle").unwrap());
    assert_eq!(state.query(), "needle");
    assert!(state.delete_backward().unwrap());
    assert_eq!(state.query(), "needl");
    assert!(matches!(
        state.commit_text(&"x".repeat(MAX_QUERY_BYTES)),
        Err(FindError::QueryTooLong { .. })
    ));
    for error in [
        FindError::InvalidLimits,
        FindError::IncompleteResult,
        FindError::GenerationExhausted,
        FindError::OffsetOverflow,
        FindError::AllocationFailed,
        FindError::WorkerUnavailable,
    ] {
        assert!(!error.message().is_empty());
    }
}

#[test]
fn document_change_and_submission_failure_revoke_exact_pending_identity() {
    let mut state = FindState::default();
    state.open(false);
    state.commit_text("alpha").unwrap();
    let request = state
        .request(7, 1, String::from("alpha"))
        .unwrap()
        .expect("request");
    assert!(!state.reject_submission(FindIdentity::new(9, 9, 9)));
    assert!(state.reject_submission(request.identity()));
    assert_eq!(state.failures(), 1);
    assert!(state.document_changed().unwrap());
    assert_eq!(state.generation(), 2);
    assert!(state.close());
    assert!(!state.document_changed().unwrap());
}

#[test]
fn find_limit_lower_bounds_and_metadata_capacity_are_exact() {
    let shipping = FindLimits::shipping();
    assert!(shipping.is_valid());
    assert_eq!(shipping.match_capacity(), MAX_MATCHES);
    assert_eq!(
        FindLimits {
            matches: usize::MAX,
            match_metadata_bytes: size_of::<Range<usize>>(),
            ..shipping
        }
        .match_capacity(),
        1
    );
    for invalid in [
        FindLimits {
            query_bytes: 0,
            ..shipping
        },
        FindLimits {
            source_bytes: 0,
            ..shipping
        },
        FindLimits {
            matches: 0,
            ..shipping
        },
        FindLimits {
            match_metadata_bytes: 0,
            ..shipping
        },
    ] {
        assert!(!invalid.is_valid());
    }
}

#[test]
fn visibility_end_and_query_cap_boundaries_are_exclusive_and_exact() {
    let identity = FindIdentity::new(4, 0, 1);
    let result = search_text(identity, "xx", 2, "x", FindLimits::shipping()).unwrap();
    let visible = result.visible(0..1);
    assert_eq!(visible.len(), 1);
    assert_eq!(visible.first().cloned(), Some(0..1));

    let exact = "q".repeat(MAX_QUERY_BYTES);
    assert!(FindRequest::with_limits(
        identity,
        String::from("x"),
        &exact,
        FindLimits::shipping()
    )
    .is_ok());
    let oversized = format!("{exact}q");
    assert!(search_text(identity, "", 0, &exact, FindLimits::shipping()).is_ok());
    assert!(matches!(
        search_text(identity, "", 0, &oversized, FindLimits::shipping()),
        Err(FindError::QueryTooLong { .. })
    ));
    assert!(matches!(
        FindRequest::with_limits(
            identity,
            String::from("x"),
            &oversized,
            FindLimits::shipping()
        ),
        Err(FindError::QueryTooLong { .. })
    ));

    let mut state = FindState::default();
    assert!(state.open(false));
    assert!(!state.open(false));
    assert_eq!(state.field(), FindField::Query);
    assert!(state.open(true));
    assert!(!state.open(true));
    assert_eq!(state.field(), FindField::Replacement);
    assert!(state.begin_composition());
    assert!(state.update_composition(&exact).unwrap());
    assert!(matches!(
        state.update_composition(&oversized),
        Err(FindError::ReplacementTooLong { .. })
    ));
}

#[test]
fn failed_output_records_its_message_and_display_shows_state() {
    let mut state = FindState::default();
    assert!(!state.toggle_field());
    assert!(state.open(false));
    state.commit_text("x").unwrap();
    let request = state
        .request(4, 0, String::from("x"))
        .unwrap()
        .expect("request");
    assert_eq!(
        state.receive(
            FindWorkerOutput::failure(request.identity(), FindError::InvalidLimits),
            4,
            0
        ),
        FindAdmission::Failed
    );
    assert!(state.display_text().unwrap().contains("find limits"));
    assert_eq!(
        state.display_text().unwrap(),
        "Find: x  find limits must be non-zero and coherent"
    );

    let request = state
        .request(4, 0, String::from("xax"))
        .unwrap()
        .expect("request");
    assert_eq!(
        state.receive(request.execute(), 4, 0),
        FindAdmission::Accepted
    );
    assert_eq!(state.display_text().unwrap(), "Find: x  1/2");
    assert_eq!(state.active_range(4, 0), Some(0..1));
    assert!(state.active_range(5, 0).is_none());
    assert!(state.all_ranges(4, 0).is_some());
    assert!(state.all_ranges(4, 1).is_none());
}

#[test]
fn suffix_boundary_moves_forward_to_a_character() {
    assert_eq!(suffix_boundary("éé", 3), 2);
    assert_eq!(suffix_boundary("abcd", 3), 1);
    assert_eq!(suffix_boundary("abcd", 4), 0);
    let mut state = FindState::default();
    state.open(false);
    state.commit_text(&"é".repeat(MAX_DISPLAY_BYTES)).unwrap();
    let display = state.display_text().unwrap();
    assert!(display.starts_with("Find: ..."));
    assert_eq!(display.len(), "Find: ...".len() + MAX_DISPLAY_BYTES);
}

#[test]
fn error_messages_name_sizes() {
    assert_eq!(
        FindError::QueryTooLong {
            actual: 2,
            limit: 1
        }
        .message(),
        "find query is 2 bytes; limit is 1"
    );
    assert_eq!(
        FindError::InvalidSourceLength {
            retained: 4,
            total: 3
        }
        .message(),
        "find source retained 4 bytes but total length is 3"
    );
}

#[test]
fn overlapping_occurrences_are_taken_leftmost_first() {
    let result = search_text(identity(1), "aaaa", 4, "aa", FindLimits::default()).unwrap();
    assert_eq!(result.len(), 2);
    assert_eq!(result.range(0), Some(0..2));
    assert_eq!(result.range(1), Some(2..4));
    let result = search_text(identity(1), "abab", 4, "bab", FindLimits::default()).unwrap();
    assert_eq!(result.range(0), Some(1..4));
}

#[test]
fn navigation_wraps_and_visible_projection_is_capped() {
    let source = "x".repeat(MAX_VISIBLE_MATCHES + 2);
    let oversized_query = "x".repeat(MAX_QUERY_BYTES + 1);
    let mut accepted = false;
    for query in [oversized_query.as_str(), "x"] {
        if let Ok(result) = search_text(
            identity(1),
            &source,
            source.len(),
            query,
            FindLimits::default(),
        ) {
            accepted = true;
            let output = FindWorkerOutput::new(identity(1), Ok(result));
            let mut state = FindState::default();
            state.open(false);
            state.commit_text("x").unwrap();
            assert!(state.request(7, 11, source.clone()).unwrap().is_some());
            assert_eq!(state.receive(output, 7, 11), FindAdmission::Accepted);
            assert_eq!(
                state.visible_ranges(7, 11, 0..source.len()).len(),
                MAX_VISIBLE_MATCHES
            );
            let first = state.navigate(true).expect("next");
            assert_eq!(first.index(), 1);
            assert!(!first.wrapped());
            let back = state.navigate(false).expect("previous");
            assert_eq!(back.index(), 0);
            let before_start = state.navigate(false).expect("before start");
            assert_eq!(before_start.index(), state.result().expect("result").len() - 1);
            assert!(before_start.wrapped());
            let wrapped = state.navigate(true).expect("wrapped");
            assert_eq!(wrapped.index(), 0);
            assert!(wrapped.wrapped());
        }
    }
    assert!(accepted);
}

#[test]
fn delete_field_and_each_admission_identity_guard_are_independent() {
    let mut deletion = FindState::default();
    deletion.open(false);
    let generation = deletion.generation();
    assert!(!deletion.delete_backward().unwrap());
    assert_eq!(deletion.generation(), generation);
    assert!(deletion.commit_text("query").unwrap());
    deletion.open(true);
    assert!(!deletion.commit_text("r").unwrap());
    let query_generation = deletion.generation();
    assert!(!deletion.delete_backward().unwrap());
    assert!(deletion.replacement().is_empty());
    assert_eq!(deletion.generation(), query_generation);

    let identity = FindIdentity::new(4, 0, 1);
    for (request, document, buffer_revision, requery) in [
        (false, 4, 0, false),
        (true, 5, 0, false),
        (true, 4, 1, false),
        (true, 4, 0, true),
    ] {
        let result = search_text(identity, "x", 1, "x", FindLimits::shipping()).unwrap();
        let output = FindWorkerOutput::new(identity, Ok(result));
        let mut state = FindState::default();
        state.open(false);
        state.commit_text("x").unwrap();
        assert_eq!(state.generation(), 1);
        if request {
            assert!(state.request(4, 0, String::from("x")).unwrap().is_some());
        }
        if requery {
            state.commit_text("y").unwrap();
            assert_eq!(state.generation(), 2);
        }
        assert_eq!(
            state.receive(output, document, buffer_revision),
            FindAdmission::Stale
        );
    }

    let result = search_text(identity, "xxx", 3, "x", FindLimits::shipping()).unwrap();
    let mut navigation = FindState::default();
    navigation.open(false);
    navigation.commit_text("x").unwrap();
    assert!(navigation.request(4, 0, String::from("xxx")).unwrap().is_some());
    assert_eq!(
        navigation.receive(FindWorkerOutput::new(identity, Ok(result)), 4, 0),
        FindAdmission::Accepted
    );
    assert_eq!(navigation.navigate(true).expect("forward").index(), 1);
    let backward = navigation.navigate(false).expect("backward");
    assert_eq!(backward.index(), 0);
    assert!(!backward.wrapped());
    assert_eq!(navigation.active_range(4, 0), Some(0..1));
    assert!(navigation.active_range(5, 0).is_none());
    assert!(navigation.active_range(4, 1).is_none());
    assert!(navigation.all_ranges(4, 0).is_some());
    assert!(navigation.all_ranges(5, 0).is_none());
    assert!(navigation.all_ranges(4, 1).is_none());
    navigation.commit_text("y").unwrap();
    assert_eq!(navigation.generation(), 2);
    assert!(navigation.active_range(4, 0).is_none());
    assert!(navigation.all_ranges(4, 0).is_none());
}
