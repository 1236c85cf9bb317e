use alpine_studio::commands::{
    ascii_prefix, match_score, rank_matches, registry_entry, subsequence_gaps, CommandContext,
    CommandMatch, CommandPalette, CommandPaletteError, StudioCommand, MAX_COMMANDS,
    MAX_QUERY_BYTES, MAX_VISIBLE_COMMANDS, MAX_VISIBLE_OVERSCAN, REGISTRY_LEN,
};

fn all_available() -> CommandContext {
    CommandContext {
        can_save: true,
        can_close_tab: true,
        can_navigate_back: true,
        can_navigate_forward: true,
        has_workspace: true,
        can_split_right: true,
        can_split_down: true,
        can_close_pane: true,
        can_complete: true,
    }
}

#[test]
fn locked_registry_query_and_memory_limits_are_exact() {
    assert_eq!(REGISTRY_LEN, 21);
    assert!(registry_entry(REGISTRY_LEN - 1).is_some());
    assert!(registry_entry(REGISTRY_LEN).is_none());
    assert!(REGISTRY_LEN <= MAX_COMMANDS);
    let mut palette = CommandPalette::default();
    assert!(palette.open(all_available()).unwrap());
    assert!(!palette.open(all_available()).unwrap());
    assert_eq!(palette.report().retained_matches, REGISTRY_LEN);
    let accepted = "a".repeat(MAX_QUERY_BYTES);
    assert!(palette.commit_text(&accepted, all_available()).unwrap());
    assert_eq!(palette.report().query_bytes, MAX_QUERY_BYTES);
    assert!(matches!(
        palette.commit_text("b", all_available()),
        Err(CommandPaletteError::QueryTooLong { actual, limit })
            if actual == MAX_QUERY_BYTES + 1 && limit == MAX_QUERY_BYTES
    ));
    assert_eq!(palette.report().query_bytes, MAX_QUERY_BYTES);
    assert!(palette.cancel());
    let report = palette.report();
    assert_eq!(report.query_bytes, 0);
    assert_eq!(report.composition_bytes, 0);
    assert_eq!(report.retained_matches, 0);
    assert_eq!(report.retained_bytes, 0);
    assert!(report.peak_retained_bytes > 0);
    assert_eq!(report.cancellations, 1);
}

#[test]
fn exact_token_and_subsequence_ranking_are_stable() {
    let mut palette = CommandPalette::default();
    palette.open(all_available()).unwrap();
    palette.commit_text("file", all_available()).unwrap();
    let file_rows = palette.visible_commands().unwrap();
    assert_eq!(file_rows[0].command, StudioCommand::SaveFile);
    assert_eq!(file_rows[1].command, StudioCommand::CloseTab);
    palette.cancel();

    palette.open(all_available()).unwrap();
    palette.commit_text("quick", all_available()).unwrap();
    assert_eq!(
        palette.visible_commands().unwrap()[0].command,
        StudioCommand::OpenQuickOpen
    );
    palette.cancel();

    palette.open(all_available()).unwrap();
    palette.commit_text("wqop", all_available()).unwrap();
    assert_eq!(
        palette.visible_commands().unwrap()[0].command,
        StudioCommand::OpenQuickOpen
    );
}

#[test]
fn navigation_composition_and_stale_availability_fail_closed() {
    let mut palette = CommandPalette::default();
    palette.open(all_available()).unwrap();
    assert!(palette.navigate(false));
    assert_eq!(
        palette
            .visible_commands()
            .unwrap()
            .iter()
            .find(|row| row.selected)
            .map(|row| row.command),
        Some(StudioCommand::ClosePane)
    );
    assert!(palette.begin_composition());
    assert!(palette.update_composition("save", 0, 4).unwrap());
    assert!(matches!(
        palette.update_composition("save", 5, 0),
        Err(CommandPaletteError::InvalidComposition)
    ));
    assert!(palette.cancel_composition());
    palette.cancel();

    let save_only = CommandContext {
        can_save: true,
        can_complete: false,
        ..CommandContext::default()
    };
    palette.open(save_only).unwrap();
    assert_eq!(palette.visible_commands().unwrap().len(), 3);
    let unavailable = CommandContext::default();
    assert!(matches!(
        palette.execute_selected(unavailable),
        Err(CommandPaletteError::Unavailable(StudioCommand::SaveFile))
    ));
    assert!(palette.is_open());
    assert_eq!(palette.report().retained_matches, 2);
}

#[test]
fn unicode_delete_display_and_execution_accounting_are_bounded() {
    let mut palette = CommandPalette::default();
    palette.open(all_available()).unwrap();
    palette.commit_text("findé", all_available()).unwrap();
    assert!(palette.delete_backward(all_available()).unwrap());
    assert!(palette.display_text().unwrap().starts_with("> find"));
    assert_eq!(
        palette.visible_commands().unwrap()[0].command,
        StudioCommand::OpenFind
    );
    assert_eq!(
        palette.execute_selected(all_available()).unwrap(),
        StudioCommand::OpenFind
    );
    let report = palette.report();
    assert_eq!(report.executions, 1);
    assert_eq!(report.retained_bytes, 0);
    assert!(!palette.cancel());
    assert!(CommandPaletteError::MissingSelection
        .message()
        .contains("no selection"));
}

#[test]
fn randomized_query_navigation_sequences_preserve_every_bound() {
    let mut palette = CommandPalette::default();
    palette.open(all_available()).unwrap();
    let mut state = 0x6a09_e667_f3bc_c909_u64;
    let steps = 4_096;
    for _ in 0..steps {
        state ^= state << 13;
        state ^= state >> 7;
        state ^= state << 17;
        match state % 5 {
            0 => {
                let _ = palette.commit_text("a", all_available());
            }
            1 => {
                let _ = palette.delete_backward(all_available()).unwrap();
            }
            2 => {
                let _ = palette.navigate(true);
            }
            3 => {
                let _ = palette.navigate(false);
            }
            _ => {
                let _ = palette.refresh(all_available()).unwrap();
            }
        }
        let report = palette.report();
        assert!(report.query_bytes <= MAX_QUERY_BYTES);
        assert!(report.retained_matches <= MAX_COMMANDS);
        assert!(report.visible_rows <= MAX_VISIBLE_COMMANDS + MAX_VISIBLE_OVERSCAN * 2);
        assert!(
            palette.visible_commands().unwrap().len()
                <= MAX_VISIBLE_COMMANDS + MAX_VISIBLE_OVERSCAN * 2
        );
    }
    palette.cancel();
    assert_eq!(palette.report().retained_bytes, 0);
}

#[test]
fn defensive_noops_errors_and_scroll_window_are_discriminating() {
    let errors = [
        CommandPaletteError::QueryTooLong {
            actual: MAX_QUERY_BYTES + 1,
            limit: MAX_QUERY_BYTES,
        },
        CommandPaletteError::AllocationFailed,
        CommandPaletteError::MissingSelection,
        CommandPaletteError::Unavailable(StudioCommand::SaveFile),
        CommandPaletteError::InvalidComposition,
    ];
    for error in errors {
        assert!(!error.message().is_empty());
    }

    let mut palette = CommandPalette::default();
    assert!(!palette.begin_composition());
    assert!(!palette.commit_text("ignored", all_available()).unwrap());
    assert!(!palette.refresh(all_available()).unwrap());
    palette.fail_next_open();
    assert!(matches!(
        palette.open(all_available()),
        Err(CommandPaletteError::AllocationFailed)
    ));
    assert!(palette.open(all_available()).unwrap());
    assert!(palette.begin_composition());
    assert!(!palette.begin_composition());
    assert!(palette.update_composition("same", 0, 4).unwrap());
    assert!(!palette.update_composition("same", 0, 4).unwrap());
    assert!(palette.cancel_composition());
    assert!(!palette.cancel_composition());
    assert!(!palette.commit_text("", all_available()).unwrap());

    assert!(palette.refresh(CommandContext::default()).unwrap());
    assert!(!palette.refresh(CommandContext::default()).unwrap());

    palette.matches = vec![
        CommandMatch {
            registry_index: 0,
            rank: 0,
            gaps: 0,
        };
        14
    ];
    palette.selected = 11;
    palette.first_visible = 0;
    assert!(palette.navigate(true));
    assert_eq!(palette.selected, 12);
    assert_eq!(palette.first_visible, 1);
    palette.matches = vec![
        CommandMatch {
            registry_index: 0,
            rank: 0,
            gaps: 0,
        };
        40
    ];
    palette.selected = 2;
    palette.first_visible = 0;
    assert!(palette.navigate(false));
    assert_eq!(palette.selected, 1);
    assert_eq!(
        palette.report().visible_rows,
        MAX_VISIBLE_COMMANDS + MAX_VISIBLE_OVERSCAN * 2
    );
    palette.matches.clear();
    assert!(!palette.navigate(true));
}

#[test]
fn ranking_predicates_preserve_prefix_token_and_subsequence_classes() {
    assert!(ascii_prefix(b"Workspace", b"work"));
    assert!(!ascii_prefix(b"Work", b"workspace"));
    assert_eq!(
        match_score(&registry_entry(0).unwrap(), "write"),
        Some((0, 0))
    );
    assert_eq!(
        match_score(&registry_entry(4).unwrap(), "quick"),
        Some((1, 0))
    );
    assert_eq!(
        match_score(&registry_entry(4).unwrap(), "wqop"),
        Some((2, 15))
    );
}

#[test]
fn query_too_long_message_names_both_sizes() {
    let error = CommandPaletteError::QueryTooLong {
        actual: 257,
        limit: 256,
    };
    assert_eq!(error.message(), "command query is 257 bytes; limit is 256");
    assert_eq!(
        CommandPaletteError::Unavailable(StudioCommand::SaveFile).message(),
        "command is unavailable: SaveFile"
    );
}

#[test]
fn rank_matches_orders_by_rank_then_gaps_then_registration() {
    let matches = rank_matches("  pane ", all_available()).unwrap();
    let indices: Vec<u8> = matches.iter().map(|m| m.registry_index).collect();
    assert_eq!(indices, vec![17, 18, 19, 20]);
    assert!(matches.iter().all(|m| m.rank == 0 && m.gaps == 0));
    let none = rank_matches("zzzz", all_available()).unwrap();
    assert!(none.is_empty());
}

#[test]
fn subsequence_gaps_count_unmatched_bytes_after_first_match() {
    assert_eq!(subsequence_gaps(b"abc", b"ac"), Some(1));
    assert_eq!(subsequence_gaps(b"abc", b" a c "), Some(1));
    assert_eq!(subsequence_gaps(b"abc", b"   "), None);
    assert_eq!(subsequence_gaps(b"abc", b"ca"), None);
}

#[test]
fn display_text_shows_query_preedit_and_count() {
    let mut palette = CommandPalette::default();
    palette.open(all_available()).unwrap();
    palette.commit_text("pane", all_available()).unwrap();
    assert!(palette.begin_composition());
    assert!(palette.update_composition(" x", 0, 2).unwrap());
    assert_eq!(palette.display_text().unwrap(), "> pane x | 4 commands");
}
