use alpine_studio::composition::{LineSpan, LineTable, Projection, ProjectionError};

fn span(start_byte: usize, end_byte: usize, start_utf16: usize) -> LineSpan {
    LineSpan { start_byte, end_byte, start_utf16 }
}

/// "prefix old suffix\nnext" with bytes 7..10 replaced by "漢😀": the
/// segment "prefix 漢😀 suffix\n" stands for source line 0.
fn unicode_projection() -> Projection {
    let source = LineTable::new(vec![span(0, 18, 0), span(18, 22, 18)], 22).unwrap();
    let segment = LineTable::new(vec![span(0, 22, 0), span(22, 22, 18)], 18).unwrap();
    Projection::from_parts(source, segment, 0, 1, 1, 0, 18, 7..10, 7..10).unwrap()
}

#[test]
fn line_tables_refuse_lines_out_of_order() {
    assert!(LineTable::new(vec![], 0).is_none());
    assert!(LineTable::new(vec![span(1, 2, 0)], 2).is_none());
    assert!(LineTable::new(vec![span(0, 2, 1)], 2).is_none());
    assert!(LineTable::new(vec![span(0, 4, 0), span(3, 5, 2)], 5).is_none());
    assert!(LineTable::new(vec![span(0, 2, 0), span(2, 4, 0)], 4).is_none());
    assert!(LineTable::new(vec![span(0, 2, 0), span(2, 4, 9)], 4).is_none());
    assert!(LineTable::new(vec![span(0, 3, 0), span(2, 1, 2)], 4).is_none());
    let table = LineTable::new(vec![span(0, 2, 0), span(2, 4, 2)], 4).unwrap();
    assert_eq!(table.line_count(), 2);
    assert_eq!(table.len_utf16(), 4);
    assert_eq!(table.line_byte_range(1), Ok(2..4));
    assert_eq!(table.line_byte_range(2), Err(ProjectionError::OutOfRange));
}

#[test]
fn utf16_offsets_find_the_last_line_starting_at_or_before_them() {
    let table =
        LineTable::new(vec![span(0, 3, 0), span(3, 7, 3), span(7, 7, 5), span(7, 9, 6)], 8).unwrap();
    assert_eq!(table.line_of_utf16(0), Ok(0));
    assert_eq!(table.line_of_utf16(2), Ok(0));
    assert_eq!(table.line_of_utf16(3), Ok(1));
    assert_eq!(table.line_of_utf16(5), Ok(2));
    assert_eq!(table.line_of_utf16(6), Ok(3));
    assert_eq!(table.line_of_utf16(8), Ok(3));
    assert_eq!(table.line_of_utf16(9), Err(ProjectionError::OutOfRange));
}

#[test]
fn projection_parts_must_agree() {
    let source = || LineTable::new(vec![span(0, 18, 0), span(18, 22, 18)], 22).unwrap();
    let segment = || LineTable::new(vec![span(0, 22, 0), span(22, 22, 18)], 18).unwrap();
    // The segment must replace at least one source line.
    assert!(Projection::from_parts(source(), segment(), 1, 1, 1, 0, 18, 7..10, 7..10).is_none());
    // The replaced lines must lie within the source.
    assert!(Projection::from_parts(source(), segment(), 0, 3, 1, 0, 18, 7..10, 7..10).is_none());
    // The segment cannot show more lines than it has.
    assert!(Projection::from_parts(source(), segment(), 0, 1, 3, 0, 18, 7..10, 7..10).is_none());
    // The segment must end where the next source line starts.
    assert!(Projection::from_parts(source(), segment(), 0, 1, 1, 0, 17, 7..10, 7..10).is_none());
    assert!(Projection::from_parts(source(), segment(), 0, 1, 1, 0, 23, 7..10, 7..10).is_none());
    // Ranges must not run backwards.
    assert!(Projection::from_parts(source(), segment(), 0, 1, 1, 0, 18, 10..7, 7..10).is_none());
    assert!(Projection::from_parts(source(), segment(), 0, 1, 1, 0, 18, 7..10, 10..7).is_none());
    // Display offsets must fit a usize.
    assert!(
        Projection::from_parts(source(), segment(), 0, 1, 1, usize::MAX - 3, 18, 7..10, 7..10)
            .is_none()
    );
    assert!(Projection::from_parts(source(), segment(), 0, 1, 1, 0, 18, 7..10, 7..10).is_some());
}

#[test]
fn unicode_projection_lines_match_the_display_text() {
    let projection = unicode_projection();
    assert_eq!(projection.mark(), 7..10);
    assert_eq!(projection.line_count(), 2);

    let first = projection.line(0).unwrap();
    assert_eq!(first.source, None);
    assert_eq!(first.local, 0);
    assert_eq!(first.display, 0);
    assert_eq!(first.base_utf16, 0);
    assert_eq!(first.snapshot.line_byte_range(first.local), Ok(0..22));

    let second = projection.line(1).unwrap();
    assert_eq!(second.source, Some(1));
    assert_eq!(second.local, 1);
    assert_eq!(second.base_utf16, 18);
    assert_eq!(second.snapshot.line_byte_range(second.local), Ok(18..22));

    assert!(projection.line(2).is_err());
}

#[test]
fn display_utf16_offsets_resolve_to_their_display_line() {
    let projection = unicode_projection();
    for (index, display) in [(0, 0), (5, 0), (9, 0), (17, 0), (18, 1), (20, 1), (22, 1)] {
        assert_eq!(projection.line_at_utf16(index).unwrap().display, display, "offset {index}");
    }
    assert_eq!(projection.line_at_utf16(23).err(), Some(ProjectionError::OutOfRange));
}

#[test]
fn lines_before_and_after_the_segment_keep_their_source_lines() {
    // "before\none\ntwo\nafter\n" with bytes 9..13 replaced by "x\ny":
    // source lines 1..=2 ("one\n", "two\n") become "onx\nyo\n".
    let source = LineTable::new(
        vec![span(0, 7, 0), span(7, 11, 7), span(11, 15, 11), span(15, 21, 15), span(21, 21, 21)],
        21,
    )
    .unwrap();
    let segment = LineTable::new(vec![span(0, 4, 0), span(4, 7, 4), span(7, 7, 7)], 7).unwrap();
    let projection = Projection::from_parts(source, segment, 1, 3, 2, 7, 15, 9..13, 9..12).unwrap();
    assert_eq!(projection.line_count(), 5);
    let expected = [(Some(0), 0, 0), (None, 0, 7), (None, 1, 11), (Some(3), 3, 14), (Some(4), 4, 20)];
    for (display, (source_line, local, base)) in expected.iter().enumerate() {
        let line = projection.line(display).unwrap();
        assert_eq!(line.source, *source_line, "line {display}");
        assert_eq!(line.local, *local, "line {display}");
        assert_eq!(line.base_utf16, *base, "line {display}");
    }
    for (index, display) in [(0, 0), (6, 0), (7, 1), (10, 1), (11, 2), (13, 2), (14, 3), (19, 3), (20, 4)] {
        assert_eq!(projection.line_at_utf16(index).unwrap().display, display, "offset {index}");
    }
}

#[test]
fn offsets_map_around_the_replaced_span_and_the_mark() {
    let projection = unicode_projection();
    assert_eq!(projection.source_to_display(3, false), Some(3));
    assert_eq!(projection.source_to_display(7, false), Some(7));
    assert_eq!(projection.source_to_display(8, false), None);
    assert_eq!(projection.source_to_display(10, false), Some(10));
    assert_eq!(projection.source_to_display(15, true), Some(15));
    assert_eq!(projection.display_to_source(7), Some(7));
    assert_eq!(projection.display_to_source(8), Some(7));
    assert_eq!(projection.display_to_source(12), Some(12));

    // An empty replacement at 3 with a two-unit mark: a downstream caret
    // there goes after the mark.
    let source = LineTable::new(vec![span(0, 3, 0)], 3).unwrap();
    let segment = LineTable::new(vec![span(0, 5, 0)], 5).unwrap();
    let inserted = Projection::from_parts(source, segment, 0, 1, 1, 0, 3, 3..3, 3..5).unwrap();
    assert_eq!(inserted.source_to_display(3, true), Some(5));
    assert_eq!(inserted.source_to_display(3, false), Some(3));
    assert_eq!(inserted.display_to_source(4), Some(3));
    assert_eq!(inserted.display_to_source(5), Some(3));
    assert_eq!(inserted.source_to_display(usize::MAX, false), None);
}

#[test]
fn source_offsets_outside_the_replacement_round_trip() {
    let projection = unicode_projection();
    for index in [0, 3, 7, 10, 11, 22] {
        let display = projection.source_to_display(index, false).unwrap();
        assert_eq!(projection.display_to_source(display), Some(index), "offset {index}");
    }
}

#[test]
fn mark_must_start_where_the_replacement_starts_and_display_keeps_order() {
    let source = || LineTable::new(vec![span(0, 18, 0), span(18, 22, 18)], 22).unwrap();
    let segment = || LineTable::new(vec![span(0, 22, 0), span(22, 22, 18)], 18).unwrap();
    assert!(Projection::from_parts(source(), segment(), 0, 1, 1, 0, 18, 7..10, 8..10).is_none());
    let projection = unicode_projection();
    let mut previous = 0;
    for index in (0..=7).chain(10..=22) {
        let display = projection.source_to_display(index, false).unwrap();
        assert!(display >= previous);
        previous = display;
    }
}
