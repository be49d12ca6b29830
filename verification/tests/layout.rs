use lib::clock::ClockSnapshot;
use lib::layout::{cell_width, select_layout, LayoutMode, PositionedLine, TerminalSize};

fn snapshot() -> ClockSnapshot {
    ClockSnapshot {
        face_text: "12:34:56".into(),
        compact_text: "12:34:56".into(),
        date_text: "Wed, 27 Aug 2026".into(),
        meridiem: None,
    }
}

#[test]
fn hiding_seconds_keeps_the_native_face_in_a_narrower_pane() {
    let layout = select_layout(TerminalSize { columns: 7, rows: 7 }, &snapshot());
    assert_eq!(layout.mode, LayoutMode::Standard);
    assert_eq!(layout.lines[0].text, "12:34");
}

#[test]
fn responsive_layout_selects_every_mode() {
    let clock = snapshot();
    assert_eq!(select_layout(TerminalSize { columns: 90, rows: 25 }, &clock).mode, LayoutMode::Hero);
    assert_eq!(select_layout(TerminalSize { columns: 50, rows: 7 }, &clock).mode, LayoutMode::Standard);
    assert_eq!(select_layout(TerminalSize { columns: 12, rows: 4 }, &clock).mode, LayoutMode::Compact);
    assert_eq!(select_layout(TerminalSize { columns: 4, rows: 1 }, &clock).mode, LayoutMode::Minimal);
}

#[test]
fn every_line_fits_across_pane_sizes() {
    for columns in 1..100 {
        for rows in 1..30 {
            let size = TerminalSize { columns, rows };
            assert!(select_layout(size, &snapshot()).lines.iter().all(|line| line.row >= 1
                && line.row <= rows
                && line.column >= 1
                && line.column <= columns
                && cell_width(&line.text) <= usize::from(columns)));
        }
    }
}

#[test]
fn empty_pane_is_hidden() {
    for size in [TerminalSize { columns: 0, rows: 10 }, TerminalSize { columns: 80, rows: 0 }] {
        let layout = select_layout(size, &snapshot());
        assert_eq!(layout.mode, LayoutMode::Hidden);
        assert!(layout.lines.is_empty());
    }
}

#[test]
fn hero_layout_centres_time_date_and_period() {
    let clock = ClockSnapshot {
        face_text: "09:41:07".into(),
        compact_text: "09:41:07 PM".into(),
        date_text: "27/08/2026".into(),
        meridiem: Some("PM"),
    };
    let layout = select_layout(TerminalSize { columns: 80, rows: 24 }, &clock);
    assert_eq!(layout.mode, LayoutMode::Hero);
    assert_eq!(
        layout.lines,
        vec![
            PositionedLine { row: 12, column: 37, text: "09:41:07".into() },
            PositionedLine { row: 14, column: 36, text: "27/08/2026".into() },
            PositionedLine { row: 1, column: 40, text: "PM".into() },
        ]
    );
}

#[test]
fn compact_layout_drops_the_date_below_three_rows() {
    let layout = select_layout(TerminalSize { columns: 6, rows: 2 }, &snapshot());
    assert_eq!(layout.mode, LayoutMode::Compact);
    assert_eq!(layout.lines, vec![PositionedLine { row: 1, column: 1, text: "12:34:".into() }]);
    let layout = select_layout(TerminalSize { columns: 6, rows: 3 }, &snapshot());
    assert_eq!(layout.lines.len(), 2);
    assert_eq!(layout.lines[1].row, 2);
    assert_eq!(layout.lines[1].text, "Wed, 2");
}

#[test]
fn minimal_layout_truncates_the_time() {
    let layout = select_layout(TerminalSize { columns: 3, rows: 5 }, &snapshot());
    assert_eq!(layout.mode, LayoutMode::Minimal);
    assert_eq!(layout.lines, vec![PositionedLine { row: 2, column: 1, text: "12:".into() }]);
}

#[test]
fn a_face_without_a_second_colon_is_not_shortened() {
    let clock = ClockSnapshot {
        face_text: "12:34".into(),
        compact_text: "12:34".into(),
        date_text: "d".into(),
        meridiem: None,
    };
    // "12" would fit in six columns, but a face is never cut below HH:MM.
    let layout = select_layout(TerminalSize { columns: 6, rows: 8 }, &clock);
    assert_eq!(layout.mode, LayoutMode::Compact);
}

#[test]
fn cell_width_counts_characters() {
    assert_eq!(cell_width(""), 0);
    assert_eq!(cell_width("12:34"), 5);
    assert_eq!(cell_width("août"), 4);
}
