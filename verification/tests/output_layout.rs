use rug::app::selection::SelPos;
use rug::ui::output_layout::{
    char_at_cell, row_count, visible_lines, wrap_ranges, OutputLayout,
};
use rug::ui::style::Span;
use rug::util::strip_ansi;

fn make_lines(n: usize) -> Vec<String> {
    (0..n).map(|i| format!("line {i}")).collect()
}

#[test]
fn nowrap_identity() {
    let lines = make_lines(5);
    let mut layout = OutputLayout::default();
    layout.sync(Some(0), &lines, 80, false);
    assert_eq!(layout.total_rows(), 5);
    for i in 0..5 {
        assert_eq!(layout.locate(i), Some((i, 0)));
    }
    assert_eq!(layout.locate(5), None);
}

#[test]
fn exact_wrap_ranges() {
    let line = "a".repeat(25);
    assert_eq!(wrap_ranges(&line, 10, true), vec![0..10, 10..20, 20..25]);
    assert_eq!(row_count(&line, 10, true), 3);
}

#[test]
fn wide_chars_wrap() {
    let line = "日本語日本";
    assert_eq!(wrap_ranges(line, 4, true), vec![0..2, 2..4, 4..5]);
    assert_eq!(row_count(line, 4, true), 3);
}

#[test]
fn wide_char_wraps_early_on_odd_boundary() {
    let line = "a日";
    assert_eq!(wrap_ranges(line, 2, true), vec![0..1, 1..2]);
    assert_eq!(row_count(line, 2, true), 2);
}

#[test]
fn zero_width_combining_char_stays_attached() {
    let line = "e\u{0301}x";
    // "e" + combining acute accent + "x" = 3 chars.
    assert_eq!(wrap_ranges(line, 1, true), vec![0..2, 2..3]);
    assert_eq!(row_count(line, 1, true), 2);
}

#[test]
fn empty_line_is_one_row() {
    assert_eq!(wrap_ranges("", 10, true), vec![0..0]);
    assert_eq!(wrap_ranges("", 10, false), vec![0..0]);
    assert_eq!(row_count("", 10, true), 1);
    assert_eq!(row_count("", 10, false), 1);
}

#[test]
fn width_zero_treated_as_one() {
    assert_eq!(wrap_ranges("abc", 0, true), wrap_ranges("abc", 1, true));
}

#[test]
fn oversized_wide_char_does_not_hang() {
    // One cell of width, but "日" takes two.
    assert_eq!(wrap_ranges("日", 1, true), vec![0..1]);
    assert_eq!(row_count("日", 1, true), 1);
}

#[test]
fn char_at_cell_ascii() {
    let stripped = "hello";
    assert_eq!(char_at_cell(stripped, 0..5, 0), 0);
    assert_eq!(char_at_cell(stripped, 0..5, 2), 2);
    assert_eq!(char_at_cell(stripped, 0..5, 4), 4);
}

#[test]
fn char_at_cell_wide_char_both_cells() {
    let stripped = "日";
    assert_eq!(char_at_cell(stripped, 0..1, 0), 0);
    assert_eq!(char_at_cell(stripped, 0..1, 1), 0);
}

#[test]
fn char_at_cell_past_end_clamps() {
    let stripped = "日";
    assert_eq!(char_at_cell(stripped, 0..1, 5), 1);
}

#[test]
fn incremental_sync_matches_fresh_rebuild() {
    let all_lines = make_lines(5);

    let mut incremental = OutputLayout::default();
    incremental.sync(Some(0), &all_lines[..3], 80, true);
    incremental.sync(Some(0), &all_lines, 80, true);

    let mut fresh = OutputLayout::default();
    fresh.sync(Some(0), &all_lines, 80, true);

    assert_eq!(incremental.total_rows(), fresh.total_rows());
    assert_eq!(incremental.cum_rows, fresh.cum_rows);
}

#[test]
fn width_change_triggers_rebuild() {
    let lines = make_lines(3);
    let mut layout = OutputLayout::default();
    layout.sync(Some(0), &lines, 80, true);
    layout.sync(Some(0), &lines, 40, true);

    let mut fresh = OutputLayout::default();
    fresh.sync(Some(0), &lines, 40, true);

    assert_eq!(layout.cum_rows, fresh.cum_rows);
}

#[test]
fn shrinking_lines_triggers_rebuild() {
    let all_lines = make_lines(5);
    let mut layout = OutputLayout::default();
    layout.sync(Some(0), &all_lines, 80, true);
    layout.sync(Some(0), &all_lines[..2], 80, true);

    let mut fresh = OutputLayout::default();
    fresh.sync(Some(0), &all_lines[..2], 80, true);

    assert_eq!(layout.total_rows(), fresh.total_rows());
    assert_eq!(layout.cum_rows, fresh.cum_rows);
}

#[test]
fn locate_and_first_row_of_line_consistency() {
    let lines = vec![
        "short".to_string(),
        "a".repeat(25),
        "\x1b[32mgreen and long enough to wrap over ten cells\x1b[0m".to_string(),
        "".to_string(),
    ];
    let mut layout = OutputLayout::default();
    layout.sync(Some(0), &lines, 10, true);

    let mut expected_first_row = Vec::new();
    let mut running = 0usize;
    for line in &lines {
        expected_first_row.push(running);
        running += row_count(&strip_ansi(line), 10, true);
    }
    assert_eq!(layout.total_rows(), running);

    for (i, &first_row) in expected_first_row.iter().enumerate() {
        assert_eq!(layout.first_row_of_line(i), first_row);
        assert_eq!(layout.locate(first_row), Some((i, 0)));
    }
    assert_eq!(layout.locate(running), None);
}

#[test]
fn visible_lines_selection_overlay_multiline() {
    let lines = vec![
        "hello world".to_string(),
        "middle line".to_string(),
        "goodbye all".to_string(),
    ];
    let mut layout = OutputLayout::default();
    layout.sync(Some(0), &lines, 80, false);

    // The tail of line 0, all of line 1, the head of line 2.
    let sel = Some((SelPos { line: 0, ch: 6 }, SelPos { line: 2, ch: 7 }));
    let rows = visible_lines(&lines, &layout, 0, 3, 80, false, sel);
    assert_eq!(rows.len(), 3);

    let reversed_text = |spans: &[Span]| -> String {
        spans
            .iter()
            .filter(|s| s.style.add_modifier.reversed)
            .map(|s| s.content.as_str())
            .collect()
    };
    let plain_text = |spans: &[Span]| -> String {
        spans
            .iter()
            .filter(|s| !s.style.add_modifier.reversed)
            .map(|s| s.content.as_str())
            .collect()
    };

    assert_eq!(plain_text(&rows[0].spans), "hello ");
    assert_eq!(reversed_text(&rows[0].spans), "world");

    assert_eq!(plain_text(&rows[1].spans), "");
    assert_eq!(reversed_text(&rows[1].spans), "middle line");

    assert_eq!(plain_text(&rows[2].spans), " all");
    assert_eq!(reversed_text(&rows[2].spans), "goodbye");
}

#[test]
fn rows_of_a_line_make_up_the_line() {
    for width in 0..12u16 {
        for s in ["", "a", "日本語日本", "e\u{0301}xyz", "plain text of some length"] {
            let ranges = wrap_ranges(s, width, true);
            assert_eq!(ranges.len(), row_count(s, width, true));
            assert_eq!(ranges[0].start, 0);
            assert_eq!(ranges[ranges.len() - 1].end, s.chars().count());
            for pair in ranges.windows(2) {
                assert_eq!(pair[0].end, pair[1].start);
            }
        }
    }
}

#[test]
fn a_pane_shows_no_more_rows_than_it_has() {
    let lines = make_lines(9);
    let mut layout = OutputLayout::default();
    layout.sync(None, &lines, 80, false);
    assert_eq!(visible_lines(&lines, &layout, 2, 4, 80, false, None).len(), 4);
    assert_eq!(visible_lines(&lines, &layout, 7, 4, 80, false, None).len(), 2);
    assert_eq!(visible_lines(&lines, &layout, 9, 4, 80, false, None).len(), 0);
}
