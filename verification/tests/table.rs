use musicum::table::{detail_key_width, format_table, DetailItem};
use musicum::table::DetailItem::{Field, Section};

#[test]
fn separator_spans_full_width() {
    let out = format_table(
        &["SLUG", "TITLE"],
        &[vec!["my-preset".into(), "My Preset".into()]],
        40,
    );
    let sep = out.lines().nth(1).unwrap();
    assert_eq!(sep.chars().count(), 40);
}

#[test]
fn two_col_basic_layout() {
    let out = format_table(
        &["SLUG", "TITLE"],
        &[
            vec!["my-preset".into(), "My Preset".into()],
            vec!["another".into(), "Another One".into()],
        ],
        60,
    );
    let lines: Vec<&str> = out.lines().collect();
    assert_eq!(lines.len(), 4);
    assert!(lines[0].starts_with("SLUG"));
    assert!(lines[2].starts_with("my-preset"));
    assert!(lines[3].starts_with("another  "));
}

#[test]
fn three_col_layout() {
    let out = format_table(
        &["ID", "NAME", "PARAMS"],
        &[vec!["crop".into(), "Crop".into(), "start=0 (time)".into()]],
        60,
    );
    let lines: Vec<&str> = out.lines().collect();
    assert_eq!(lines.len(), 3);
    assert!(lines[0].contains("ID"));
    assert!(lines[0].contains("NAME"));
    assert!(lines[0].contains("PARAMS"));
}

#[test]
fn last_col_truncates_with_ellipsis() {
    let long_val = "a".repeat(100);
    let out = format_table(&["ID", "VALUE"], &[vec!["x".into(), long_val]], 20);
    let row = out.lines().nth(2).unwrap();
    assert!(row.contains('…'));
    let last_cell_start = row.find("  ").unwrap() + 2;
    let last_cell = &row[last_cell_start..];
    assert!(last_cell.chars().count() <= 17);
}

#[test]
fn detail_key_width_computed_across_sections() {
    let items = vec![
        Field("slug", "my-clip".into()),
        Section("file"),
        Field("path", "/music/x.flac".into()),
    ];
    let key_w = items
        .iter()
        .filter_map(|i| if let DetailItem::Field(k, _) = i { Some(k.len()) } else { None })
        .max()
        .unwrap_or(0);
    assert_eq!(key_w, 4); // "slug" and "path" are both 4 chars
    assert_eq!(detail_key_width(&items), 4);
}

#[test]
fn last_col_fits_without_truncation() {
    let out = format_table(&["ID", "VALUE"], &[vec!["x".into(), "short".into()]], 40);
    let row = out.lines().nth(2).unwrap();
    assert!(!row.contains('…'));
    assert!(row.contains("short"));
}

#[test]
fn col_width_driven_by_widest_row() {
    let out = format_table(
        &["ID", "VALUE"],
        &[
            vec!["short".into(), "v1".into()],
            vec!["much-longer-slug".into(), "v2".into()],
        ],
        60,
    );
    let lines: Vec<&str> = out.lines().collect();
    assert!(lines[2].starts_with("short            "));
}

#[test]
fn table_without_columns_is_empty() {
    assert_eq!(format_table(&[], &[vec!["x".into()]], 40), "");
}

#[test]
fn table_exact_layout_spreads_spare_width_leftmost_first() {
    // Widths 2 and 3 plus a separator of 2 make 7; on 12 columns 5 are spare:
    // 2 per column, and the first column takes the remaining one.
    let out = format_table(&["ab", "cde"], &[], 12);
    assert_eq!(out, format!("ab     cde  \n{}\n", "─".repeat(12)));
}

#[test]
fn table_narrow_terminal_keeps_header_width_for_last_column() {
    // Content is wider than the terminal; the last column shrinks but never
    // below its header's width.
    let out = format_table(&["ID", "VALUE"], &[vec!["abcdefgh".into(), "123456789".into()]], 10);
    assert_eq!(out, format!("ID        VALUE\n{}\nabcdefgh  1234…\n", "─".repeat(10)));
}

#[test]
fn table_short_rows_render_fewer_cells() {
    let out = format_table(&["A", "B"], &[vec!["x".into()]], 4);
    assert_eq!(out, "A  B\n────\nx\n");
}

#[test]
fn table_zero_width_cell_is_only_an_ellipsis() {
    // An empty last header lets the last column shrink to nothing.
    let out = format_table(&["ID", ""], &[vec!["abcd".into(), "zz".into()]], 6);
    assert_eq!(out, "ID    \n──────\nabcd  …\n");
}

#[test]
fn fitting_tables_span_the_terminal() {
    let out = format_table(&["A", "BB", "CCC"], &[vec!["x".into(), "yy".into(), "z".into()]], 30);
    for line in out.lines() {
        assert_eq!(line.chars().count(), 30, "{line:?}");
    }
}

#[test]
fn table_lines_are_header_rule_then_rows_in_order() {
    let rows = vec![
        vec!["a".to_string(), "first".to_string()],
        vec!["bb".to_string(), "second".to_string()],
        vec!["c".to_string(), "third".to_string()],
    ];
    let out = format_table(&["K", "NAME"], &rows, 16);
    assert!(out.ends_with('\n'));
    let lines: Vec<&str> = out.lines().collect();
    assert_eq!(lines.len(), rows.len() + 2);
    assert_eq!(lines[1], "─".repeat(16));
    // Content widths 2 and 6 plus a separator leave 6 spare: 3 per column.
    assert_eq!(lines[0], "K      NAME     ");
    assert_eq!(lines[2], "a      first    ");
    assert_eq!(lines[3], "bb     second   ");
    assert_eq!(lines[4], "c      third    ");
}

#[test]
fn fitting_table_cells_start_at_their_column_offsets() {
    let out = format_table(&["A", "B", "C"], &[vec!["x".into(), "y".into(), "z".into()]], 12);
    // Content 1+1+1 plus 4 separators is 7; 5 spare: widths 3, 3, 2.
    for line in out.lines().filter(|l| !l.starts_with('─')) {
        assert_eq!(line.chars().count(), 12);
        assert_eq!(&line[3..5], "  ");
        assert_eq!(&line[8..10], "  ");
        assert!(!line.contains('…'));
    }
    let row = out.lines().nth(2).unwrap();
    assert_eq!(row, "x    y    z ");
}

#[test]
fn wide_table_lines_are_fixed_part_plus_last_width() {
    let out = format_table(&["ID", "VALUE"], &[vec!["abc".into(), "0123456789".into()]], 12);
    // Fixed part: width 3 plus 2 separator spaces; the last column gets 7.
    let lines: Vec<&str> = out.lines().collect();
    assert_eq!(lines[0], "ID   VALUE  ");
    assert_eq!(lines[2], "abc  012345…");
    assert_eq!(lines[2].chars().count(), 12);
}
