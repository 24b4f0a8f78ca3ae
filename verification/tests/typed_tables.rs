use stat_engine::tables::{
    column_kind_of, count_column, count_columns, holds_text, kind_at, names_day, shape_cell,
    shape_date, shape_row, ColumnCount, ColumnKind,
};

fn texts(items: &[&str]) -> Vec<String> {
    items.iter().map(|s| s.to_string()).collect()
}

#[test]
fn kinds_by_the_name_of_the_type() {
    assert_eq!(column_kind_of("number"), ColumnKind::Number);
    assert_eq!(column_kind_of("date"), ColumnKind::Date);
    assert_eq!(column_kind_of("string"), ColumnKind::Text);
    assert_eq!(column_kind_of(""), ColumnKind::Text);
    assert_eq!(column_kind_of("Number"), ColumnKind::Text);
    assert_eq!(column_kind_of("date "), ColumnKind::Text);
    assert_eq!(column_kind_of("numbers"), ColumnKind::Text);
}

#[test]
fn no_kind_beyond_the_typed_columns() {
    let types = texts(&["number", "date", "string"]);
    assert_eq!(kind_at(&types, 0), Some(ColumnKind::Number));
    assert_eq!(kind_at(&types, 1), Some(ColumnKind::Date));
    assert_eq!(kind_at(&types, 2), Some(ColumnKind::Text));
    assert_eq!(kind_at(&types, 3), None);
    assert_eq!(kind_at(&Vec::new(), 0), None);
}

#[test]
fn dates_lose_their_time_of_day() {
    assert_eq!(shape_date("2024-03-05 14:30:00"), "2024-03-05");
    assert_eq!(shape_date("2024-03-05"), "2024-03-05");
    assert_eq!(shape_date("2024-3-5 4:05:06"), "2024-03-05");
    assert_eq!(shape_date("2024-3-5"), "2024-03-05");
    assert_eq!(shape_date("0750-01-02"), "0750-01-02");
}

#[test]
fn what_is_no_date_stays_as_it_is() {
    assert_eq!(shape_date("2023-02-29"), "2023-02-29");
    assert_eq!(shape_date("2024-13-01 00:00:00"), "2024-13-01 00:00:00");
    assert_eq!(shape_date("05/03/2024"), "05/03/2024");
    assert_eq!(shape_date("soon"), "soon");
    assert_eq!(shape_date(""), "");
    assert_eq!(shape_date(" 2024-03-05x"), " 2024-03-05x");
}

#[test]
fn days_are_told_from_other_cells() {
    assert!(names_day("2024-03-05"));
    assert!(names_day("2024-02-29"));
    assert!(names_day("2024-3-5"));
    assert!(!names_day("2023-02-29"));
    assert!(!names_day("2024-03-05 14:30:00"));
    assert!(!names_day("2024-03"));
    assert!(!names_day(""));
}

#[test]
fn blanks_alone_fill_no_cell() {
    assert!(holds_text("a"));
    assert!(holds_text("  a  "));
    assert!(holds_text(" \t x"));
    assert!(holds_text("\u{200b}"));
    assert!(!holds_text(""));
    assert!(!holds_text(" "));
    assert!(!holds_text(" \t\r\n"));
    assert!(!holds_text("\u{a0}\u{3000}\u{2003}"));
}

#[test]
fn cells_are_shaped_by_kind() {
    assert_eq!(shape_cell("12.5", Some(ColumnKind::Number)), None);
    assert_eq!(shape_cell("no number", Some(ColumnKind::Number)), None);
    assert_eq!(
        shape_cell("2024-03-05 14:30:00", Some(ColumnKind::Date)),
        Some("2024-03-05".to_string())
    );
    assert_eq!(shape_cell("soon", Some(ColumnKind::Date)), Some("soon".to_string()));
    assert_eq!(shape_cell(" x ", Some(ColumnKind::Text)), Some(" x ".to_string()));
    assert_eq!(shape_cell("2024-03-05 14:30:00", None), Some("2024-03-05 14:30:00".to_string()));
}

#[test]
fn rows_are_shaped_cell_by_cell() {
    let types = texts(&["number", "date", "string"]);
    let row = texts(&["3.14159", "2024-03-05 14:30:00", " hello ", "2024-01-01 00:00:00", "7"]);
    assert_eq!(
        shape_row(&row, &types),
        vec![
            None,
            Some("2024-03-05".to_string()),
            Some(" hello ".to_string()),
            Some("2024-01-01 00:00:00".to_string()),
            Some("7".to_string()),
        ]
    );
    assert_eq!(shape_row(&texts(&["1"]), &types), vec![None]);
    assert_eq!(shape_row(&Vec::new(), &types), Vec::<Option<String>>::new());
    assert_eq!(
        shape_row(&texts(&["1", "2"]), &Vec::new()),
        vec![Some("1".to_string()), Some("2".to_string())]
    );
}

#[test]
fn columns_are_counted_by_kind() {
    let rows = vec![
        texts(&["1.00", "2024-03-05", "a"]),
        texts(&["x", "soon", "  "]),
        texts(&["2.50", "2024-02-29"]),
        texts(&["3.00"]),
        texts(&[]),
    ];
    assert_eq!(count_column(&rows, ColumnKind::Number, 0), ColumnCount::Numbers { total: 4 });
    assert_eq!(
        count_column(&rows, ColumnKind::Date, 1),
        ColumnCount::Dates { valid: 2, total: 3 }
    );
    assert_eq!(
        count_column(&rows, ColumnKind::Text, 2),
        ColumnCount::Texts { filled: 1, total: 2 }
    );
    assert_eq!(
        count_column(&rows, ColumnKind::Text, 9),
        ColumnCount::Texts { filled: 0, total: 0 }
    );
    let types = texts(&["number", "date", "string", "date"]);
    assert_eq!(
        count_columns(&rows, &types),
        vec![
            ColumnCount::Numbers { total: 4 },
            ColumnCount::Dates { valid: 2, total: 3 },
            ColumnCount::Texts { filled: 1, total: 2 },
            ColumnCount::Dates { valid: 0, total: 0 },
        ]
    );
}

#[test]
fn a_table_without_rows_has_no_counts() {
    let types = texts(&["number", "date"]);
    assert_eq!(count_columns(&Vec::new(), &types), Vec::<ColumnCount>::new());
    assert_eq!(count_columns(&vec![Vec::new()], &Vec::new()), Vec::<ColumnCount>::new());
    assert_eq!(
        count_columns(&vec![Vec::new()], &types),
        vec![ColumnCount::Numbers { total: 0 }, ColumnCount::Dates { valid: 0, total: 0 }]
    );
}
