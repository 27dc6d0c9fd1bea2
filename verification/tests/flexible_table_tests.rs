use unvesys::flexible_table::{
    dash_join, flexible_table_to_csv_generic, flexible_table_to_labels_csv, ColumnSpec,
    FlexibleRow, FlexibleTable, RowMeta, TableData, TableDataMut,
};
use unvesys::text::{join_strings, parse_i32_exec, str_order, trims_to_caret, usize_to_decimal, Order};
use unvesys::wire_list_columns;

fn cols(ids: &[(&str, &str)]) -> Vec<ColumnSpec> {
    ids.iter()
        .map(|(i, d)| ColumnSpec { id: i.to_string(), display: d.to_string() })
        .collect()
}

fn row(cells: &[&str]) -> Vec<String> {
    cells.iter().map(|c| c.to_string()).collect()
}

#[test]
fn new_table_has_columns_and_no_rows() {
    let t = FlexibleTable::new(cols(&[("a", "A"), ("b", "B")]));
    assert_eq!(t.column_count(), 2);
    assert_eq!(t.row_count(), 0);
    assert_eq!(t.column_name(1), Some("b"));
    assert_eq!(t.column_name(2), None);
}

#[test]
fn with_columns_builds_specs() {
    let t = FlexibleTable::with_columns(vec![
        ("x".to_string(), "X col".to_string()),
        ("y".to_string(), "Y col".to_string()),
    ]);
    assert_eq!(t.columns.len(), 2);
    assert_eq!(t.columns[0].id, "x");
    assert_eq!(t.columns[1].display, "Y col");
    assert_eq!(t.row_count(), 0);
}

#[test]
fn column_index_finds_first() {
    let t = FlexibleTable::new(cols(&[("a", "A"), ("b", "B"), ("a", "A2")]));
    assert_eq!(t.column_index("a"), Some(0));
    assert_eq!(t.column_index("b"), Some(1));
    assert_eq!(t.column_index("c"), None);
}

#[test]
fn push_row_then_get() {
    let mut t = FlexibleTable::new(cols(&[("a", "A"), ("b", "B")]));
    t.push_row(row(&["1", "2"]));
    t.push_row(row(&["3"]));
    assert_eq!(t.row_count(), 2);
    assert_eq!(t.get(0, 1), Some("2"));
    assert_eq!(t.get(1, 0), Some("3"));
    assert_eq!(t.get(1, 1), None);
    assert_eq!(t.get(2, 0), None);
    assert_eq!(t.get_by_name(0, "b"), Some("2"));
    assert_eq!(t.get_by_name(0, "zz"), None);
    assert!(!t.row_meta(0).unwrap().group_boundary_below);
    assert!(t.row_meta(2).is_none());
}

#[test]
fn set_then_get_reads_back_and_pads() {
    let mut t = FlexibleTable::new(cols(&[("a", "A")]));
    t.push_row(row(&["x"]));
    assert!(t.set(0, 3, "v".to_string()));
    assert_eq!(t.get(0, 3), Some("v"));
    assert_eq!(t.get(0, 0), Some("x"));
    assert_eq!(t.get(0, 1), Some(""));
    assert_eq!(t.get(0, 2), Some(""));
    assert!(t.set(0, 0, "y".to_string()));
    assert_eq!(t.get(0, 0), Some("y"));
    assert_eq!(t.get(0, 3), Some("v"));
}

#[test]
fn set_on_missing_row_fails_and_changes_nothing() {
    let mut t = FlexibleTable::new(cols(&[("a", "A")]));
    t.push_row(row(&["x"]));
    assert!(!t.set(1, 0, "v".to_string()));
    assert_eq!(t.row_count(), 1);
    assert_eq!(t.get(0, 0), Some("x"));
}

#[test]
fn row_meta_reports_metadata() {
    let mut t = FlexibleTable::new(cols(&[("a", "A")]));
    t.rows.push(FlexibleRow {
        cells: row(&["1"]),
        meta: RowMeta { group_boundary_below: true, color_code: Some("RD".to_string()) },
    });
    let m = t.row_meta(0).unwrap();
    assert!(m.group_boundary_below);
    assert_eq!(m.color_code.as_deref(), Some("RD"));
}

#[test]
fn csv_generic_escapes_fields() {
    let mut t = FlexibleTable::new(cols(&[("a", "Name"), ("b", "Note, more")]));
    t.push_row(row(&["plain", "has \"quote\""]));
    t.push_row(row(&["line\nbreak", "cr\r"]));
    let csv = flexible_table_to_csv_generic(&t);
    assert_eq!(
        csv,
        "Name,\"Note, more\"\nplain,\"has \"\"quote\"\"\"\n\"line\nbreak\",\"cr\r\"\n"
    );
}

#[test]
fn csv_generic_empty_table() {
    let t = FlexibleTable::new(Vec::new());
    assert_eq!(flexible_table_to_csv_generic(&t), "\n");
}

#[test]
fn labels_csv_uses_labels_or_device_cavity() {
    let mut t = FlexibleTable::new(cols(&[
        (wire_list_columns::FROM_LABEL, "From"),
        (wire_list_columns::TO_LABEL, "To"),
        (wire_list_columns::WIRE_FROM_PINLIST, "From Device"),
        (wire_list_columns::WIRE_FROM_CAVITY, "From Pin"),
        (wire_list_columns::WIRE_TO_PINLIST, "To Device"),
        (wire_list_columns::WIRE_TO_CAVITY, "To Pin"),
    ]));
    t.push_row(row(&["L1", "L2", "J1", "1", "J2", "2"]));
    t.push_row(row(&["L1", "", "J1", "3", "J2", "4"]));
    t.push_row(row(&[]));
    let out = flexible_table_to_labels_csv(&t);
    assert_eq!(out, "From,To\nL1,L2\nJ1-3,J2-4\n-,-\n");
}

#[test]
fn dash_join_joins() {
    assert_eq!(dash_join("J1", "4"), "J1-4");
    assert_eq!(dash_join("", ""), "-");
}

#[test]
fn decimal_formatting() {
    assert_eq!(usize_to_decimal(0), "0");
    assert_eq!(usize_to_decimal(7), "7");
    assert_eq!(usize_to_decimal(1234), "1234");
}

#[test]
fn parse_integers() {
    assert_eq!(parse_i32_exec("42"), Some(42));
    assert_eq!(parse_i32_exec("-7"), Some(-7));
    assert_eq!(parse_i32_exec("+5"), Some(5));
    assert_eq!(parse_i32_exec("2147483647"), Some(2147483647));
    assert_eq!(parse_i32_exec("-2147483648"), Some(-2147483648));
    assert_eq!(parse_i32_exec("2147483648"), None);
    assert_eq!(parse_i32_exec("A1"), None);
    assert_eq!(parse_i32_exec(""), None);
    assert_eq!(parse_i32_exec("-"), None);
    assert_eq!(parse_i32_exec(" 1"), None);
}

#[test]
fn caret_termination() {
    assert!(trims_to_caret("^"));
    assert!(trims_to_caret("  ^ \t"));
    assert!(!trims_to_caret("^^"));
    assert!(!trims_to_caret(""));
}

#[test]
fn string_order_is_str_order() {
    assert_eq!(str_order("a", "b"), Order::Less);
    assert_eq!(str_order("b", "a"), Order::Greater);
    assert_eq!(str_order("ab", "ab"), Order::Equal);
    assert_eq!(str_order("a", "ab"), Order::Less);
    assert_eq!(str_order("B", "a"), Order::Less);
    assert_eq!(str_order("10", "9"), Order::Less);
}

#[test]
fn join_with_separator() {
    let v = vec!["a".to_string(), "b".to_string(), "c".to_string()];
    assert_eq!(join_strings(&v, ", "), "a, b, c");
    assert_eq!(join_strings(&Vec::new(), ","), "");
}
