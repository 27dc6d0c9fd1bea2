use unvesys::export_names::{export_base_name, export_file_name, is_connections_view, uses_generic_xlsx, ExportKind};
use unvesys::flexible_table::{ColumnSpec, FlexibleTable};

#[test]
fn base_name_is_last_piece() {
    assert_eq!(export_base_name("Design - Harness"), "Harness");
    assert_eq!(export_base_name("a - b - c"), "c");
    assert_eq!(export_base_name("plain"), "plain");
    assert_eq!(export_base_name(""), "");
    assert_eq!(export_base_name("ends - "), "");
}

#[test]
fn base_name_agrees_with_str_split() {
    for t in [" - - ", "x -  - y", "a - - b", "--- - ---", "H - J1 connections", " -  - "] {
        assert_eq!(export_base_name(t), t.split(" - ").last().unwrap());
    }
}

#[test]
fn file_names_per_kind() {
    assert_eq!(export_file_name("D - H1", ExportKind::Xlsx), "H1.xlsx");
    assert_eq!(export_file_name("D - H1", ExportKind::Csv), "H1.csv");
    assert_eq!(export_file_name("D - H1", ExportKind::Schleuniger), "H1.txt");
    assert_eq!(export_file_name("D - H1", ExportKind::Labels), "H1 labels.csv");
    assert_eq!(export_file_name("D - a/b", ExportKind::Csv), "a_b.csv");
}

#[test]
fn connections_views() {
    assert!(is_connections_view("Design - J1 connections"));
    assert!(is_connections_view("connections"));
    assert!(!is_connections_view("Design - wire list"));
    assert!(!is_connections_view("connection"));
    assert!(!is_connections_view(""));
}

#[test]
fn generic_layout_for_pin_tables() {
    let pin_table = FlexibleTable::new(vec![ColumnSpec { id: "pin".to_string(), display: "Pin".to_string() }]);
    let wire_table = FlexibleTable::new(vec![ColumnSpec { id: "WIRE_NAME".to_string(), display: "Wire".to_string() }]);
    assert!(uses_generic_xlsx(&pin_table));
    assert!(!uses_generic_xlsx(&wire_table));
}
