use unvesys::flexible_table::{ColumnSpec, FlexibleTable, TableData, TableDataMut};
use unvesys::harness_commands::{
    add_processing_column, dump_table_records, harness_labels_export,
    harness_schleuniger_ascii_export, lookup_wire_processing,
};
use unvesys::shchleuniger::{wirelist_to_schleuniger_records, MARKER_TEXT};
use unvesys::vysis::{Connectivity, HarnessDesign, Wire};
use unvesys::vysisxml::{
    XmlCellVal, XmlColHdrNames, XmlColumnStyle, XmlCval, XmlDataRow, XmlDataValues, XmlHeaderRow,
    XmlTable, XmlTableDataCache, XmlTableFamily, XmlTableGroup,
};
use unvesys::vysyslib::{Library, WireProperty};
use unvesys::wire_list_columns;

fn style(name: &str) -> XmlColumnStyle {
    XmlColumnStyle {
        columnname: name.to_string(),
        displayname: name.to_string(),
        visibility: "true".to_string(),
        hideempty: "false".to_string(),
    }
}

fn cells(vals: &[&str]) -> Vec<XmlCellVal> {
    vals.iter().map(|v| XmlCellVal { cval: XmlCval { val: v.to_string() } }).collect()
}

fn table(header: &[&str], rows: &[&[&str]]) -> XmlTable {
    XmlTable {
        tabledatacache: Some(XmlTableDataCache {
            colhdrnames: XmlColHdrNames { row: XmlHeaderRow { cellvals: cells(header) } },
            datavalues: XmlDataValues {
                datarow: rows.iter().map(|r| XmlDataRow { cellval: cells(r) }).collect(),
            },
        }),
    }
}

const HEADER: [&str; 6] = ["Wire Name", "From Device", "From Cavity", "To Device", "To Cavity", "Length"];

fn wire_group(decoration: &str, title: &str, tables: Vec<XmlTable>) -> XmlTableGroup {
    XmlTableGroup {
        title: title.to_string(),
        decorationname: decoration.to_string(),
        columnstyle: HEADER.iter().map(|h| style(h)).collect(),
        tablefamily: XmlTableFamily { table: tables },
    }
}

fn wire(name: &str, partnumber: Option<&str>) -> Wire {
    Wire {
        name: name.to_string(),
        short_descr: String::new(),
        customer_partno: String::new(),
        material: String::new(),
        spec: String::new(),
        color: String::new(),
        partnumber: partnumber.map(|p| p.to_string()),
        length: "1".to_string(),
        twisted_with: None,
        harness: "H".to_string(),
        connection: Vec::new(),
        connections: Vec::new(),
    }
}

fn library() -> Library {
    Library {
        customer_parts: Vec::new(),
        terminals: Vec::new(),
        splices: Vec::new(),
        wire_properties: vec![
            WireProperty {
                partnumber: "WP1".to_string(),
                name: "GAUGE".to_string(),
                value: "18".to_string(),
            },
            WireProperty {
                partnumber: "WP1".to_string(),
                name: "PROCESSING".to_string(),
                value: "STRIP".to_string(),
            },
        ],
        colors: Vec::new(),
    }
}

fn design(groups: Vec<XmlTableGroup>) -> HarnessDesign {
    HarnessDesign {
        table_groups: groups,
        connectivity: Connectivity {
            wires: vec![wire("W1", Some("WP1")), wire("W2", None), wire("W3", Some("WP9"))],
            pins: Vec::new(),
        },
    }
}

fn standard_design() -> HarnessDesign {
    design(vec![
        wire_group("OtherTable", "Other", vec![]),
        wire_group(
            "HarnessWireTable",
            "Wires",
            vec![table(
                &HEADER,
                &[&["W1", "J1", "1", "J2", "3", "12.5"], &["W9", "J1", "2", "J3", "1", "4"]],
            )],
        ),
    ])
}

#[test]
fn wire_processing_lookup() {
    let lib = library();
    let d = standard_design();
    assert_eq!(lookup_wire_processing(&lib, &d, "W1"), Some("STRIP"));
    assert_eq!(lookup_wire_processing(&lib, &d, "W2"), None);
    assert_eq!(lookup_wire_processing(&lib, &d, "W3"), None);
    assert_eq!(lookup_wire_processing(&lib, &d, "W404"), None);
}

#[test]
fn labels_export_of_harness_wire_table() {
    let lib = library();
    let d = standard_design();
    assert_eq!(
        harness_labels_export(&lib, &d),
        Ok("From,To\nJ1-1,J2-3\nJ1-2,J3-1\n".to_string())
    );
}

#[test]
fn labels_export_without_wire_table_fails() {
    let lib = library();
    let d = design(vec![wire_group("OtherTable", "Other", vec![])]);
    assert_eq!(harness_labels_export(&lib, &d), Err("HarnessWireTable not found".to_string()));
}

fn small_table() -> FlexibleTable {
    let mut t = FlexibleTable::new(vec![ColumnSpec {
        id: wire_list_columns::WIRE_NAME.to_string(),
        display: "Wire".to_string(),
    }]);
    t.push_row(vec!["W1".to_string()]);
    t.push_row(vec!["W404".to_string()]);
    t.push_row(Vec::new());
    t
}

#[test]
fn processing_column_added_and_reads_back() {
    let lib = library();
    let d = standard_design();
    let mut t = small_table();
    add_processing_column(&lib, &d, &mut t);
    assert_eq!(t.column_count(), 2);
    assert_eq!(t.columns[1].id, "PROCESSING");
    assert_eq!(t.columns[1].display, "Processing");
    assert_eq!(t.get_by_name(0, "PROCESSING"), Some("STRIP"));
    assert_eq!(t.get_by_name(1, "PROCESSING"), Some("N/A"));
    assert_eq!(t.get_by_name(2, "PROCESSING"), Some("N/A"));
    assert_eq!(t.get(2, 0), Some(""));
}

#[test]
fn processing_column_added_twice_is_added_once() {
    let lib = library();
    let d = standard_design();
    let mut t = small_table();
    add_processing_column(&lib, &d, &mut t);
    let cells_once: Vec<Vec<String>> = t.rows.iter().map(|r| r.cells.clone()).collect();
    add_processing_column(&lib, &d, &mut t);
    let cells_twice: Vec<Vec<String>> = t.rows.iter().map(|r| r.cells.clone()).collect();
    assert_eq!(t.column_count(), 2);
    assert_eq!(cells_once, cells_twice);
}

#[test]
fn processing_column_kept_when_present() {
    let lib = library();
    let d = standard_design();
    let mut t = small_table();
    t.columns.push(ColumnSpec { id: "PROCESSING".to_string(), display: "P".to_string() });
    t.set(0, 1, "MINE".to_string());
    add_processing_column(&lib, &d, &mut t);
    assert_eq!(t.column_count(), 2);
    assert_eq!(t.get_by_name(0, "PROCESSING"), Some("MINE"));
    assert_eq!(t.get_by_name(1, "PROCESSING"), None);
}

fn record(v: &[&str]) -> Vec<String> {
    v.iter().map(|s| s.to_string()).collect()
}

fn header_records() -> Vec<Vec<String>> {
    vec![
        record(&["Import", "ASCII"]),
        record(&["Units", "inch"]),
        record(&["Area", "TT"]),
        record(&[
            "Name",
            "Part",
            "Length",
            "Style",
            "Stripping type",
            "Right strip",
            "Left strip",
            "Partial strip %",
            "Marker left text",
            "Marker left position",
            "Marker right text",
            "Marker right position",
            "Autorotation",
        ]),
    ]
}

#[test]
fn schleuniger_export_records() {
    let lib = library();
    let d = standard_design();
    let recs = harness_schleuniger_ascii_export(&lib, &d, "3.25", "2").unwrap();
    let mut expected = header_records();
    expected.push(record(&[
        "J1-1/J2-3", "1", "12.5", "STRIP", "9", "", "", "50%", MARKER_TEXT, "3.25", MARKER_TEXT, "2", "X",
    ]));
    expected.push(record(&[
        "J1-2/J3-1", "2", "4", "N/A", "9", "", "", "50%", MARKER_TEXT, "3.25", MARKER_TEXT, "2", "X",
    ]));
    assert_eq!(recs, expected);
    assert_eq!(MARKER_TEXT, "\\#C@7\\&n\\&@7");
}

#[test]
fn schleuniger_export_without_wire_table_fails() {
    let lib = library();
    let d = design(vec![]);
    assert_eq!(
        harness_schleuniger_ascii_export(&lib, &d, "3.25", "2"),
        Err("No wire table!".to_string())
    );
}

#[test]
fn schleuniger_records_of_empty_table_are_the_header() {
    let t = FlexibleTable::new(Vec::new());
    assert_eq!(wirelist_to_schleuniger_records(&t, "1", "2"), header_records());
}

#[test]
fn schleuniger_records_strip_lengths_and_part_numbers() {
    let mut t = FlexibleTable::new(
        [
            wire_list_columns::WIRE_TERMINAL_STRIP_LEN1,
            wire_list_columns::WIRE_TERMINAL_STRIP_LEN2,
            wire_list_columns::PROCESSING,
        ]
        .iter()
        .map(|c| ColumnSpec { id: c.to_string(), display: c.to_string() })
        .collect(),
    );
    for _ in 0..11 {
        t.push_row(record(&["0.25", "0.5", "CUT"]));
    }
    let recs = wirelist_to_schleuniger_records(&t, "3.25", "2");
    assert_eq!(recs.len(), 15);
    assert_eq!(recs[14], record(&["-/-", "11", "", "CUT", "9", "0.25", "0.5", "50%", MARKER_TEXT, "3.25", MARKER_TEXT, "2", "X"]));
}

#[test]
fn dump_records_name_and_number_tables() {
    let groups = vec![
        wire_group("A", "Wire/List", vec![
            table(&["H1", "H2"], &[&["a", "b"], &["c", "d"]]),
            XmlTable { tabledatacache: None },
        ]),
        wire_group("B", "Second", vec![table(&["X"], &[])]),
    ];
    let dumps = dump_table_records(&groups, "proj");
    assert_eq!(dumps.len(), 2);
    assert_eq!(dumps[0].0, "proj-Wire_List-0.csv");
    assert_eq!(dumps[0].1, vec![record(&["H1", "H2"]), record(&["a", "b"]), record(&["c", "d"])]);
    assert_eq!(dumps[1].0, "proj-Second-1.csv");
    assert_eq!(dumps[1].1, vec![record(&["X"])]);
}

#[test]
fn dump_records_of_no_groups() {
    assert!(dump_table_records(&Vec::new(), "proj").is_empty());
}
