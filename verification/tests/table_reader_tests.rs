use unvesys::flexible_table::TableData;
use unvesys::table_convert::{harness_column_mapping, table_group_to_flexible_table, vysys_table_to_flexible_table};
use unvesys::vesys_table_reader::VysysTableReader;
use unvesys::vysisxml::{
    XmlCellVal, XmlColHdrNames, XmlColumnStyle, XmlCval, XmlDataRow, XmlDataValues, XmlHeaderRow,
    XmlTable, XmlTableDataCache, XmlTableFamily, XmlTableGroup,
};

fn style(name: &str, display: &str, visible: bool) -> XmlColumnStyle {
    XmlColumnStyle {
        columnname: name.to_string(),
        displayname: display.to_string(),
        visibility: if visible { "true" } else { "false" }.to_string(),
        hideempty: "false".to_string(),
    }
}

fn cells(vals: &[&str]) -> Vec<XmlCellVal> {
    vals.iter().map(|v| XmlCellVal { cval: XmlCval { val: v.to_string() } }).collect()
}

fn table(header: &[&str], rows: &[&[&str]]) -> XmlTable {
    XmlTable {
        tabledatacache: Some(XmlTableDataCache {
            colhdrnames: XmlColHdrNames { row: XmlHeaderRow { cellvals: cells(header) } },
            datavalues: XmlDataValues {
                datarow: rows.iter().map(|r| XmlDataRow { cellval: cells(r) }).collect(),
            },
        }),
    }
}

fn group(tables: Vec<XmlTable>) -> XmlTableGroup {
    XmlTableGroup {
        title: "Wires".to_string(),
        decorationname: "HarnessWireTable".to_string(),
        columnstyle: vec![
            style("Wire Name", "Wire", true),
            style("Hidden", "Hidden", false),
            style("From Device", "From", true),
            style("Color", "Colour", true),
        ],
        tablefamily: XmlTableFamily { table: tables },
    }
}

#[test]
fn reader_maps_visible_columns() {
    let g = group(vec![table(&["Wire", "From", "Colour"], &[&["W1", "J1", "RD"]])]);
    let r = VysysTableReader::new(&g);
    let m = r.column_map();
    assert_eq!(m.len(), 3);
    assert_eq!(m[0].name, "Wire Name");
    assert_eq!(m[0].index, 0);
    assert_eq!(m[1].name, "From Device");
    assert_eq!(m[1].index, 1);
    assert_eq!(m[2].name, "Color");
    assert_eq!(m[2].index, 2);
    assert_eq!(m[2].display, "Colour");
}

#[test]
fn reader_hides_hideempty_columns() {
    let mut g = group(vec![]);
    g.columnstyle[0].hideempty = "true".to_string();
    let r = VysysTableReader::new(&g);
    assert_eq!(r.column_map().len(), 2);
    assert_eq!(r.column_map()[0].name, "From Device");
    assert_eq!(r.column_map()[0].index, 0);
}

#[test]
fn reader_later_style_replaces_earlier() {
    let mut g = group(vec![]);
    g.columnstyle.push(style("Wire Name", "Wire again", true));
    let r = VysysTableReader::new(&g);
    let m = r.column_map();
    assert_eq!(m.len(), 3);
    assert_eq!(m[2].name, "Wire Name");
    assert_eq!(m[2].index, 3);
    assert_eq!(m[2].display, "Wire again");
}

#[test]
fn reader_counts_and_cells() {
    let g = group(vec![
        table(&["Wire", "From", "Colour"], &[&["W1", "J1", "RD"], &["W2", "J2"]]),
        XmlTable { tabledatacache: None },
    ]);
    let r = VysysTableReader::new(&g);
    assert_eq!(r.get_subtable_count(), 2);
    assert_eq!(r.get_subtable_row_count(0), 2);
    assert_eq!(r.get_subtable_row_count(1), 0);
    assert_eq!(r.get_subtable_cell(0, "From Device", 1), Ok("J2"));
    assert_eq!(r.get_subtable_cell(0, "Color", 1), Err("Column index out of bounds!".to_string()));
    assert_eq!(r.get_subtable_cell(0, "Color", 5), Err("Row index out of bounds!".to_string()));
    assert_eq!(r.get_subtable_cell(0, "Nope", 0), Err("Invalid column name!".to_string()));
    assert_eq!(r.get_subtable_cell(1, "Color", 0), Err("Table data cache missing!".to_string()));
}

#[test]
fn unknown_column_is_invalid_for_any_subtable_index() {
    let g = group(vec![table(&["Wire", "From", "Colour"], &[&["W1", "J1", "RD"]])]);
    let r = VysysTableReader::new(&g);
    assert_eq!(r.get_subtable_cell(7, "Nope", 0), Err("Invalid column name!".to_string()));
    assert_eq!(r.get_subtable_cell(usize::MAX, "Hidden", 3), Err("Invalid column name!".to_string()));
}

#[test]
fn yielded_rows_read_the_reader_cells() {
    let g = group(vec![
        table(&["Wire", "From", "Colour"], &[&["W1", "J1", "RD"], &["W2", "J2"]]),
        XmlTable { tabledatacache: None },
        table(&["Wire", "From", "Colour"], &[&["W3", "J3", "GN"]]),
    ]);
    let r = VysysTableReader::new(&g);
    let positions = [(0, 0), (0, 1), (1, 0), (2, 0)];
    let mut it = r.get_row_iter();
    let mut k = 0;
    while let Some(row) = it.next() {
        let (s, i) = positions[k];
        for name in ["Wire Name", "From Device", "Color", "Nope"] {
            assert_eq!(row.get_column(name), r.get_subtable_cell(s, name, i));
        }
        k += 1;
    }
    assert_eq!(k, 4);
}

#[test]
fn row_iteration_visits_every_row_and_empty_subtables_once() {
    let g = group(vec![
        table(&["Wire", "From", "Colour"], &[&["W1", "J1", "RD"], &["W2", "J2", "BK"]]),
        table(&["Wire", "From", "Colour"], &[]),
        table(&["Wire", "From", "Colour"], &[&["W3", "J3", "GN"]]),
    ]);
    let r = VysysTableReader::new(&g);
    let mut it = r.get_row_iter();
    let mut names = Vec::new();
    while let Some(row) = it.next() {
        names.push(row.get_column("Wire Name").map(|s| s.to_string()));
    }
    assert_eq!(
        names,
        vec![
            Ok("W1".to_string()),
            Ok("W2".to_string()),
            Err("Row index out of bounds!".to_string()),
            Ok("W3".to_string()),
        ]
    );
    assert!(it.next().is_none());
}

#[test]
fn column_mapping_pairs() {
    let m = harness_column_mapping();
    assert_eq!(m.len(), 6);
    assert_eq!(m[0], ("From Device".to_string(), "WIRE_FROM_PINLIST".to_string()));
    assert_eq!(m[4], ("Wire Name".to_string(), "WIRE_NAME".to_string()));
    assert_eq!(m[5], ("Length".to_string(), "MODIFIED_LENGTH".to_string()));
}

#[test]
fn conversion_canonical_ids_and_na() {
    let g = group(vec![
        table(&["Wire", "From", "Colour"], &[&["W1", "J1", "RD"], &["W2", "J2"]]),
        table(&["Wire", "From", "Colour"], &[]),
    ]);
    let r = VysysTableReader::new(&g);
    let t = vysys_table_to_flexible_table(&r);
    let ids: Vec<&str> = t.columns.iter().map(|c| c.id.as_str()).collect();
    assert_eq!(ids, vec!["WIRE_NAME", "WIRE_FROM_PINLIST", "Color"]);
    let displays: Vec<&str> = t.columns.iter().map(|c| c.display.as_str()).collect();
    assert_eq!(displays, vec!["Wire", "From", "Colour"]);
    assert_eq!(t.row_count(), 3);
    assert_eq!(t.rows[0].cells, vec!["W1", "J1", "RD"]);
    assert_eq!(t.rows[1].cells, vec!["W2", "J2", "N/A"]);
    assert_eq!(t.rows[2].cells, vec!["N/A", "N/A", "N/A"]);
    assert!(t.rows.iter().all(|r| !r.meta.group_boundary_below && r.meta.color_code.is_none()));
}

#[test]
fn group_conversion_matches_reader_conversion() {
    let g = group(vec![table(&["Wire", "From", "Colour"], &[&["W1", "J1", "RD"]])]);
    let a = table_group_to_flexible_table(&g);
    let b = vysys_table_to_flexible_table(&VysysTableReader::new(&g));
    assert_eq!(a.rows[0].cells, b.rows[0].cells);
    assert_eq!(a.get_by_name(0, "WIRE_FROM_PINLIST"), Some("J1"));
}

#[test]
fn row_iteration_in_order_counts_all_rows() {
    let g = group(vec![
        table(&["Wire", "From", "Colour"], &[&["A", "J1", "RD"], &["B", "J1", "RD"]]),
        table(&["Wire", "From", "Colour"], &[&["C", "J1", "RD"]]),
        table(&["Wire", "From", "Colour"], &[&["D", "J1", "RD"], &["E", "J1", "RD"], &["F", "J1", "RD"]]),
    ]);
    let r = VysysTableReader::new(&g);
    let total: usize = (0..r.get_subtable_count()).map(|s| r.get_subtable_row_count(s)).sum();
    let mut it = r.get_row_iter();
    let mut names = Vec::new();
    while let Some(row) = it.next() {
        names.push(row.get_column("Wire Name").unwrap().to_string());
    }
    assert_eq!(names.len(), total);
    assert_eq!(names, vec!["A", "B", "C", "D", "E", "F"]);
    assert!(it.next().is_none());
}
