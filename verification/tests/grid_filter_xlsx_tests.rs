use unvesys::element_filter::{element_label, element_passes, filter_elements, ElementName};
use unvesys::flexible_table::{ColumnSpec, FlexibleRow, FlexibleTable, RowMeta, TableDataMut};
use unvesys::text::Order;
use unvesys::wire_list_columns;
use unvesys::wire_list_grid::WireListRowViewer;
use unvesys::wire_list_xlsx_formatter::{
    color_map, flexible_table_to_grid, row_fill_color, wire_list_column_widths, wire_list_header,
    wire_list_row_writes, wire_list_sheet_looks, wire_list_sheet_regions, CellAlign, CellFill, RegionStyle, SheetBorder, SheetRegion, LABEL_TO,
    TO_PIN, WIRE_NAME,
};

fn strings(v: &[&str]) -> Vec<String> {
    v.iter().map(|s| s.to_string()).collect()
}

fn frow(cells: &[&str]) -> FlexibleRow {
    FlexibleRow { cells: strings(cells), meta: RowMeta { group_boundary_below: false, color_code: None } }
}

#[test]
fn viewer_columns() {
    let v = WireListRowViewer::new(&strings(&["A", "B"]));
    assert_eq!(v.num_columns(), 2);
    assert_eq!(v.column_name(1), "B");
    assert_eq!(v.column_name(2), "");
    assert!(v.is_sortable_column(1));
    assert!(!v.is_sortable_column(2));
}

#[test]
fn viewer_compares_cells() {
    let v = WireListRowViewer::new(&strings(&["A", "B"]));
    let a = frow(&["x", "10"]);
    let b = frow(&["y", "9"]);
    let c = frow(&["x"]);
    assert_eq!(v.compare_cells(&a, &b, 0), Order::Less);
    assert_eq!(v.compare_cells(&a, &b, 1), Order::Less);
    assert_eq!(v.compare_cells(&b, &a, 1), Order::Greater);
    assert_eq!(v.compare_cells(&a, &c, 1), Order::Greater);
    assert_eq!(v.compare_cells(&a, &a, 0), Order::Equal);
    assert_eq!(v.compare_cells(&a, &b, 5), Order::Equal);
}

#[test]
fn viewer_copies_cells() {
    let v = WireListRowViewer::new(&strings(&["A", "B", "C"]));
    let src = frow(&["1", "2", "3"]);
    let mut dst = frow(&["a", "b"]);
    v.set_cell_value(&src, &mut dst, 1);
    assert_eq!(dst.cells, strings(&["a", "2"]));
    v.set_cell_value(&src, &mut dst, 2);
    assert_eq!(dst.cells, strings(&["a", "2", "3"]));
    let mut short = frow(&[]);
    v.set_cell_value(&frow(&["q"]), &mut short, 2);
    assert_eq!(short.cells, strings(&["", "", ""]));
    let mut keep = frow(&["k", "l"]);
    v.set_cell_value(&frow(&[]), &mut keep, 0);
    assert_eq!(keep.cells, strings(&["k", "l"]));
}

#[test]
fn viewer_rows_and_separators() {
    let v = WireListRowViewer::new(&strings(&["A", "B", "C"]));
    let e = v.new_empty_row();
    assert_eq!(e.cells, strings(&["", "", ""]));
    assert!(!e.meta.group_boundary_below);
    assert!(e.meta.color_code.is_none());
    let mut r = frow(&["1"]);
    r.meta.color_code = Some("RD".to_string());
    let c = v.clone_row(&r);
    assert_eq!(c.cells, r.cells);
    assert_eq!(c.meta.color_code.as_deref(), Some("RD"));
    assert!(!v.row_separator_below(&r));
    v.toggle_separator_below(&mut r);
    assert!(v.row_separator_below(&r));
    v.toggle_separator_below(&mut r);
    assert!(!v.row_separator_below(&r));
    assert_eq!(r.cells, strings(&["1"]));
    assert!(v.row_separator_editable());
}

fn el(id: &str, name: &str) -> ElementName {
    ElementName { id: id.to_string(), name: name.to_string() }
}

#[test]
fn filter_by_name_or_id() {
    let es = vec![el("id1", "J1"), el("id2", "K7"), el("J9", ""), el("x", "J10")];
    assert_eq!(filter_elements("J*", &es, false), vec![0, 3]);
    assert_eq!(filter_elements("J*", &es, true), vec![0, 2, 3]);
    assert_eq!(filter_elements("J?", &es, false), vec![0]);
    assert_eq!(filter_elements("*", &es, false).len(), 4);
    assert!(filter_elements("Z*", &es, true).is_empty());
    assert!(element_passes("id*", &es[1], true));
    assert!(!element_passes("id*", &es[1], false));
}

#[test]
fn element_labels() {
    assert_eq!(element_label(&el("id1", "J1")), "J1");
    assert_eq!(element_label(&el("id1", "")), "id1");
}

#[test]
fn xlsx_header_and_widths() {
    let h = wire_list_header();
    assert_eq!(h.len(), 18);
    assert_eq!(h[0], (0, "Wire Item".to_string()));
    assert_eq!(h[3], (3, "-".to_string()));
    assert_eq!(h[8], (WIRE_NAME, "".to_string()));
    assert_eq!(h[17], (LABEL_TO, "To".to_string()));
    let w = wire_list_column_widths();
    assert_eq!(w.len(), 11);
    assert_eq!(w[0], (0, 150));
    assert_eq!(w[10], (TO_PIN, 35));
}

#[test]
fn xlsx_row_writes() {
    let mut t = FlexibleTable::new(
        [
            wire_list_columns::WIRE_NAME,
            wire_list_columns::MATERIAL,
            wire_list_columns::SPEC,
            wire_list_columns::WIRE_TO_CAVITY,
        ]
        .iter()
        .map(|c| ColumnSpec { id: c.to_string(), display: c.to_string() })
        .collect(),
    );
    t.push_row(strings(&["W1", "TXL", "18", "4"]));
    let w = wire_list_row_writes(&t, 0);
    assert_eq!(w.len(), 18);
    assert_eq!(w[0], (0, "W1".to_string()));
    assert_eq!(w[1], (1, "".to_string()));
    assert_eq!(w[3], (3, "-".to_string()));
    assert_eq!(w[8], (8, "TXL 18".to_string()));
    assert_eq!(w[15], (15, "4".to_string()));
    assert_eq!(w[17], (18, "".to_string()));
    let missing = wire_list_row_writes(&t, 3);
    assert_eq!(missing[8], (8, " ".to_string()));
}

#[test]
fn xlsx_fill_colors() {
    let m = color_map();
    assert_eq!(m.len(), 10);
    assert_eq!(m[0], ("PK".to_string(), 0xffccff));
    assert_eq!(row_fill_color("RD"), Some(0xff9999));
    assert_eq!(row_fill_color("rd"), Some(0xff9999));
    assert_eq!(row_fill_color("Bk"), Some(0xf2f2f2));
    assert_eq!(row_fill_color("XX"), None);
    assert_eq!(row_fill_color(""), None);
}

#[test]
fn xlsx_generic_grid() {
    let mut t = FlexibleTable::new(vec![
        ColumnSpec { id: "a".to_string(), display: "A".to_string() },
        ColumnSpec { id: "b".to_string(), display: "B".to_string() },
    ]);
    t.push_row(strings(&["1", "2", "extra"]));
    t.push_row(strings(&["3"]));
    let g = flexible_table_to_grid(&t);
    assert_eq!(g, vec![strings(&["A", "B"]), strings(&["1", "2"]), strings(&["3", ""])]);
}

#[test]
fn xlsx_sheet_regions() {
    let r = wire_list_sheet_regions(5);
    assert_eq!(r.len(), 11);
    assert_eq!(
        r[0],
        SheetRegion { first_row: 0, first_col: 0, last_row: 5, last_col: TO_PIN, style: RegionStyle::Outline(SheetBorder::Medium) }
    );
    assert_eq!(r[1].last_row, 0);
    assert_eq!(r[2].style, RegionStyle::Bold);
    assert_eq!(r[3].last_col, 0);
    assert_eq!(r[4].last_col, 6);
    assert_eq!(r[5].last_col, 10);
    assert_eq!(r[5].style, RegionStyle::RightBorder(SheetBorder::Dotted));
    assert_eq!((r[7].first_col, r[7].style), (2, RegionStyle::AlignRight));
    assert_eq!((r[10].first_col, r[10].last_col, r[10].last_row), (TO_PIN, TO_PIN, 5));
    assert_eq!(wire_list_sheet_regions(0)[0].last_row, 0);
}

#[test]
fn xlsx_sheet_looks() {
    let mut t = FlexibleTable::new(vec![ColumnSpec { id: "a".to_string(), display: "A".to_string() }]);
    t.rows.push(FlexibleRow {
        cells: strings(&["1"]),
        meta: RowMeta { group_boundary_below: false, color_code: Some("rd".to_string()) },
    });
    t.rows.push(FlexibleRow {
        cells: strings(&["2"]),
        meta: RowMeta { group_boundary_below: true, color_code: Some("ZZ".to_string()) },
    });
    t.rows.push(frow(&["3"]));
    let looks = wire_list_sheet_looks(&t);
    assert_eq!(looks.len(), 4);
    assert!(looks.iter().all(|r| r.len() == 19));
    let h = looks[0][5];
    assert!(h.bold);
    assert_eq!(h.top, Some(SheetBorder::Medium));
    assert_eq!(h.bottom, Some(SheetBorder::Medium));
    assert_eq!(h.fill, CellFill::Unfilled);
    assert!(!looks[0][17].bold);
    assert_eq!(looks[1][3].fill, CellFill::Rgb(0xff9999));
    assert_eq!(looks[1][17].fill, CellFill::Unfilled);
    assert_eq!(looks[2][3].fill, CellFill::White);
    assert_eq!(looks[2][3].bottom, Some(SheetBorder::Medium));
    assert_eq!(looks[2][16].bottom, None);
    assert_eq!(looks[3][0].fill, CellFill::Unfilled);
    assert_eq!(looks[3][0].left, Some(SheetBorder::Medium));
    assert_eq!(looks[3][0].right, Some(SheetBorder::Dotted));
    assert_eq!(looks[3][0].bottom, Some(SheetBorder::Medium));
    assert_eq!(looks[2][0].bottom, Some(SheetBorder::Medium));
    assert_eq!(looks[1][0].bottom, None);
    assert_eq!(looks[1][TO_PIN as usize].right, Some(SheetBorder::Medium));
    assert_eq!(looks[1][1].align, CellAlign::Left);
    assert_eq!(looks[1][2].align, CellAlign::Right);
    assert_eq!(looks[1][13].align, CellAlign::Right);
    assert_eq!(looks[1][15].align, CellAlign::Left);
    assert_eq!(looks[1][8].align, CellAlign::Center);
    assert_eq!(looks[1][6].right, Some(SheetBorder::Dotted));
    assert_eq!(looks[1][10].right, Some(SheetBorder::Dotted));
    assert_eq!(looks[1][9].right, None);
}
