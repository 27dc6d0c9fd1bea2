//! Layout of the wire list spreadsheet: the header row, the cell texts of
//! each wire row, column widths and row fill colours, and the cell grid of a
//! generic table sheet, and how every cell of the wire list sheet looks.

use vstd::prelude::*;
use crate::flexible_table::{cell_by_name, column_displays, table_cell, FlexibleTable, TableData};
use crate::text::{or_empty, strings_view, to_string};
use crate::wire_list_columns;

verus! {

/// Sheet column of the wire item.
pub const WIRE_ITEM: u16 = 0;
/// Sheet column of the short description.
pub const SHORT_DESCR: u16 = 1;
/// Sheet column of the from device.
pub const FROM_DEVICE: u16 = 2;
/// Sheet column of the dash between from device and pin.
pub const FROM_DASH: u16 = 3;
/// Sheet column of the from pin.
pub const FROM_PIN: u16 = 4;
/// Sheet column of the from terminal part number.
pub const FROM_TERM_PARTNO: u16 = 5;
/// Sheet column of the from terminal name.
pub const FROM_TERM_NAME: u16 = 6;
/// Sheet column of the wire part number.
pub const WIRE_PARTNO: u16 = 7;
/// Sheet column of the wire material and spec.
pub const WIRE_NAME: u16 = 8;
/// Sheet column of the wire color.
pub const WIRE_COLOR: u16 = 9;
/// Sheet column of the wire length.
pub const WIRE_LEN: u16 = 10;
/// Sheet column of the to terminal part number.
pub const TO_TERM_PARTNO: u16 = 11;
/// Sheet column of the to terminal name.
pub const TO_TERM_NAME: u16 = 12;
/// Sheet column of the to device.
pub const TO_DEVICE: u16 = 13;
/// Sheet column of the dash between to device and pin.
pub const TO_DASH: u16 = 14;
/// Sheet column of the to pin.
pub const TO_PIN: u16 = 15;
/// Sheet column of the from label.
pub const LABEL_FROM: u16 = 17;
/// Sheet column of the to label.
pub const LABEL_TO: u16 = 18;

/// The view of a list of cell writes (column, text).
pub open spec fn writes_view(v: Seq<(u16, String)>) -> Seq<(u16, Seq<char>)> {
    v.map_values(|w: (u16, String)| (w.0, w.1@))
}

/// The header row writes, in order.
pub open spec fn header_writes() -> Seq<(u16, Seq<char>)> {
    seq![
        (WIRE_ITEM, "Wire Item"@),
        (SHORT_DESCR, "Description"@),
        (FROM_DEVICE, "Device"@),
        (FROM_DASH, "-"@),
        (FROM_PIN, "Pin"@),
        (FROM_TERM_PARTNO, "Termination"@),
        (FROM_TERM_NAME, ""@),
        (WIRE_PARTNO, "Wire"@),
        (WIRE_NAME, ""@),
        (WIRE_COLOR, "Color"@),
        (WIRE_LEN, "Length"@),
        (TO_TERM_PARTNO, "Termination"@),
        (TO_TERM_NAME, ""@),
        (TO_DEVICE, "Device"@),
        (TO_DASH, "-"@),
        (TO_PIN, "Pin"@),
        (LABEL_FROM, "From"@),
        (LABEL_TO, "To"@),
    ]
}

/// The column widths (column, pixels) the header sets, in order.
pub open spec fn column_widths() -> Seq<(u16, u32)> {
    seq![
        (WIRE_ITEM, 150u32),
        (SHORT_DESCR, 150u32),
        (FROM_DASH, 20u32),
        (FROM_PIN, 35u32),
        (FROM_TERM_PARTNO, 125u32),
        (FROM_TERM_NAME, 125u32),
        (WIRE_PARTNO, 125u32),
        (TO_TERM_PARTNO, 125u32),
        (TO_TERM_NAME, 125u32),
        (TO_DASH, 20u32),
        (TO_PIN, 35u32),
    ]
}

fn write(col: u16, text: &str) -> (r: (u16, String))
    ensures
        r.0 == col,
        r.1@ == text@,
{
    (col, to_string(text))
}

/// The header row of the wire list sheet, as (column, text) writes.
pub fn wire_list_header() -> (r: Vec<(u16, String)>)
    ensures
        writes_view(r@) == header_writes(),
{
    let mut r: Vec<(u16, String)> = Vec::new();
    r.push(write(WIRE_ITEM, "Wire Item"));
    r.push(write(SHORT_DESCR, "Description"));
    r.push(write(FROM_DEVICE, "Device"));
    r.push(write(FROM_DASH, "-"));
    r.push(write(FROM_PIN, "Pin"));
    r.push(write(FROM_TERM_PARTNO, "Termination"));
    r.push(write(FROM_TERM_NAME, ""));
    r.push(write(WIRE_PARTNO, "Wire"));
    r.push(write(WIRE_NAME, ""));
    r.push(write(WIRE_COLOR, "Color"));
    r.push(write(WIRE_LEN, "Length"));
    r.push(write(TO_TERM_PARTNO, "Termination"));
    r.push(write(TO_TERM_NAME, ""));
    r.push(write(TO_DEVICE, "Device"));
    r.push(write(TO_DASH, "-"));
    r.push(write(TO_PIN, "Pin"));
    r.push(write(LABEL_FROM, "From"));
    r.push(write(LABEL_TO, "To"));
    assert(writes_view(r@) =~= header_writes());
    r
}

/// The column widths of the wire list sheet, as (column, pixels).
pub fn wire_list_column_widths() -> (r: Vec<(u16, u32)>)
    ensures
        r@ == column_widths(),
{
    let mut r: Vec<(u16, u32)> = Vec::new();
    r.push((WIRE_ITEM, 150));
    r.push((SHORT_DESCR, 150));
    r.push((FROM_DASH, 20));
    r.push((FROM_PIN, 35));
    r.push((FROM_TERM_PARTNO, 125));
    r.push((FROM_TERM_NAME, 125));
    r.push((WIRE_PARTNO, 125));
    r.push((TO_TERM_PARTNO, 125));
    r.push((TO_TERM_NAME, 125));
    r.push((TO_DASH, 20));
    r.push((TO_PIN, 35));
    assert(r@ =~= column_widths());
    r
}

/// The text of a row's cell in column `name`, or empty.
pub open spec fn text_of(ids: Seq<Seq<char>>, cells: Seq<Seq<Seq<char>>>, row: int, name: Seq<char>) -> Seq<
    char,
> {
    or_empty(cell_by_name(ids, cells, row, name))
}

/// The writes of wire list row `row`, in order: wire item, description,
/// from device, dash, from pin, from terminal part number and name, wire
/// part number, `material spec`, color description, length, to terminal part
/// number and name, to device, dash, to pin, from and to labels.
pub open spec fn row_writes(ids: Seq<Seq<char>>, cells: Seq<Seq<Seq<char>>>, row: int) -> Seq<
    (u16, Seq<char>),
> {
    seq![
        (WIRE_ITEM, text_of(ids, cells, row, wire_list_columns::WIRE_NAME@)),
        (SHORT_DESCR, text_of(ids, cells, row, wire_list_columns::SHORT_DESCRIPTION@)),
        (FROM_DEVICE, text_of(ids, cells, row, wire_list_columns::WIRE_FROM_PINLIST@)),
        (FROM_DASH, "-"@),
        (FROM_PIN, text_of(ids, cells, row, wire_list_columns::WIRE_FROM_CAVITY@)),
        (FROM_TERM_PARTNO, text_of(ids, cells, row, wire_list_columns::FROM_TERM_PARTNO@)),
        (FROM_TERM_NAME, text_of(ids, cells, row, wire_list_columns::FROM_TERM_NAME@)),
        (WIRE_PARTNO, text_of(ids, cells, row, wire_list_columns::CUSTOMER_PART_NUMBER@)),
        (
            WIRE_NAME,
            text_of(ids, cells, row, wire_list_columns::MATERIAL@) + " "@ + text_of(
                ids,
                cells,
                row,
                wire_list_columns::SPEC@,
            ),
        ),
        (WIRE_COLOR, text_of(ids, cells, row, wire_list_columns::COLOR_DESCRIPTION@)),
        (WIRE_LEN, text_of(ids, cells, row, wire_list_columns::MODIFIED_LENGTH@)),
        (TO_TERM_PARTNO, text_of(ids, cells, row, wire_list_columns::TO_TERM_PARTNO@)),
        (TO_TERM_NAME, text_of(ids, cells, row, wire_list_columns::TO_TERM_NAME@)),
        (TO_DEVICE, text_of(ids, cells, row, wire_list_columns::WIRE_TO_PINLIST@)),
        (TO_DASH, "-"@),
        (TO_PIN, text_of(ids, cells, row, wire_list_columns::WIRE_TO_CAVITY@)),
        (LABEL_FROM, text_of(ids, cells, row, wire_list_columns::FROM_LABEL@)),
        (LABEL_TO, text_of(ids, cells, row, wire_list_columns::TO_LABEL@)),
    ]
}

fn cell_write<T: TableData>(data: &T, row: usize, col: u16, name: &str) -> (r: (u16, String))
    ensures
        r.0 == col,
        r.1@ == text_of(data.column_ids_view(), data.cells_view(), row as int, name@),
{
    match data.get_by_name(row, name) {
        Some(s) => (col, to_string(s)),
        None => (col, String::new()),
    }
}

/// The (column, text) writes of wire list row `row` on the sheet.
pub fn wire_list_row_writes<T: TableData>(data: &T, row: usize) -> (r: Vec<(u16, String)>)
    ensures
        writes_view(r@) == row_writes(data.column_ids_view(), data.cells_view(), row as int),
{
    let mut mat_spec = cell_write(data, row, WIRE_NAME, wire_list_columns::MATERIAL);
    mat_spec.1.append(" ");
    let spec = cell_write(data, row, WIRE_NAME, wire_list_columns::SPEC);
    mat_spec.1.append(spec.1.as_str());
    let mut r: Vec<(u16, String)> = Vec::new();
    r.push(cell_write(data, row, WIRE_ITEM, wire_list_columns::WIRE_NAME));
    r.push(cell_write(data, row, SHORT_DESCR, wire_list_columns::SHORT_DESCRIPTION));
    r.push(cell_write(data, row, FROM_DEVICE, wire_list_columns::WIRE_FROM_PINLIST));
    r.push(write(FROM_DASH, "-"));
    r.push(cell_write(data, row, FROM_PIN, wire_list_columns::WIRE_FROM_CAVITY));
    r.push(cell_write(data, row, FROM_TERM_PARTNO, wire_list_columns::FROM_TERM_PARTNO));
    r.push(cell_write(data, row, FROM_TERM_NAME, wire_list_columns::FROM_TERM_NAME));
    r.push(cell_write(data, row, WIRE_PARTNO, wire_list_columns::CUSTOMER_PART_NUMBER));
    r.push(mat_spec);
    r.push(cell_write(data, row, WIRE_COLOR, wire_list_columns::COLOR_DESCRIPTION));
    r.push(cell_write(data, row, WIRE_LEN, wire_list_columns::MODIFIED_LENGTH));
    r.push(cell_write(data, row, TO_TERM_PARTNO, wire_list_columns::TO_TERM_PARTNO));
    r.push(cell_write(data, row, TO_TERM_NAME, wire_list_columns::TO_TERM_NAME));
    r.push(cell_write(data, row, TO_DEVICE, wire_list_columns::WIRE_TO_PINLIST));
    r.push(write(TO_DASH, "-"));
    r.push(cell_write(data, row, TO_PIN, wire_list_columns::WIRE_TO_CAVITY));
    r.push(cell_write(data, row, LABEL_FROM, wire_list_columns::FROM_LABEL));
    r.push(cell_write(data, row, LABEL_TO, wire_list_columns::TO_LABEL));
    assert(writes_view(r@) =~= row_writes(data.column_ids_view(), data.cells_view(), row as int));
    r
}

/// What `str::to_uppercase` makes of a text.
pub uninterp spec fn uppercased(s: Seq<char>) -> Seq<char>;

/// `str::to_uppercase`. Trusted: the result is named `uppercased` of the
/// argument; the Unicode case mapping itself is left unsaid.
#[verifier::external_body]
fn to_uppercase(s: &str) -> (r: String)
    ensures
        r@ == uppercased(s@),
{
    s.to_uppercase()
}

/// The row fill colors (RGB) by wire color code.
pub open spec fn fill_colors() -> Seq<(Seq<char>, u32)> {
    seq![
        ("PK"@, 0xffccffu32),
        ("RD"@, 0xff9999u32),
        ("BN"@, 0xd3a77bu32),
        ("OR"@, 0xfff2ccu32),
        ("BL"@, 0xddebf7u32),
        ("YL"@, 0xffffd1u32),
        ("TN"@, 0xead5c0u32),
        ("BK"@, 0xf2f2f2u32),
        ("GN"@, 0xc6e0b4u32),
        ("PR"@, 0xbc9dd4u32),
    ]
}

/// The row fill colors by wire color code: 5 V pink, 12 V red, 24 V brown,
/// 48 V orange, ground blue, analog and battery yellow, 24 V outputs tan,
/// 24 V inputs black (light grey), sinking outputs green, purple.
pub fn color_map() -> (r: Vec<(String, u32)>)
    ensures
        r@.map_values(|e: (String, u32)| (e.0@, e.1)) == fill_colors(),
{
    let mut r: Vec<(String, u32)> = Vec::new();
    r.push((to_string("PK"), 0xffcc_ff));
    r.push((to_string("RD"), 0xff99_99));
    r.push((to_string("BN"), 0xd3a7_7b));
    r.push((to_string("OR"), 0xfff2_cc));
    r.push((to_string("BL"), 0xddeb_f7));
    r.push((to_string("YL"), 0xffff_d1));
    r.push((to_string("TN"), 0xead5_c0));
    r.push((to_string("BK"), 0xf2f2_f2));
    r.push((to_string("GN"), 0xc6e0_b4));
    r.push((to_string("PR"), 0xbc9d_d4));
    assert(r@.map_values(|e: (String, u32)| (e.0@, e.1)) =~= fill_colors());
    r
}

/// The fill color of a code in a color table: that of its first entry.
pub open spec fn color_lookup(table: Seq<(Seq<char>, u32)>, code: Seq<char>) -> Option<u32>
    decreases table.len(),
{
    if table.len() == 0 {
        None
    } else if table[0].0 == code {
        Some(table[0].1)
    } else {
        color_lookup(table.drop_first(), code)
    }
}

/// The fill color of a row with wire color code `code`: the color of the
/// code in upper case, if the color table has it (rows with other codes keep
/// the default white fill).
pub fn row_fill_color(code: &str) -> (r: Option<u32>)
    ensures
        r == color_lookup(fill_colors(), uppercased(code@)),
{
    let upper = to_uppercase(code);
    let table = color_map();
    let ghost tv = table@.map_values(|e: (String, u32)| (e.0@, e.1));
    let mut i: usize = 0;
    assert(tv.skip(0) =~= tv);
    while i < table.len()
        invariant
            i <= table@.len(),
            tv == table@.map_values(|e: (String, u32)| (e.0@, e.1)),
            tv == fill_colors(),
            upper@ == uppercased(code@),
            color_lookup(tv, upper@) == color_lookup(tv.skip(i as int), upper@),
        decreases table@.len() - i,
    {
        assert(tv.skip(i as int)[0] == tv[i as int]);
        assert(tv[i as int] == (table@[i as int].0@, table@[i as int].1));
        if crate::text::str_eq(table[i].0.as_str(), upper.as_str()) {
            assert(tv.skip(i as int).len() > 0 && tv.skip(i as int)[0].0 == upper@);
            assert(color_lookup(tv.skip(i as int), upper@) == Some(table@[i as int].1));
            return Some(table[i].1);
        }
        assert(tv.skip(i as int).drop_first() =~= tv.skip(i + 1));
        i = i + 1;
    }
    None
}

/// The cell grid of a generic table sheet: the header row of display names,
/// then for each row the text of each column's cell, or empty.
pub open spec fn generic_grid(t: FlexibleTable) -> Seq<Seq<Seq<char>>> {
    seq![column_displays(t.columns@)] + Seq::new(
        t.cells_view().len(),
        |row: int|
            Seq::new(
                t.columns@.len(),
                |col: int| or_empty(table_cell(t.cells_view(), row, col)),
            ),
    )
}

/// The cell grid of a generic table sheet (header, then data rows), as the
/// generic spreadsheet export writes it.
pub fn flexible_table_to_grid(table: &FlexibleTable) -> (r: Vec<Vec<String>>)
    ensures
        r@.map_values(|row: Vec<String>| strings_view(row@)) == generic_grid(*table),
{
    let ghost g = generic_grid(*table);
    let mut header: Vec<String> = Vec::new();
    let mut c: usize = 0;
    while c < table.columns.len()
        invariant
            c <= table.columns@.len(),
            strings_view(header@) == column_displays(table.columns@).take(c as int),
        decreases table.columns@.len() - c,
    {
        let ghost before = header@;
        header.push(table.columns[c].display.clone());
        assert(strings_view(header@) =~= strings_view(before).push(table.columns@[c as int].display@));
        assert(column_displays(table.columns@).take(c + 1) =~= column_displays(table.columns@).take(
            c as int,
        ).push(table.columns@[c as int].display@));
        c = c + 1;
    }
    assert(column_displays(table.columns@).take(table.columns@.len() as int) =~= column_displays(
        table.columns@,
    ));
    let mut r: Vec<Vec<String>> = Vec::new();
    r.push(header);
    let n = table.row_count();
    let m = table.column_count();
    let mut row: usize = 0;
    assert(r@.map_values(|row: Vec<String>| strings_view(row@)) =~= g.take(1));
    while row < n
        invariant
            n == table.cells_view().len(),
            m == table.columns@.len(),
            row <= n,
            g == generic_grid(*table),
            r@.map_values(|row: Vec<String>| strings_view(row@)) == g.take(row + 1),
        decreases n - row,
    {
        let mut cells: Vec<String> = Vec::new();
        let mut col: usize = 0;
        while col < m
            invariant
                col <= m,
                m == table.columns@.len(),
                row < n,
                n == table.cells_view().len(),
                g == generic_grid(*table),
                strings_view(cells@) == g[row + 1].take(col as int),
            decreases m - col,
        {
            let value = match table.get(row, col) {
                Some(s) => to_string(s),
                None => String::new(),
            };
            assert(g[row + 1] == Seq::new(
                m as nat,
                |c: int| or_empty(table_cell(table.cells_view(), row as int, c)),
            ));
            assert(value@ == g[row + 1][col as int]);
            let ghost before = cells@;
            cells.push(value);
            assert(strings_view(cells@) =~= strings_view(before).push(value@));
            assert(strings_view(cells@) =~= g[row + 1].take(col + 1));
            col = col + 1;
        }
        assert(g[row + 1].take(m as int) =~= g[row + 1]);
        let ghost before = r@;
        r.push(cells);
        assert(r@.map_values(|row: Vec<String>| strings_view(row@)) =~= before.map_values(
            |row: Vec<String>| strings_view(row@),
        ).push(strings_view(cells@)));
        assert(g.take(row + 2) =~= g.take(row + 1).push(g[row + 1]));
        row = row + 1;
    }
    assert(g.take(n + 1) =~= g);
    r
}

/// A border line style of the wire list sheet.
#[derive(Clone, Copy, Debug, PartialEq, Eq, Structural)]
pub enum SheetBorder {
    Medium,
    Dotted,
}

/// A format applied to a rectangular region of the wire list sheet.
#[derive(Clone, Copy, Debug, PartialEq, Eq, Structural)]
pub enum RegionStyle {
    /// A border around the region.
    Outline(SheetBorder),
    /// A border on the right of the region.
    RightBorder(SheetBorder),
    /// Bold text.
    Bold,
    /// Text aligned left.
    AlignLeft,
    /// Text aligned right.
    AlignRight,
}

/// A rectangular region of the sheet (rows and columns inclusive) and the
/// format it gets.
#[derive(Clone, Copy, Debug, PartialEq, Eq, Structural)]
pub struct SheetRegion {
    pub first_row: u32,
    pub first_col: u16,
    pub last_row: u32,
    pub last_col: u16,
    pub style: RegionStyle,
}

/// The region from the header down to row `last_row`, columns `first` to
/// `last`.
pub open spec fn region_to(last_row: u32, first: u16, last: u16, style: RegionStyle) -> SheetRegion {
    SheetRegion { first_row: 0, first_col: first, last_row, last_col: last, style }
}

/// The formats that finish a wire list sheet whose last row is `last_row`,
/// in the order they are applied: a medium outline around the wire columns,
/// a medium outline around the header and bold header text, dotted
/// separators right of the wire item, the from end and the wire length, and
/// the alignment of the description (left), the devices (right) and the pins
/// (left).
pub open spec fn sheet_regions(last_row: u32) -> Seq<SheetRegion> {
    seq![
        region_to(last_row, 0, TO_PIN, RegionStyle::Outline(SheetBorder::Medium)),
        region_to(0, 0, TO_PIN, RegionStyle::Outline(SheetBorder::Medium)),
        region_to(0, 0, TO_PIN, RegionStyle::Bold),
        region_to(last_row, 0, WIRE_ITEM, RegionStyle::RightBorder(SheetBorder::Dotted)),
        region_to(last_row, 0, FROM_TERM_NAME, RegionStyle::RightBorder(SheetBorder::Dotted)),
        region_to(last_row, 0, WIRE_LEN, RegionStyle::RightBorder(SheetBorder::Dotted)),
        region_to(last_row, SHORT_DESCR, SHORT_DESCR, RegionStyle::AlignLeft),
        region_to(last_row, FROM_DEVICE, FROM_DEVICE, RegionStyle::AlignRight),
        region_to(last_row, FROM_PIN, FROM_PIN, RegionStyle::AlignLeft),
        region_to(last_row, TO_DEVICE, TO_DEVICE, RegionStyle::AlignRight),
        region_to(last_row, TO_PIN, TO_PIN, RegionStyle::AlignLeft),
    ]
}

fn region(last_row: u32, first: u16, last: u16, style: RegionStyle) -> (r: SheetRegion)
    ensures
        r == region_to(last_row, first, last, style),
{
    SheetRegion { first_row: 0, first_col: first, last_row, last_col: last, style }
}

/// The formats that finish a wire list sheet of `row_count` wire rows below
/// the header row, in the order they are applied.
pub fn wire_list_sheet_regions(row_count: u32) -> (r: Vec<SheetRegion>)
    ensures
        r@ == sheet_regions(row_count),
{
    let last = row_count;
    let mut r: Vec<SheetRegion> = Vec::new();
    r.push(region(last, 0, TO_PIN, RegionStyle::Outline(SheetBorder::Medium)));
    r.push(region(0, 0, TO_PIN, RegionStyle::Outline(SheetBorder::Medium)));
    r.push(region(0, 0, TO_PIN, RegionStyle::Bold));
    r.push(region(last, 0, WIRE_ITEM, RegionStyle::RightBorder(SheetBorder::Dotted)));
    r.push(region(last, 0, FROM_TERM_NAME, RegionStyle::RightBorder(SheetBorder::Dotted)));
    r.push(region(last, 0, WIRE_LEN, RegionStyle::RightBorder(SheetBorder::Dotted)));
    r.push(region(last, SHORT_DESCR, SHORT_DESCR, RegionStyle::AlignLeft));
    r.push(region(last, FROM_DEVICE, FROM_DEVICE, RegionStyle::AlignRight));
    r.push(region(last, FROM_PIN, FROM_PIN, RegionStyle::AlignLeft));
    r.push(region(last, TO_DEVICE, TO_DEVICE, RegionStyle::AlignRight));
    r.push(region(last, TO_PIN, TO_PIN, RegionStyle::AlignLeft));
    assert(r@ =~= sheet_regions(row_count));
    r
}

/// Horizontal alignment of a cell's text.
#[derive(Clone, Copy, Debug, PartialEq, Eq, Structural)]
pub enum CellAlign {
    Center,
    Left,
    Right,
}

/// The fill of a cell: none, white (a color code the table lacks), or an
/// RGB color.
#[derive(Clone, Copy, Debug, PartialEq, Eq, Structural)]
pub enum CellFill {
    Unfilled,
    White,
    Rgb(u32),
}

/// How a cell of the wire list sheet looks: bold, alignment, the border on
/// each side, and fill.
#[derive(Clone, Copy, Debug, PartialEq, Eq, Structural)]
pub struct CellLook {
    pub bold: bool,
    pub align: CellAlign,
    pub top: Option<SheetBorder>,
    pub bottom: Option<SheetBorder>,
    pub left: Option<SheetBorder>,
    pub right: Option<SheetBorder>,
    pub fill: CellFill,
}

/// A centered cell with no borders and no fill.
pub open spec fn plain_look() -> CellLook {
    CellLook {
        bold: false,
        align: CellAlign::Center,
        top: None,
        bottom: None,
        left: None,
        right: None,
        fill: CellFill::Unfilled,
    }
}

/// The fill of a wire row with color code `code`: none without a code, the
/// code's color (in upper case) where the color table has it, else white.
pub open spec fn row_fill(code: Option<Seq<char>>) -> CellFill {
    match code {
        None => CellFill::Unfilled,
        Some(c) => match color_lookup(fill_colors(), uppercased(c)) {
            Some(v) => CellFill::Rgb(v),
            None => CellFill::White,
        },
    }
}

/// How a cell in column `col` of a wire row with metadata `meta` looks before
/// the sheet is finished: over the wire columns (up to the to pin) the row's
/// fill, and a medium bottom border below the last wire of a group.
pub open spec fn row_look(meta: (bool, Option<Seq<char>>), col: int) -> CellLook {
    if col <= TO_PIN {
        CellLook {
            bold: false,
            align: CellAlign::Center,
            top: None,
            bottom: if meta.0 {
                Some(SheetBorder::Medium)
            } else {
                None
            },
            left: None,
            right: None,
            fill: row_fill(meta.1),
        }
    } else {
        plain_look()
    }
}

/// Whether cell (`row`, `col`) lies in region `g`.
pub open spec fn in_region(g: SheetRegion, row: int, col: int) -> bool {
    g.first_row <= row <= g.last_row && g.first_col <= col <= g.last_col
}

/// A cell's look after region `g`'s format: an outline sets the border on
/// each side of the cell that is on the region's edge, a right border that
/// on cells of the region's last column; bold and alignments set the text.
/// Cells outside the region keep their look.
pub open spec fn styled(g: SheetRegion, row: int, col: int, l: CellLook) -> CellLook {
    if !in_region(g, row, col) {
        l
    } else {
        match g.style {
            RegionStyle::Outline(b) => CellLook {
                top: if row == g.first_row {
                    Some(b)
                } else {
                    l.top
                },
                bottom: if row == g.last_row {
                    Some(b)
                } else {
                    l.bottom
                },
                left: if col == g.first_col {
                    Some(b)
                } else {
                    l.left
                },
                right: if col == g.last_col {
                    Some(b)
                } else {
                    l.right
                },
                ..l
            },
            RegionStyle::RightBorder(b) => if col == g.last_col {
                CellLook { right: Some(b), ..l }
            } else {
                l
            },
            RegionStyle::Bold => CellLook { bold: true, ..l },
            RegionStyle::AlignLeft => CellLook { align: CellAlign::Left, ..l },
            RegionStyle::AlignRight => CellLook { align: CellAlign::Right, ..l },
        }
    }
}

/// A cell's look after the formats of `rs` in order.
pub open spec fn apply_regions(rs: Seq<SheetRegion>, row: int, col: int, l: CellLook) -> CellLook
    decreases rs.len(),
{
    if rs.len() == 0 {
        l
    } else {
        styled(rs.last(), row, col, apply_regions(rs.drop_last(), row, col, l))
    }
}

/// How cell (`row`, `col`) of the finished wire list sheet looks, for wire
/// rows with metadata `metas`: row 0 is the header, row `i + 1` wire `i`;
/// the row's own look, then the finishing formats in order.
pub open spec fn sheet_look(metas: Seq<(bool, Option<Seq<char>>)>, row: int, col: int) -> CellLook {
    let base = if row == 0 {
        plain_look()
    } else {
        row_look(metas[row - 1], col)
    };
    apply_regions(sheet_regions(metas.len() as u32), row, col, base)
}

fn styled_exec(g: &SheetRegion, row: u32, col: u16, l: CellLook) -> (o: CellLook)
    ensures
        o == styled(*g, row as int, col as int, l),
{
    if !(g.first_row <= row && row <= g.last_row && g.first_col <= col && col <= g.last_col) {
        return l;
    }
    match g.style {
        RegionStyle::Outline(b) => CellLook {
            top: if row == g.first_row {
                Some(b)
            } else {
                l.top
            },
            bottom: if row == g.last_row {
                Some(b)
            } else {
                l.bottom
            },
            left: if col == g.first_col {
                Some(b)
            } else {
                l.left
            },
            right: if col == g.last_col {
                Some(b)
            } else {
                l.right
            },
            ..l
        },
        RegionStyle::RightBorder(b) => if col == g.last_col {
            CellLook { right: Some(b), ..l }
        } else {
            l
        },
        RegionStyle::Bold => CellLook { bold: true, ..l },
        RegionStyle::AlignLeft => CellLook { align: CellAlign::Left, ..l },
        RegionStyle::AlignRight => CellLook { align: CellAlign::Right, ..l },
    }
}

fn plain() -> (l: CellLook)
    ensures
        l == plain_look(),
{
    CellLook {
        bold: false,
        align: CellAlign::Center,
        top: None,
        bottom: None,
        left: None,
        right: None,
        fill: CellFill::Unfilled,
    }
}

fn row_fill_exec(code: &Option<String>) -> (f: CellFill)
    ensures
        f == row_fill(crate::text::opt_string_view(*code)),
{
    match code {
        None => CellFill::Unfilled,
        Some(c) => match row_fill_color(c.as_str()) {
            Some(v) => CellFill::Rgb(v),
            None => CellFill::White,
        },
    }
}

/// How every cell of the wire list sheet of `data` looks, row by row (the
/// header row, then one row per wire) and column by column up to the to
/// label column: each wire row's fill and group border over the wire
/// columns, then the sheet's outline, header, separators and alignments.
pub fn wire_list_sheet_looks(data: &FlexibleTable) -> (r: Vec<Vec<CellLook>>)
    requires
        data.rows@.len() < u32::MAX,
    ensures
        r@.len() == data.rows@.len() + 1,
        forall|i: int| 0 <= i < r@.len() ==> #[trigger] r@[i]@.len() == LABEL_TO + 1,
        forall|i: int, j: int|
            0 <= i < r@.len() && 0 <= j <= LABEL_TO ==> #[trigger] r@[i]@[j] == sheet_look(
                data.metas_view(),
                i,
                j,
            ),
{
    let n = data.rows.len();
    let ghost metas = data.metas_view();
    let regions = wire_list_sheet_regions(n as u32);
    let mut r: Vec<Vec<CellLook>> = Vec::new();
    let mut row: usize = 0;
    while row <= n
        invariant
            n == data.rows@.len(),
            n < u32::MAX,
            metas == data.metas_view(),
            metas.len() == n,
            regions@ == sheet_regions(n as u32),
            row <= n + 1,
            r@.len() == row,
            forall|i: int| 0 <= i < r@.len() ==> #[trigger] r@[i]@.len() == LABEL_TO + 1,
            forall|i: int, j: int|
                0 <= i < r@.len() && 0 <= j <= LABEL_TO ==> #[trigger] r@[i]@[j] == sheet_look(
                    metas,
                    i,
                    j,
                ),
        decreases n + 1 - row,
    {
        let mut meta_fill = CellFill::Unfilled;
        let mut boundary = false;
        if row > 0 {
            let m = data.row_meta(row - 1);
            match m {
                Some(m) => {
                    meta_fill = row_fill_exec(&m.color_code);
                    boundary = m.group_boundary_below;
                },
                None => {},
            }
        }
        let mut cells: Vec<CellLook> = Vec::new();
        let mut col: u16 = 0;
        while col <= LABEL_TO
            invariant
                row <= n,
                n < u32::MAX,
                metas.len() == n,
                regions@ == sheet_regions(n as u32),
                row > 0 ==> meta_fill == row_fill(metas[row - 1].1) && boundary == metas[row - 1].0,
                col <= LABEL_TO + 1,
                cells@.len() == col,
                forall|j: int| 0 <= j < col ==> #[trigger] cells@[j] == sheet_look(metas, row as int, j),
            decreases LABEL_TO + 1 - col,
        {
            let base = if row > 0 && col <= TO_PIN {
                CellLook {
                    bold: false,
                    align: CellAlign::Center,
                    top: None,
                    bottom: if boundary {
                        Some(SheetBorder::Medium)
                    } else {
                        None
                    },
                    left: None,
                    right: None,
                    fill: meta_fill,
                }
            } else {
                plain()
            };
            let ghost b0 = if row == 0 {
                plain_look()
            } else {
                row_look(metas[row - 1], col as int)
            };
            assert(base == b0);
            let mut look = base;
            let mut k: usize = 0;
            while k < regions.len()
                invariant
                    k <= regions@.len(),
                    row <= n,
                    n < u32::MAX,
                    look == apply_regions(regions@.take(k as int), row as int, col as int, b0),
                decreases regions@.len() - k,
            {
                assert(regions@.take(k + 1).drop_last() =~= regions@.take(k as int));
                assert(regions@.take(k + 1).last() == regions@[k as int]);
                look = styled_exec(&regions[k], row as u32, col, look);
                k = k + 1;
            }
            assert(regions@.take(regions@.len() as int) =~= regions@);
            cells.push(look);
            col = col + 1;
        }
        r.push(cells);
        row = row + 1;
    }
    r
}

/// Each wire row writes the same sheet columns as the header, in the same
/// order, and puts the row's ends where the header names them: the
/// `WIRE_FROM_PINLIST` cell under the from "Device", the `WIRE_FROM_CAVITY`
/// cell under the from "Pin", the `WIRE_TO_PINLIST` and `WIRE_TO_CAVITY`
/// cells under the to "Device" and "Pin", and the `WIRE_NAME` cell under
/// "Wire Item" (each empty where the row has no such cell).
pub proof fn lemma_row_writes_ends(ids: Seq<Seq<char>>, cells: Seq<Seq<Seq<char>>>, row: int)
    ensures
        row_writes(ids, cells, row).map_values(|w: (u16, Seq<char>)| w.0) == header_writes().map_values(
            |w: (u16, Seq<char>)| w.0,
        ),
        header_writes()[0] == (WIRE_ITEM, "Wire Item"@),
        header_writes()[2] == (FROM_DEVICE, "Device"@),
        header_writes()[4] == (FROM_PIN, "Pin"@),
        header_writes()[13] == (TO_DEVICE, "Device"@),
        header_writes()[15] == (TO_PIN, "Pin"@),
        row_writes(ids, cells, row)[0] == (
            WIRE_ITEM,
            or_empty(cell_by_name(ids, cells, row, wire_list_columns::WIRE_NAME@)),
        ),
        row_writes(ids, cells, row)[2] == (
            FROM_DEVICE,
            or_empty(cell_by_name(ids, cells, row, wire_list_columns::WIRE_FROM_PINLIST@)),
        ),
        row_writes(ids, cells, row)[4] == (
            FROM_PIN,
            or_empty(cell_by_name(ids, cells, row, wire_list_columns::WIRE_FROM_CAVITY@)),
        ),
        row_writes(ids, cells, row)[13] == (
            TO_DEVICE,
            or_empty(cell_by_name(ids, cells, row, wire_list_columns::WIRE_TO_PINLIST@)),
        ),
        row_writes(ids, cells, row)[15] == (
            TO_PIN,
            or_empty(cell_by_name(ids, cells, row, wire_list_columns::WIRE_TO_CAVITY@)),
        ),
{
    assert(row_writes(ids, cells, row).map_values(|w: (u16, Seq<char>)| w.0) =~= header_writes().map_values(
        |w: (u16, Seq<char>)| w.0,
    ));
}

} // verus!
