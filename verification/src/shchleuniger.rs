//! Records of the ASCII import file of the Schleuniger wire cutting machine,
//! built from a wire list table.

use vstd::prelude::*;
use crate::flexible_table::{cell_by_name, TableData};
use crate::text::{decimal, or_empty, records_view, strings_view, to_string, usize_to_decimal};
use crate::wire_list_columns;

verus! {

/// The marker text printed on both wire ends.
pub const MARKER_TEXT: &'static str = "\\#C@7\\&n\\&@7";

/// The header records of the import file: import type, units, area, and the
/// column names.
pub open spec fn schleuniger_header() -> Seq<Seq<Seq<char>>> {
    seq![
        seq!["Import"@, "ASCII"@],
        seq!["Units"@, "inch"@],
        seq!["Area"@, "TT"@],
        seq![
            "Name"@,
            "Part"@,
            "Length"@,
            "Style"@,
            "Stripping type"@,
            "Right strip"@,
            "Left strip"@,
            "Partial strip %"@,
            "Marker left text"@,
            "Marker left position"@,
            "Marker right text"@,
            "Marker right position"@,
            "Autorotation"@,
        ],
    ]
}

/// The text of a row's cell in column `name`, or empty.
pub open spec fn field(ids: Seq<Seq<char>>, cells: Seq<Seq<Seq<char>>>, row: int, name: Seq<char>) -> Seq<
    char,
> {
    or_empty(cell_by_name(ids, cells, row, name))
}

/// The article name of a row: `from_device-from_cavity/to_device-to_cavity`.
pub open spec fn article_name(ids: Seq<Seq<char>>, cells: Seq<Seq<Seq<char>>>, row: int) -> Seq<
    char,
> {
    field(ids, cells, row, wire_list_columns::WIRE_FROM_PINLIST@) + seq!['-'] + field(
        ids,
        cells,
        row,
        wire_list_columns::WIRE_FROM_CAVITY@,
    ) + seq!['/'] + field(ids, cells, row, wire_list_columns::WIRE_TO_PINLIST@) + seq!['-']
        + field(ids, cells, row, wire_list_columns::WIRE_TO_CAVITY@)
}

/// The record of wire list row `row` (before label centering): name, part
/// number (row + 1), length, style (processing), stripping type 9, right and
/// left strip lengths, 50% partial strip, marker texts and positions, and
/// autorotation.
pub open spec fn schleuniger_record(
    ids: Seq<Seq<char>>,
    cells: Seq<Seq<Seq<char>>>,
    row: int,
    left_position: Seq<char>,
    right_position: Seq<char>,
) -> Seq<Seq<char>> {
    seq![
        article_name(ids, cells, row),
        decimal((row + 1) as nat),
        field(ids, cells, row, wire_list_columns::MODIFIED_LENGTH@),
        field(ids, cells, row, wire_list_columns::PROCESSING@),
        "9"@,
        field(ids, cells, row, wire_list_columns::WIRE_TERMINAL_STRIP_LEN1@),
        field(ids, cells, row, wire_list_columns::WIRE_TERMINAL_STRIP_LEN2@),
        "50%"@,
        MARKER_TEXT@,
        left_position,
        MARKER_TEXT@,
        right_position,
        "X"@,
    ]
}

/// All records of the import file for a wire list: the header records, then
/// one record per row.
pub open spec fn schleuniger_records(
    ids: Seq<Seq<char>>,
    cells: Seq<Seq<Seq<char>>>,
    left_position: Seq<char>,
    right_position: Seq<char>,
) -> Seq<Seq<Seq<char>>> {
    schleuniger_header() + Seq::new(
        cells.len(),
        |row: int| schleuniger_record(ids, cells, row, left_position, right_position),
    )
}

fn record2(a: &str, b: &str) -> (r: Vec<String>)
    ensures
        strings_view(r@) == seq![a@, b@],
{
    let mut r: Vec<String> = Vec::new();
    r.push(to_string(a));
    r.push(to_string(b));
    assert(strings_view(r@) =~= seq![a@, b@]);
    r
}

fn header_records() -> (r: Vec<Vec<String>>)
    ensures
        records_view(r@) == schleuniger_header(),
{
    let mut r: Vec<Vec<String>> = Vec::new();
    r.push(record2("Import", "ASCII"));
    r.push(record2("Units", "inch"));
    r.push(record2("Area", "TT"));
    let mut h: Vec<String> = Vec::new();
    h.push(to_string("Name"));
    h.push(to_string("Part"));
    h.push(to_string("Length"));
    h.push(to_string("Style"));
    h.push(to_string("Stripping type"));
    h.push(to_string("Right strip"));
    h.push(to_string("Left strip"));
    h.push(to_string("Partial strip %"));
    h.push(to_string("Marker left text"));
    h.push(to_string("Marker left position"));
    h.push(to_string("Marker right text"));
    h.push(to_string("Marker right position"));
    h.push(to_string("Autorotation"));
    assert(strings_view(h@) =~= schleuniger_header()[3]);
    r.push(h);
    assert(records_view(r@) =~= schleuniger_header());
    r
}

fn field_text<T: TableData>(wire_list: &T, row: usize, name: &str) -> (r: String)
    ensures
        r@ == field(wire_list.column_ids_view(), wire_list.cells_view(), row as int, name@),
{
    match wire_list.get_by_name(row, name) {
        Some(s) => to_string(s),
        None => String::new(),
    }
}

fn schleuniger_row<T: TableData>(
    wire_list: &T,
    row: usize,
    left_position: &str,
    right_position: &str,
) -> (r: Vec<String>)
    requires
        row < wire_list.cells_view().len(),
        row < usize::MAX,
    ensures
        strings_view(r@) == schleuniger_record(
            wire_list.column_ids_view(),
            wire_list.cells_view(),
            row as int,
            left_position@,
            right_position@,
        ),
{
    let ghost ids = wire_list.column_ids_view();
    let ghost cells = wire_list.cells_view();
    let mut article = field_text(wire_list, row, wire_list_columns::WIRE_FROM_PINLIST);
    article.append("-");
    article.append(field_text(wire_list, row, wire_list_columns::WIRE_FROM_CAVITY).as_str());
    article.append("/");
    article.append(field_text(wire_list, row, wire_list_columns::WIRE_TO_PINLIST).as_str());
    article.append("-");
    article.append(field_text(wire_list, row, wire_list_columns::WIRE_TO_CAVITY).as_str());
    proof {
        reveal_strlit("-");
        reveal_strlit("/");
    }
    assert(article@ =~= article_name(ids, cells, row as int));
    let mut r: Vec<String> = Vec::new();
    r.push(article);
    r.push(usize_to_decimal(row + 1));
    r.push(field_text(wire_list, row, wire_list_columns::MODIFIED_LENGTH));
    r.push(field_text(wire_list, row, wire_list_columns::PROCESSING));
    r.push(to_string("9"));
    r.push(field_text(wire_list, row, wire_list_columns::WIRE_TERMINAL_STRIP_LEN1));
    r.push(field_text(wire_list, row, wire_list_columns::WIRE_TERMINAL_STRIP_LEN2));
    r.push(to_string("50%"));
    r.push(to_string(MARKER_TEXT));
    r.push(to_string(left_position));
    r.push(to_string(MARKER_TEXT));
    r.push(to_string(right_position));
    r.push(to_string("X"));
    assert(strings_view(r@) =~= schleuniger_record(
        ids,
        cells,
        row as int,
        left_position@,
        right_position@,
    ));
    r
}

/// The records of the Schleuniger ASCII import file for a wire list, with
/// the marker positions given as decimal text. Each wire record is as
/// written before any label centering for short wires.
pub fn wirelist_to_schleuniger_records<T: TableData>(
    wire_list: &T,
    left_position: &str,
    right_position: &str,
) -> (r: Vec<Vec<String>>)
    ensures
        records_view(r@) == schleuniger_records(
            wire_list.column_ids_view(),
            wire_list.cells_view(),
            left_position@,
            right_position@,
        ),
{
    let ghost ids = wire_list.column_ids_view();
    let ghost cells = wire_list.cells_view();
    let ghost rows = Seq::new(
        cells.len(),
        |row: int| schleuniger_record(ids, cells, row, left_position@, right_position@),
    );
    let mut r = header_records();
    let n = wire_list.row_count();
    let mut row: usize = 0;
    assert(rows.take(0) =~= Seq::<Seq<Seq<char>>>::empty());
    assert(records_view(r@) =~= schleuniger_header() + rows.take(0));
    while row < n
        invariant
            n == cells.len(),
            row <= n,
            ids == wire_list.column_ids_view(),
            cells == wire_list.cells_view(),
            rows == Seq::new(
                cells.len(),
                |row: int| schleuniger_record(ids, cells, row, left_position@, right_position@),
            ),
            records_view(r@) == schleuniger_header() + rows.take(row as int),
        decreases n - row,
    {
        let rec = schleuniger_row(wire_list, row, left_position, right_position);
        let ghost before = r@;
        r.push(rec);
        assert(rows.take(row + 1) =~= rows.take(row as int).push(rows[row as int]));
        assert(records_view(r@) =~= records_view(before).push(strings_view(rec@)));
        row = row + 1;
    }
    assert(rows.take(n as int) =~= rows);
    r
}

} // verus!
