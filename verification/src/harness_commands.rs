//! Harness design commands: wire processing lookup, the label list and the
//! cutting-machine records of the harness wire table, and the records of
//! every harness table for dumping to CSV files.

use vstd::prelude::*;
use crate::flexible_table::{
    cell_by_name, column_displays, column_ids, first_index, flexible_table_to_labels_csv,
    labels_csv, lemma_first_index_push, lemma_first_index_push_new, set_cell, ColumnSpec, FlexibleTable, TableData,
    TableDataMut,
};
use crate::wire_list_columns;
use crate::table_convert::{converted_cells, converted_ids, vysys_table_to_flexible_table};
use crate::shchleuniger::{schleuniger_records, wirelist_to_schleuniger_records};
use crate::text::{
    decimal, opt_str_view, or_empty, records_view, str_eq, strings_view, to_string,
    usize_to_decimal,
};
use crate::vesys_table_reader::{column_map_of, VysysTableReader};
use crate::vysis::{wire_named, HarnessDesign};
use crate::vysisxml::{XmlCellVal, XmlDataRow, XmlTable, XmlTableDataCache, XmlTableGroup};
use crate::vysyslib::{first_match, wire_property_of, Library};

verus! {

/// The cutting-machine processing property of the wire named `wire_name`:
/// the library's `PROCESSING` property of the wire's part number.
pub open spec fn wire_processing_of(
    lib: Library,
    design: HarnessDesign,
    wire_name: Seq<char>,
) -> Option<Seq<char>> {
    match wire_named(design.connectivity, wire_name) {
        Some(w) => match w.partnumber {
            Some(p) => wire_property_of(lib, p@, "PROCESSING"@),
            None => None,
        },
        None => None,
    }
}

/// Get the cutting-machine wire processing property of a wire from the
/// library.
pub fn lookup_wire_processing<'a>(
    library: &'a Library,
    harness_design: &'a HarnessDesign,
    wire_name: &'a str,
) -> (r: Option<&'a str>)
    ensures
        opt_str_view(r) == wire_processing_of(*library, *harness_design, wire_name@),
{
    match harness_design.get_connectivity().get_wire_by_name(wire_name) {
        Some(wire) => match &wire.partnumber {
            Some(part_number) => library.lookup_wire_property(part_number.as_str(), "PROCESSING"),
            None => None,
        },
        None => None,
    }
}

/// The first table group of the design decorated as the harness wire table.
pub open spec fn harness_wire_group(design: HarnessDesign) -> Option<XmlTableGroup> {
    first_match(
        design.table_groups@,
        |g: XmlTableGroup| g.decorationname@ == "HarnessWireTable"@,
    )
}

fn find_harness_wire_table(design: &HarnessDesign) -> (r: Option<&XmlTableGroup>)
    ensures
        match r {
            Some(g) => harness_wire_group(*design) == Some(*g),
            None => harness_wire_group(*design) is None,
        },
{
    let groups = design.get_table_groups();
    let ghost f = |g: XmlTableGroup| g.decorationname@ == "HarnessWireTable"@;
    let ghost s = groups@;
    let mut i: usize = 0;
    assert(s.skip(0) =~= s);
    while i < groups.len()
        invariant
            i <= s.len(),
            s == groups@,
            s == design.table_groups@,
            f == (|g: XmlTableGroup| g.decorationname@ == "HarnessWireTable"@),
            first_match(s, f) == first_match(s.skip(i as int), f),
        decreases s.len() - i,
    {
        assert(s.skip(i as int)[0] == s[i as int]);
        if str_eq(groups[i].decorationname.as_str(), "HarnessWireTable") {
            return Some(&groups[i]);
        }
        assert(s.skip(i as int).drop_first() =~= s.skip(i + 1));
        i = i + 1;
    }
    None
}

/// The label CSV text of a harness wire table group, converted to a wire
/// list table.
pub open spec fn group_labels_csv(g: XmlTableGroup) -> Seq<char> {
    labels_csv(
        converted_ids(column_map_of(g.columnstyle@)),
        converted_cells(g, column_map_of(g.columnstyle@)),
    )
}

/// Export the harness wire table of a design as label CSV text; an error
/// when the design has no harness wire table.
pub fn harness_labels_export(_library: &Library, harness_design: &HarnessDesign) -> (r: Result<
    String,
    String,
>)
    ensures
        match harness_wire_group(*harness_design) {
            Some(g) => r matches Ok(s) && s@ == group_labels_csv(g),
            None => r matches Err(e) && e@ == "HarnessWireTable not found"@,
        },
{
    match find_harness_wire_table(harness_design) {
        Some(harness_wire_table) => {
            let table_reader = VysysTableReader::new(harness_wire_table);
            let table = vysys_table_to_flexible_table(&table_reader);
            Ok(flexible_table_to_labels_csv(&table))
        },
        None => Err(to_string("HarnessWireTable not found")),
    }
}

/// Row `row`'s processing cell: the processing property of the wire named in
/// its `WIRE_NAME` cell, or `N/A` where there is none.
pub open spec fn processing_cell(
    lib: Library,
    design: HarnessDesign,
    ids: Seq<Seq<char>>,
    cells: Seq<Seq<Seq<char>>>,
    row: int,
) -> Seq<char> {
    match wire_processing_of(
        lib,
        design,
        or_empty(cell_by_name(ids, cells, row, wire_list_columns::WIRE_NAME@)),
    ) {
        Some(p) => p,
        None => "N/A"@,
    }
}

/// The column IDs of a wire table after adding the processing column: a
/// `PROCESSING` column is appended unless there is one.
pub open spec fn processed_ids(ids: Seq<Seq<char>>) -> Seq<Seq<char>> {
    if first_index(ids, wire_list_columns::PROCESSING@) is Some {
        ids
    } else {
        ids.push(wire_list_columns::PROCESSING@)
    }
}

/// The cells of a wire table after adding the processing column: when the
/// column is new, each row gets its processing cell written at the new
/// column's position.
pub open spec fn processed_cells(
    lib: Library,
    design: HarnessDesign,
    ids: Seq<Seq<char>>,
    cells: Seq<Seq<Seq<char>>>,
) -> Seq<Seq<Seq<char>>> {
    if first_index(ids, wire_list_columns::PROCESSING@) is Some {
        cells
    } else {
        Seq::new(
            cells.len(),
            |row: int|
                set_cell(cells[row], ids.len() as int, processing_cell(lib, design, ids, cells, row)),
        )
    }
}

/// Adding the processing column a second time changes nothing: the column
/// IDs and the cells stay as the first time left them.
pub proof fn lemma_processing_column_idempotent(
    lib: Library,
    design: HarnessDesign,
    ids: Seq<Seq<char>>,
    cells: Seq<Seq<Seq<char>>>,
)
    ensures
        processed_ids(processed_ids(ids)) == processed_ids(ids),
        processed_cells(lib, design, processed_ids(ids), processed_cells(lib, design, ids, cells))
            == processed_cells(lib, design, ids, cells),
{
    if first_index(ids, wire_list_columns::PROCESSING@) is None {
        lemma_first_index_push_new(ids, wire_list_columns::PROCESSING@, 0);
    }
}

/// Once the processing column is added to a table without one, every row
/// reads its processing cell under `PROCESSING`: the wire's processing
/// property, or `N/A`.
pub proof fn lemma_processing_column_reads_back(
    lib: Library,
    design: HarnessDesign,
    ids: Seq<Seq<char>>,
    cells: Seq<Seq<Seq<char>>>,
    row: int,
)
    requires
        first_index(ids, wire_list_columns::PROCESSING@) is None,
        0 <= row < cells.len(),
    ensures
        cell_by_name(
            processed_ids(ids),
            processed_cells(lib, design, ids, cells),
            row,
            wire_list_columns::PROCESSING@,
        ) == Some(processing_cell(lib, design, ids, cells, row)),
{
    lemma_first_index_push_new(ids, wire_list_columns::PROCESSING@, 0);
}

/// Add a `PROCESSING` column (displayed as `Processing`) to a wire table that
/// has none, filled row by row with the wire's processing property from the
/// library, or `N/A`.
pub fn add_processing_column(
    library: &Library,
    harness_design: &HarnessDesign,
    table: &mut FlexibleTable,
)
    ensures
        column_ids(final(table).columns@) == processed_ids(column_ids(old(table).columns@)),
        column_displays(final(table).columns@) == if first_index(
            column_ids(old(table).columns@),
            wire_list_columns::PROCESSING@,
        ) is Some {
            column_displays(old(table).columns@)
        } else {
            column_displays(old(table).columns@).push("Processing"@)
        },
        final(table).cells_view() == processed_cells(
            *library,
            *harness_design,
            column_ids(old(table).columns@),
            old(table).cells_view(),
        ),
        final(table).metas_view() == old(table).metas_view(),
{
    if table.column_index(wire_list_columns::PROCESSING).is_some() {
        return;
    }
    let ghost ids = column_ids(table.columns@);
    let ghost cells = table.cells_view();
    let ghost metas = table.metas_view();
    let ghost cols = table.columns@;
    table.columns.push(
        ColumnSpec { id: to_string(wire_list_columns::PROCESSING), display: to_string("Processing") },
    );
    assert(column_ids(table.columns@) =~= ids.push(wire_list_columns::PROCESSING@));
    assert(column_displays(table.columns@) =~= column_displays(cols).push("Processing"@));
    proof {
        reveal_strlit("WIRE_NAME");
        reveal_strlit("PROCESSING");
        assert(wire_list_columns::WIRE_NAME@ != wire_list_columns::PROCESSING@) by {
            assert(wire_list_columns::WIRE_NAME@[0] != wire_list_columns::PROCESSING@[0]);
        }
        lemma_first_index_push(ids, wire_list_columns::PROCESSING@, wire_list_columns::WIRE_NAME@, 0);
    }
    let proc_col = table.column_count() - 1;
    assert(proc_col == ids.len());
    let ghost target = processed_cells(*library, *harness_design, ids, cells);
    let n = table.row_count();
    let mut row: usize = 0;
    while row < n
        invariant
            n == cells.len(),
            row <= n,
            proc_col == ids.len(),
            column_ids(table.columns@) == ids.push(wire_list_columns::PROCESSING@),
            column_displays(table.columns@) == column_displays(cols).push("Processing"@),
            first_index(ids.push(wire_list_columns::PROCESSING@), wire_list_columns::WIRE_NAME@)
                == first_index(ids, wire_list_columns::WIRE_NAME@),
            first_index(ids, wire_list_columns::PROCESSING@) is None,
            target == processed_cells(*library, *harness_design, ids, cells),
            table.metas_view() == metas,
            table.cells_view().len() == n,
            forall|j: int| 0 <= j < row ==> #[trigger] table.cells_view()[j] == target[j],
            forall|j: int| row <= j < n ==> #[trigger] table.cells_view()[j] == cells[j],
        decreases n - row,
    {
        let wire_name = match table.get_by_name(row, wire_list_columns::WIRE_NAME) {
            Some(s) => to_string(s),
            None => String::new(),
        };
        assert(wire_name@ == or_empty(
            cell_by_name(ids, cells, row as int, wire_list_columns::WIRE_NAME@),
        ));
        let processing = match lookup_wire_processing(library, harness_design, wire_name.as_str()) {
            Some(p) => to_string(p),
            None => to_string("N/A"),
        };
        assert(processing@ == processing_cell(*library, *harness_design, ids, cells, row as int));
        let ghost before = table.cells_view();
        let ok = table.set(row, proc_col, processing);
        assert(ok);
        assert(table.cells_view()[row as int] == target[row as int]);
        assert forall|j: int| 0 <= j < row + 1 implies #[trigger] table.cells_view()[j] == target[j] by {
            if j < row {
                assert(table.cells_view()[j] == before[j]);
            }
        }
        assert forall|j: int| row + 1 <= j < n implies #[trigger] table.cells_view()[j] == cells[j] by {
            assert(table.cells_view()[j] == before[j]);
        }
        row = row + 1;
    }
    assert(table.cells_view() =~= target);
}

/// The cutting-machine records of a harness wire table group: the group
/// converted to a wire list table, with the processing column added, before
/// label centering.
pub open spec fn group_schleuniger_records(
    lib: Library,
    design: HarnessDesign,
    g: XmlTableGroup,
    left_position: Seq<char>,
    right_position: Seq<char>,
) -> Seq<Seq<Seq<char>>> {
    let m = column_map_of(g.columnstyle@);
    schleuniger_records(
        processed_ids(converted_ids(m)),
        processed_cells(lib, design, converted_ids(m), converted_cells(g, m)),
        left_position,
        right_position,
    )
}

/// The Schleuniger ASCII import records of a design's harness wire table,
/// with the processing column added from the library where the table has
/// none; an error when the design has no harness wire table.
pub fn harness_schleuniger_ascii_export(
    library: &Library,
    harness_design: &HarnessDesign,
    left_position: &str,
    right_position: &str,
) -> (r: Result<Vec<Vec<String>>, String>)
    ensures
        match harness_wire_group(*harness_design) {
            Some(g) => r matches Ok(recs) && records_view(recs@) == group_schleuniger_records(
                *library,
                *harness_design,
                g,
                left_position@,
                right_position@,
            ),
            None => r matches Err(e) && e@ == "No wire table!"@,
        },
{
    match find_harness_wire_table(harness_design) {
        Some(harness_wire_table) => {
            let table_reader = VysysTableReader::new(harness_wire_table);
            let mut table = vysys_table_to_flexible_table(&table_reader);
            add_processing_column(library, harness_design, &mut table);
            Ok(wirelist_to_schleuniger_records(&table, left_position, right_position))
        },
        None => Err(to_string("No wire table!")),
    }
}

/// What `sanitise_file_name::sanitise` makes of a file name (default
/// options): a name safe on common file systems.
pub uninterp spec fn sanitised_file_name(s: Seq<char>) -> Seq<char>;

/// `sanitise_file_name::sanitise`. Trusted: its result is named
/// `sanitised_file_name` of the argument, and, as the crate documents for
/// the default options, is never empty. What it replaces, and how it
/// shortens long names, is left unsaid.
#[verifier::external_body]
pub(crate) fn sanitise_name(s: &str) -> (r: String)
    ensures
        r@ == sanitised_file_name(s@),
        r@.len() > 0,
{
    sanitise_file_name::sanitise(s)
}

/// The texts of a row of cell values.
pub open spec fn cell_texts(v: Seq<XmlCellVal>) -> Seq<Seq<char>> {
    v.map_values(|c: XmlCellVal| c.cval.val@)
}

/// The records of a table's data cache: the header names, then each data
/// row.
pub open spec fn cache_records(dc: XmlTableDataCache) -> Seq<Seq<Seq<char>>> {
    seq![cell_texts(dc.colhdrnames.row.cellvals@)] + dc.datavalues.datarow@.map_values(
        |r: XmlDataRow| cell_texts(r.cellval@),
    )
}

/// The file name of dump number `i` of a group titled `title`:
/// `basename-title-i.csv`, sanitised.
pub open spec fn dump_file_name(basename: Seq<char>, title: Seq<char>, i: nat) -> Seq<char> {
    sanitised_file_name(basename + "-"@ + title + "-"@ + decimal(i) + ".csv"@)
}

/// The dumps of the tables `ts` of a group titled `title`, following the
/// dumps `p`: one per table with a data cache, numbered on from `p`.
pub open spec fn table_dumps(
    basename: Seq<char>,
    title: Seq<char>,
    ts: Seq<XmlTable>,
    p: Seq<(Seq<char>, Seq<Seq<Seq<char>>>)>,
) -> Seq<(Seq<char>, Seq<Seq<Seq<char>>>)>
    decreases ts.len(),
{
    if ts.len() == 0 {
        p
    } else {
        let q = table_dumps(basename, title, ts.drop_last(), p);
        match ts.last().tabledatacache {
            Some(dc) => q.push((dump_file_name(basename, title, q.len()), cache_records(dc))),
            None => q,
        }
    }
}

/// The dumps of all tables of the groups `gs`, in order, numbered from 0.
pub open spec fn group_dumps(basename: Seq<char>, gs: Seq<XmlTableGroup>) -> Seq<
    (Seq<char>, Seq<Seq<Seq<char>>>),
>
    decreases gs.len(),
{
    if gs.len() == 0 {
        Seq::empty()
    } else {
        table_dumps(
            basename,
            gs.last().title@,
            gs.last().tablefamily.table@,
            group_dumps(basename, gs.drop_last()),
        )
    }
}

/// The view of a list of dumps (file name, records).
pub open spec fn dumps_view(v: Seq<(String, Vec<Vec<String>>)>) -> Seq<
    (Seq<char>, Seq<Seq<Seq<char>>>),
> {
    v.map_values(|d: (String, Vec<Vec<String>>)| (d.0@, records_view(d.1@)))
}

fn cell_texts_exec(v: &Vec<XmlCellVal>) -> (r: Vec<String>)
    ensures
        strings_view(r@) == cell_texts(v@),
{
    let mut r: Vec<String> = Vec::new();
    let mut i: usize = 0;
    while i < v.len()
        invariant
            i <= v@.len(),
            strings_view(r@) == cell_texts(v@.take(i as int)),
        decreases v@.len() - i,
    {
        r.push(v[i].cval.val.clone());
        assert(cell_texts(v@.take(i + 1)) =~= cell_texts(v@.take(i as int)).push(v@[i as int].cval.val@));
        assert(strings_view(r@) =~= cell_texts(v@.take(i + 1)));
        i = i + 1;
    }
    assert(v@.take(v@.len() as int) =~= v@);
    r
}

fn cache_records_exec(dc: &XmlTableDataCache) -> (r: Vec<Vec<String>>)
    ensures
        records_view(r@) == cache_records(*dc),
{
    let rows = &dc.datavalues.datarow;
    let ghost data = rows@.map_values(|r: XmlDataRow| cell_texts(r.cellval@));
    let mut r: Vec<Vec<String>> = Vec::new();
    r.push(cell_texts_exec(&dc.colhdrnames.row.cellvals));
    let ghost head = seq![cell_texts(dc.colhdrnames.row.cellvals@)];
    assert(records_view(r@) =~= head + data.take(0));
    let mut i: usize = 0;
    while i < rows.len()
        invariant
            i <= rows@.len(),
            data == rows@.map_values(|r: XmlDataRow| cell_texts(r.cellval@)),
            head == seq![cell_texts(dc.colhdrnames.row.cellvals@)],
            records_view(r@) == head + data.take(i as int),
        decreases rows@.len() - i,
    {
        let ghost before = r@;
        r.push(cell_texts_exec(&rows[i].cellval));
        assert(data.take(i + 1) =~= data.take(i as int).push(data[i as int]));
        assert(records_view(r@) =~= records_view(before).push(data[i as int]));
        i = i + 1;
    }
    assert(data.take(rows@.len() as int) =~= data);
    r
}

/// The CSV dumps of all tables of a design: for each table with a data
/// cache, in order over the groups, a file name `basename-title-i.csv`
/// (sanitised, `i` counting the dumps from 0) and its records (the header
/// names, then the data rows).
pub fn dump_table_records(table_groups: &Vec<XmlTableGroup>, basename: &str) -> (r: Vec<
    (String, Vec<Vec<String>>),
>)
    ensures
        dumps_view(r@) == group_dumps(basename@, table_groups@),
{
    let ghost gs = table_groups@;
    let mut out: Vec<(String, Vec<Vec<String>>)> = Vec::new();
    let mut gi: usize = 0;
    assert(gs.take(0) =~= Seq::<XmlTableGroup>::empty());
    assert(dumps_view(out@) =~= Seq::<(Seq<char>, Seq<Seq<Seq<char>>>)>::empty());
    while gi < table_groups.len()
        invariant
            gi <= gs.len(),
            gs == table_groups@,
            dumps_view(out@) == group_dumps(basename@, gs.take(gi as int)),
        decreases gs.len() - gi,
    {
        let group = &table_groups[gi];
        let tables = &group.tablefamily.table;
        let ghost ts = tables@;
        let ghost base = dumps_view(out@);
        let mut ti: usize = 0;
        assert(ts.take(0) =~= Seq::<XmlTable>::empty());
        while ti < tables.len()
            invariant
                ti <= ts.len(),
                ts == tables@,
                dumps_view(out@) == table_dumps(basename@, group.title@, ts.take(ti as int), base),
            decreases ts.len() - ti,
        {
            assert(ts.take(ti + 1).drop_last() =~= ts.take(ti as int));
            assert(ts.take(ti + 1).last() == ts[ti as int]);
            match &tables[ti].tabledatacache {
                Some(datacache) => {
                    let mut filename = to_string(basename);
                    filename.append("-");
                    filename.append(group.title.as_str());
                    filename.append("-");
                    filename.append(usize_to_decimal(out.len()).as_str());
                    filename.append(".csv");
                    let filename = sanitise_name(filename.as_str());
                    let records = cache_records_exec(datacache);
                    let ghost before = out@;
                    out.push((filename, records));
                    assert(dumps_view(out@) =~= dumps_view(before).push((filename@, records_view(records@))));
                },
                None => {},
            }
            ti = ti + 1;
        }
        assert(ts.take(ts.len() as int) =~= ts);
        assert(gs.take(gi + 1).drop_last() =~= gs.take(gi as int));
        assert(gs.take(gi + 1).last() == *group);
        gi = gi + 1;
    }
    assert(gs.take(gs.len() as int) =~= gs);
    out
}

} // verus!
