//! Table conversion: build a `FlexibleTable` from VeSys table groups.

use vstd::prelude::*;
use crate::flexible_table::{
    column_displays, column_ids, default_meta, rows_cells, rows_metas, ColumnSpec, FlexibleRow,
    FlexibleTable, RowMeta,
};
use crate::text::{str_eq, strings_view, to_string};
use crate::vesys_table_reader::{
    cell_result_view, column_map_of, column_map_ordered, entries_view, positions_from,
    subtable_cell, VysysTableReader,
};
use crate::vysisxml::{subtable_row_counts, XmlTableGroup};

verus! {

/// The XML column names that have a canonical wire list column ID of their
/// own, with that ID.
pub open spec fn mapping_pairs() -> Seq<(Seq<char>, Seq<char>)> {
    seq![
        ("From Device"@, "WIRE_FROM_PINLIST"@),
        ("From Cavity"@, "WIRE_FROM_CAVITY"@),
        ("To Device"@, "WIRE_TO_PINLIST"@),
        ("To Cavity"@, "WIRE_TO_CAVITY"@),
        ("Wire Name"@, "WIRE_NAME"@),
        ("Length"@, "MODIFIED_LENGTH"@),
    ]
}

/// The value of the first pair whose key is `k`.
pub open spec fn pairs_lookup(pairs: Seq<(Seq<char>, Seq<char>)>, k: Seq<char>) -> Option<Seq<char>>
    decreases pairs.len(),
{
    if pairs.len() == 0 {
        None
    } else if pairs[0].0 == k {
        Some(pairs[0].1)
    } else {
        pairs_lookup(pairs.drop_first(), k)
    }
}

/// The canonical column ID of an XML column name: its mapped ID, or the
/// name itself.
pub open spec fn canonical_column_id(name: Seq<char>) -> Seq<char> {
    match pairs_lookup(mapping_pairs(), name) {
        Some(v) => v,
        None => name,
    }
}

/// The views of a list of string pairs.
pub open spec fn pairs_view(v: Seq<(String, String)>) -> Seq<(Seq<char>, Seq<char>)> {
    v.map_values(|p: (String, String)| (p.0@, p.1@))
}

/// Map from XML column names to canonical wire list column IDs (where they
/// differ).
pub fn harness_column_mapping() -> (m: Vec<(String, String)>)
    ensures
        pairs_view(m@) == mapping_pairs(),
{
    let mut m: Vec<(String, String)> = Vec::new();
    m.push((to_string("From Device"), to_string("WIRE_FROM_PINLIST")));
    m.push((to_string("From Cavity"), to_string("WIRE_FROM_CAVITY")));
    m.push((to_string("To Device"), to_string("WIRE_TO_PINLIST")));
    m.push((to_string("To Cavity"), to_string("WIRE_TO_CAVITY")));
    m.push((to_string("Wire Name"), to_string("WIRE_NAME")));
    m.push((to_string("Length"), to_string("MODIFIED_LENGTH")));
    assert(pairs_view(m@) =~= mapping_pairs());
    m
}

fn canonical_id(mapping: &Vec<(String, String)>, name: &str) -> (r: String)
    requires
        pairs_view(mapping@) == mapping_pairs(),
    ensures
        r@ == canonical_column_id(name@),
{
    let ghost pv = pairs_view(mapping@);
    let mut i: usize = 0;
    assert(pv.skip(0) =~= pv);
    while i < mapping.len()
        invariant
            i <= mapping@.len(),
            pv == pairs_view(mapping@),
            pv == mapping_pairs(),
            pairs_lookup(pv, name@) == pairs_lookup(pv.skip(i as int), name@),
        decreases mapping@.len() - i,
    {
        assert(pv.skip(i as int)[0] == pv[i as int]);
        if str_eq(mapping[i].0.as_str(), name) {
            return mapping[i].1.clone();
        }
        assert(pv.skip(i as int).drop_first() =~= pv.skip(i + 1));
        i = i + 1;
    }
    to_string(name)
}

/// A cell's text, or `N/A` when the lookup failed.
pub open spec fn cell_or_na(r: Result<Seq<char>, Seq<char>>) -> Seq<char> {
    match r {
        Ok(v) => v,
        Err(_) => "N/A"@,
    }
}

/// The columns of the table converted from a column map: canonical IDs and
/// display names, in order of position.
pub open spec fn converted_ids(m: Seq<(Seq<char>, nat, Seq<char>)>) -> Seq<Seq<char>> {
    m.map_values(|e: (Seq<char>, nat, Seq<char>)| canonical_column_id(e.0))
}

/// The display names of the converted table's columns.
pub open spec fn converted_displays(m: Seq<(Seq<char>, nat, Seq<char>)>) -> Seq<Seq<char>> {
    m.map_values(|e: (Seq<char>, nat, Seq<char>)| e.2)
}

/// The cells of the converted table's row for position `p`: each mapped
/// column's cell, or `N/A`.
pub open spec fn converted_row(
    g: XmlTableGroup,
    m: Seq<(Seq<char>, nat, Seq<char>)>,
    p: (nat, nat),
) -> Seq<Seq<char>> {
    m.map_values(
        |e: (Seq<char>, nat, Seq<char>)| cell_or_na(subtable_cell(g, m, p.0 as int, e.0, p.1 as int)),
    )
}

/// The cells of the converted table: one row per visited position.
pub open spec fn converted_cells(g: XmlTableGroup, m: Seq<(Seq<char>, nat, Seq<char>)>) -> Seq<
    Seq<Seq<char>>,
> {
    positions_from(subtable_row_counts(g), 0, 0).map_values(|p: (nat, nat)| converted_row(g, m, p))
}

/// Whether `t` is the table converted from group `g` with column map `m`.
pub open spec fn is_converted_table(
    t: FlexibleTable,
    g: XmlTableGroup,
    m: Seq<(Seq<char>, nat, Seq<char>)>,
) -> bool {
    &&& column_ids(t.columns@) == converted_ids(m)
    &&& column_displays(t.columns@) == converted_displays(m)
    &&& rows_cells(t.rows@) == converted_cells(g, m)
    &&& rows_metas(t.rows@) == Seq::new(t.rows@.len(), |i: int| default_meta())
}

/// Convert a table reader (for example of the HarnessWireTable) to a
/// `FlexibleTable`: the mapped columns in order of position, and one row per
/// visited row position, with `N/A` where a cell is missing.
pub fn vysys_table_to_flexible_table(table_reader: &VysysTableReader) -> (t: FlexibleTable)
    ensures
        is_converted_table(t, table_reader.group(), table_reader.column_map_view()),
{
    let column_map = table_reader.column_map();
    let ghost m = table_reader.column_map_view();
    let ghost g = table_reader.group();
    let mapping = harness_column_mapping();
    let mut columns: Vec<ColumnSpec> = Vec::new();
    let mut i: usize = 0;
    while i < column_map.len()
        invariant
            i <= column_map@.len(),
            entries_view(column_map@) == m,
            pairs_view(mapping@) == mapping_pairs(),
            columns@.len() == i,
            forall|j: int|
                #![trigger columns@[j]]
                0 <= j < i ==> columns@[j].id@ == canonical_column_id(m[j].0)
                    && columns@[j].display@ == m[j].2,
        decreases column_map@.len() - i,
    {
        let id = canonical_id(&mapping, column_map[i].name.as_str());
        let display = column_map[i].display.clone();
        columns.push(ColumnSpec { id, display });
        i = i + 1;
    }
    assert(column_ids(columns@) =~= converted_ids(m));
    assert(column_displays(columns@) =~= converted_displays(m));
    let mut table = FlexibleTable::new(columns);
    let ghost all = positions_from(subtable_row_counts(g), 0, 0);
    let mut iter = table_reader.get_row_iter();
    let mut k: usize = 0;
    loop
        invariant
            entries_view(column_map@) == m,
            m == table_reader.column_map_view(),
            g == table_reader.group(),
            iter.reader() == *table_reader,
            column_ids(table.columns@) == converted_ids(m),
            column_displays(table.columns@) == converted_displays(m),
            k <= all.len(),
            table.rows@.len() == k,
            iter.remaining() == all.skip(k as int),
            rows_cells(table.rows@) == all.take(k as int).map_values(
                |p: (nat, nat)| converted_row(g, m, p),
            ),
            rows_metas(table.rows@) == Seq::new(k as nat, |i: int| default_meta()),
        ensures
            k == all.len(),
            rows_cells(table.rows@) == all.map_values(|p: (nat, nat)| converted_row(g, m, p)),
            rows_metas(table.rows@) == Seq::new(table.rows@.len(), |i: int| default_meta()),
            column_ids(table.columns@) == converted_ids(m),
            column_displays(table.columns@) == converted_displays(m),
        decreases all.len() - k,
    {
        let ghost before = iter.remaining();
        match iter.next() {
            None => {
                assert(all.take(k as int) =~= all);
                break;
            },
            Some(row) => {
                assert(row.position() == all[k as int]);
                let mut cells: Vec<String> = Vec::new();
                let mut j: usize = 0;
                while j < column_map.len()
                    invariant
                        j <= column_map@.len(),
                        entries_view(column_map@) == m,
                        m == row.reader().column_map_view(),
                        g == row.reader().group(),
                        k < all.len(),
                        row.position() == all[k as int],
                        cells@.len() == j,
                        forall|q: int|
                            0 <= q < j ==> #[trigger] cells@[q]@ == cell_or_na(
                                subtable_cell(g, m, all[k as int].0 as int, m[q].0, all[k as int].1 as int),
                            ),
                    decreases column_map@.len() - j,
                {
                    let v = match row.get_column(column_map[j].name.as_str()) {
                        Ok(v) => to_string(v),
                        Err(_) => to_string("N/A"),
                    };
                    cells.push(v);
                    j = j + 1;
                }
                assert(strings_view(cells@) =~= converted_row(g, m, all[k as int]));
                let ghost prev = table.rows@;
                let meta = RowMeta::default();
                table.rows.push(FlexibleRow { cells, meta });
                assert(rows_metas(table.rows@) =~= rows_metas(prev).push(default_meta()));
                assert(rows_cells(table.rows@) =~= rows_cells(prev).push(strings_view(cells@)));
                assert(all.take(k + 1) =~= all.take(k as int).push(all[k as int]));
                assert(rows_cells(table.rows@) =~= all.take(k + 1).map_values(
                    |p: (nat, nat)| converted_row(g, m, p),
                ));
                assert(rows_metas(table.rows@) =~= Seq::new((k + 1) as nat, |i: int| default_meta()));
                assert(all.skip(k as int).drop_first() =~= all.skip(k + 1));
                k = table.rows.len();
            },
        }
    }
    table
}

/// Convert a raw table group (for example a harness table) to a
/// `FlexibleTable`, through a reader of it.
pub fn table_group_to_flexible_table(table_group: &XmlTableGroup) -> (t: FlexibleTable)
    ensures
        is_converted_table(t, *table_group, column_map_of(table_group.columnstyle@)),
        column_map_ordered(column_map_of(table_group.columnstyle@)),
{
    let table_reader = VysysTableReader::new(table_group);
    vysys_table_to_flexible_table(&table_reader)
}

} // verus!
