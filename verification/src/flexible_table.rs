//! Flexible table: the intermediate representation of wire lists and
//! harness tables, with generic CSV and label CSV output.

use vstd::prelude::*;
use vstd::pervasive::VecAdditionalExecFns;
use crate::text::{
    concat, join, join_strings, opt_str_view, opt_string_view, or_empty, str_contains_char, str_eq,
    strings_view, to_string,
};
use crate::wire_list_columns;

verus! {

/// Border style for cell formatting (`NoBorder` draws none).
#[derive(Clone, Copy, Debug, PartialEq, Eq, Structural)]
pub enum BorderStyle {
    NoBorder,
    Thin,
    Medium,
    Thick,
}

/// Column specification: a canonical ID and a display name.
#[derive(Clone, Debug)]
pub struct ColumnSpec {
    pub id: String,
    pub display: String,
}

/// Row metadata for wire lists (group boundaries, color hints).
#[derive(Clone, Debug)]
pub struct RowMeta {
    pub group_boundary_below: bool,
    pub color_code: Option<String>,
}

impl Default for RowMeta {
    fn default() -> (r: Self)
        ensures
            meta_view(r) == default_meta(),
    {
        RowMeta { group_boundary_below: false, color_code: None }
    }
}

/// A single row with cells and metadata.
#[derive(Clone, Debug)]
pub struct FlexibleRow {
    pub cells: Vec<String>,
    pub meta: RowMeta,
}

/// Unified table representation.
#[derive(Clone, Debug)]
pub struct FlexibleTable {
    pub columns: Vec<ColumnSpec>,
    pub rows: Vec<FlexibleRow>,
}

/// The IDs of a column list.
pub open spec fn column_ids(cols: Seq<ColumnSpec>) -> Seq<Seq<char>> {
    cols.map_values(|c: ColumnSpec| c.id@)
}

/// The display names of a column list.
pub open spec fn column_displays(cols: Seq<ColumnSpec>) -> Seq<Seq<char>> {
    cols.map_values(|c: ColumnSpec| c.display@)
}

/// The view of a row's metadata.
pub open spec fn meta_view(m: RowMeta) -> (bool, Option<Seq<char>>) {
    (m.group_boundary_below, opt_string_view(m.color_code))
}

/// The metadata of a row created without any: no boundary, no color.
pub open spec fn default_meta() -> (bool, Option<Seq<char>>) {
    (false, None)
}

/// The cell texts of each row.
pub open spec fn rows_cells(rows: Seq<FlexibleRow>) -> Seq<Seq<Seq<char>>> {
    rows.map_values(|r: FlexibleRow| strings_view(r.cells@))
}

/// The metadata of each row.
pub open spec fn rows_metas(rows: Seq<FlexibleRow>) -> Seq<(bool, Option<Seq<char>>)> {
    rows.map_values(|r: FlexibleRow| meta_view(r.meta))
}

/// The item at `i`, if there is one.
pub open spec fn seq_get<A>(s: Seq<A>, i: int) -> Option<A> {
    if 0 <= i < s.len() {
        Some(s[i])
    } else {
        None
    }
}

/// The text of cell (`row`, `col`), if the row exists and holds that cell.
pub open spec fn table_cell(cells: Seq<Seq<Seq<char>>>, row: int, col: int) -> Option<Seq<char>> {
    if 0 <= row < cells.len() {
        seq_get(cells[row], col)
    } else {
        None
    }
}

/// The first index at or after `i` holding `x`.
pub open spec fn first_index_from(s: Seq<Seq<char>>, x: Seq<char>, i: nat) -> Option<int>
    decreases s.len() - i,
{
    if i >= s.len() {
        None
    } else if s[i as int] == x {
        Some(i as int)
    } else {
        first_index_from(s, x, i + 1)
    }
}

/// The first index holding `x`.
pub open spec fn first_index(s: Seq<Seq<char>>, x: Seq<char>) -> Option<int> {
    first_index_from(s, x, 0)
}

/// Appending a column with another ID leaves where a name is first found
/// unchanged.
pub proof fn lemma_first_index_push(s: Seq<Seq<char>>, x: Seq<char>, y: Seq<char>, i: nat)
    requires
        x != y,
    ensures
        first_index_from(s.push(x), y, i) == first_index_from(s, y, i),
    decreases s.len() - i,
{
    if i < s.len() {
        assert(s.push(x)[i as int] == s[i as int]);
        lemma_first_index_push(s, x, y, i + 1);
    } else if i == s.len() {
        assert(s.push(x)[i as int] == x);
        assert(first_index_from(s.push(x), y, i + 1) is None);
    }
}

/// A column ID found nowhere is found at its own position once appended.
pub proof fn lemma_first_index_push_new(s: Seq<Seq<char>>, x: Seq<char>, i: nat)
    requires
        first_index_from(s, x, i) is None,
        i <= s.len(),
    ensures
        first_index_from(s.push(x), x, i) == Some(s.len() as int),
    decreases s.len() - i,
{
    if i < s.len() {
        assert(s.push(x)[i as int] == s[i as int]);
        lemma_first_index_push_new(s, x, i + 1);
    } else {
        assert(s.push(x)[i as int] == x);
    }
}

/// The text of the cell in `row` under the first column named `name`.
pub open spec fn cell_by_name(
    ids: Seq<Seq<char>>,
    cells: Seq<Seq<Seq<char>>>,
    row: int,
    name: Seq<char>,
) -> Option<Seq<char>> {
    match first_index(ids, name) {
        Some(c) => table_cell(cells, row, c),
        None => None,
    }
}

/// A row after writing `v` to column `col`, padding with empty cells first
/// where the row is too short.
pub open spec fn set_cell(r: Seq<Seq<char>>, col: int, v: Seq<char>) -> Seq<Seq<char>> {
    if col < r.len() {
        r.update(col, v)
    } else {
        (r + Seq::new((col - r.len()) as nat, |i: int| Seq::<char>::empty())).push(v)
    }
}

/// Pure data access, no presentation.
pub trait TableData {
    /// The column IDs in order.
    spec fn column_ids_view(&self) -> Seq<Seq<char>>;

    /// The cell texts, row by row.
    spec fn cells_view(&self) -> Seq<Seq<Seq<char>>>;

    fn row_count(&self) -> (n: usize)
        ensures
            n == self.cells_view().len(),
    ;

    fn column_count(&self) -> (n: usize)
        ensures
            n == self.column_ids_view().len(),
    ;

    fn column_name(&self, col: usize) -> (r: Option<&str>)
        ensures
            opt_str_view(r) == seq_get(self.column_ids_view(), col as int),
    ;

    fn column_index(&self, name: &str) -> (r: Option<usize>)
        ensures
            match r {
                Some(c) => first_index(self.column_ids_view(), name@) == Some(c as int),
                None => first_index(self.column_ids_view(), name@) is None,
            },
    ;

    fn get(&self, row: usize, col: usize) -> (r: Option<&str>)
        ensures
            opt_str_view(r) == table_cell(self.cells_view(), row as int, col as int),
    ;

    fn get_by_name(&self, row: usize, column: &str) -> (r: Option<&str>)
        ensures
            opt_str_view(r) == cell_by_name(
                self.column_ids_view(),
                self.cells_view(),
                row as int,
                column@,
            ),
    {
        match self.column_index(column) {
            Some(c) => self.get(row, c),
            None => None,
        }
    }
}

/// Mutable data access, for editing and building.
pub trait TableDataMut: TableData {
    /// Write `value` to (`row`, `col`); false when the row does not exist.
    fn set(&mut self, row: usize, col: usize, value: String) -> (ok: bool)
        ensures
            ok == (row < old(self).cells_view().len()),
            final(self).column_ids_view() == old(self).column_ids_view(),
            ok ==> final(self).cells_view() == old(self).cells_view().update(
                row as int,
                set_cell(old(self).cells_view()[row as int], col as int, value@),
            ),
            !ok ==> final(self).cells_view() == old(self).cells_view(),
    ;

    /// Append a row holding `cells`.
    fn push_row(&mut self, cells: Vec<String>)
        ensures
            final(self).column_ids_view() == old(self).column_ids_view(),
            final(self).cells_view() == old(self).cells_view().push(strings_view(cells@)),
    ;
}

impl FlexibleTable {
    /// The view of the table's metadata, row by row.
    pub open spec fn metas_view(&self) -> Seq<(bool, Option<Seq<char>>)> {
        rows_metas(self.rows@)
    }

    /// A table with the given columns and no rows.
    pub fn new(columns: Vec<ColumnSpec>) -> (t: Self)
        ensures
            t.columns@ == columns@,
            t.rows@.len() == 0,
    {
        FlexibleTable { columns, rows: Vec::new() }
    }

    /// A table with columns built from (id, display) pairs and no rows.
    pub fn with_columns(columns: Vec<(String, String)>) -> (t: Self)
        ensures
            t.columns@.len() == columns@.len(),
            forall|i: int|
                0 <= i < columns@.len() ==> #[trigger] t.columns@[i].id@ == columns@[i].0@
                    && t.columns@[i].display@ == columns@[i].1@,
            t.rows@.len() == 0,
    {
        let mut cols: Vec<ColumnSpec> = Vec::new();
        let mut i: usize = 0;
        while i < columns.len()
            invariant
                i <= columns@.len(),
                cols@.len() == i,
                forall|j: int|
                    0 <= j < i ==> #[trigger] cols@[j].id@ == columns@[j].0@ && cols@[j].display@
                        == columns@[j].1@,
            decreases columns@.len() - i,
        {
            let id = columns[i].0.clone();
            let display = columns[i].1.clone();
            cols.push(ColumnSpec { id, display });
            i = i + 1;
        }
        Self::new(cols)
    }

    /// The metadata of `row`, if the row exists.
    pub fn row_meta(&self, row: usize) -> (r: Option<&RowMeta>)
        ensures
            match r {
                Some(m) => row < self.rows@.len() && meta_view(*m) == self.metas_view()[row as int],
                None => row >= self.rows@.len(),
            },
    {
        if row < self.rows.len() {
            Some(&self.rows[row].meta)
        } else {
            None
        }
    }
}

impl TableData for FlexibleTable {
    open spec fn column_ids_view(&self) -> Seq<Seq<char>> {
        column_ids(self.columns@)
    }

    open spec fn cells_view(&self) -> Seq<Seq<Seq<char>>> {
        rows_cells(self.rows@)
    }

    fn row_count(&self) -> (n: usize) {
        self.rows.len()
    }

    fn column_count(&self) -> (n: usize) {
        self.columns.len()
    }

    fn column_name(&self, col: usize) -> (r: Option<&str>) {
        if col < self.columns.len() {
            Some(self.columns[col].id.as_str())
        } else {
            None
        }
    }

    fn column_index(&self, name: &str) -> (r: Option<usize>) {
        let ghost ids = self.column_ids_view();
        let mut i: usize = 0;
        while i < self.columns.len()
            invariant
                i <= self.columns@.len(),
                ids == column_ids(self.columns@),
                first_index(ids, name@) == first_index_from(ids, name@, i as nat),
            decreases self.columns@.len() - i,
        {
            if str_eq(self.columns[i].id.as_str(), name) {
                return Some(i);
            }
            i = i + 1;
        }
        None
    }

    fn get(&self, row: usize, col: usize) -> (r: Option<&str>) {
        if row < self.rows.len() && col < self.rows[row].cells.len() {
            Some(self.rows[row].cells[col].as_str())
        } else {
            None
        }
    }
}

impl TableDataMut for FlexibleTable {
    fn set(&mut self, row: usize, col: usize, value: String) -> (ok: bool)
        ensures
            final(self).columns@ == old(self).columns@,
            final(self).metas_view() == old(self).metas_view(),
    {
        if row >= self.rows.len() {
            return false;
        }
        let ghost old_rows = self.rows@;
        let mut r = FlexibleRow { cells: Vec::new(), meta: RowMeta::default() };
        self.rows.set_and_swap(row, &mut r);
        let ghost old_cells = strings_view(r.cells@);
        let ghost old_meta = r.meta;
        assert(old_meta == old_rows[row as int].meta);
        if col < r.cells.len() {
            r.cells.set(col, value);
            assert(strings_view(r.cells@) =~= set_cell(old_cells, col as int, value@));
        } else {
            while r.cells.len() < col
                invariant
                    col >= old_cells.len(),
                    r.meta == old_meta,
                    old_cells.len() <= r.cells@.len() <= col,
                    strings_view(r.cells@) =~= old_cells + Seq::new(
                        (r.cells@.len() - old_cells.len()) as nat,
                        |i: int| Seq::<char>::empty(),
                    ),
                decreases col - r.cells@.len(),
            {
                let ghost prev = r.cells@;
                r.cells.push(String::new());
                assert(strings_view(r.cells@) =~= strings_view(prev).push(Seq::<char>::empty()));
            }
            let ghost prev = r.cells@;
            r.cells.push(value);
            assert(strings_view(r.cells@) =~= strings_view(prev).push(value@));
            assert(strings_view(r.cells@) =~= set_cell(old_cells, col as int, value@));
        }
        assert(r.meta == old_meta);
        self.rows.set(row, r);
        assert(self.rows@ == old_rows.update(row as int, r));
        assert(rows_cells(self.rows@) =~= rows_cells(old_rows).update(
            row as int,
            set_cell(old_cells, col as int, value@),
        ));
        assert(rows_metas(self.rows@) =~= rows_metas(old_rows));
        true
    }

    fn push_row(&mut self, cells: Vec<String>)
        ensures
            final(self).columns@ == old(self).columns@,
            final(self).metas_view() == old(self).metas_view().push(default_meta()),
    {
        let ghost old_rows = self.rows@;
        self.rows.push(FlexibleRow { cells, meta: RowMeta::default() });
        assert(rows_cells(self.rows@) =~= rows_cells(old_rows).push(strings_view(cells@)));
        assert(rows_metas(self.rows@) =~= rows_metas(old_rows).push(default_meta()));
    }
}

/// Reading a cell back after writing it gives the written text, and every
/// other cell that existed before keeps its text.
pub proof fn lemma_set_then_get(
    cells: Seq<Seq<Seq<char>>>,
    row: int,
    col: int,
    v: Seq<char>,
    r2: int,
    c2: int,
)
    requires
        0 <= row < cells.len(),
        0 <= col,
    ensures
        table_cell(cells.update(row, set_cell(cells[row], col, v)), row, col) == Some(v),
        (r2 != row || c2 != col) && table_cell(cells, r2, c2) is Some ==> table_cell(
            cells.update(row, set_cell(cells[row], col, v)),
            r2,
            c2,
        ) == table_cell(cells, r2, c2),
{
}

/// A pushed row reads back cell by cell.
pub proof fn lemma_push_then_get(cells: Seq<Seq<Seq<char>>>, row: Seq<Seq<char>>, col: int)
    ensures
        table_cell(cells.push(row), cells.len() as int, col) == seq_get(row, col),
        forall|r: int, c: int|
            0 <= r < cells.len() ==> table_cell(cells.push(row), r, c) == table_cell(cells, r, c),
{
    assert forall|r: int, c: int| 0 <= r < cells.len() implies table_cell(
        cells.push(row),
        r,
        c,
    ) == table_cell(cells, r, c) by {
        assert(cells.push(row)[r] == cells[r]);
    }
}

/// Whether a CSV field must be quoted.
pub open spec fn needs_quotes(s: Seq<char>) -> bool {
    s.contains(',') || s.contains('"') || s.contains('\n') || s.contains('\r')
}

/// `s` with each `"` doubled.
pub open spec fn double_quotes(s: Seq<char>) -> Seq<char>
    decreases s.len(),
{
    if s.len() == 0 {
        Seq::empty()
    } else {
        double_quotes(s.drop_last()) + if s.last() == '"' {
            seq!['"', '"']
        } else {
            seq![s.last()]
        }
    }
}

/// A CSV field: quoted, with inner quotes doubled, when it holds a comma,
/// a quote or a line break; unchanged otherwise.
pub open spec fn csv_escape(s: Seq<char>) -> Seq<char> {
    if needs_quotes(s) {
        seq!['"'] + double_quotes(s) + seq!['"']
    } else {
        s
    }
}

/// One CSV line: the escaped fields joined by commas, then a line feed.
pub open spec fn csv_line(fields: Seq<Seq<char>>) -> Seq<char> {
    join(fields.map_values(|f: Seq<char>| csv_escape(f)), seq![',']) + seq!['\n']
}

/// The generic CSV text of a table: the header line of display names, then
/// one line per row.
pub open spec fn table_csv(displays: Seq<Seq<char>>, cells: Seq<Seq<Seq<char>>>) -> Seq<char> {
    csv_line(displays) + concat(cells.map_values(|r: Seq<Seq<char>>| csv_line(r)))
}

fn escape_csv(s: &str) -> (r: String)
    ensures
        r@ == csv_escape(s@),
{
    let quote = str_contains_char(s, ',') || str_contains_char(s, '"') || str_contains_char(
        s,
        '\n',
    ) || str_contains_char(s, '\r');
    if !quote {
        return to_string(s);
    }
    let n = s.unicode_len();
    let mut res = String::new();
    res.append("\"");
    proof {
        reveal_strlit("\"");
    }
    let ghost head = res@;
    let mut start: usize = 0;
    let mut i: usize = 0;
    assert(s@.take(0) =~= Seq::<char>::empty());
    while i < n
        invariant
            n == s@.len(),
            start <= i <= n,
            head == seq!['"'],
            res@ + s@.subrange(start as int, i as int) =~= head + double_quotes(
                s@.take(i as int),
            ),
        decreases n - i,
    {
        let c = s.get_char(i);
        proof {
            reveal_strlit("\"");
            assert("\""@ =~= seq!['"']);
        }
        assert(s@.take(i + 1).drop_last() =~= s@.take(i as int));
        assert(s@.take(i + 1).last() == c);
        if c == '"' {
            assert(double_quotes(s@.take(i + 1)) == double_quotes(s@.take(i as int)) + seq![
                '"',
                '"',
            ]);
            let ghost old_res = res@;
            let ghost dq_i = double_quotes(s@.take(i as int));
            assert(old_res + s@.subrange(start as int, i as int) =~= head + dq_i);
            let seg = s.substring_char(start, i + 1);
            res.append(seg);
            res.append("\"");
            assert(s@.subrange(start as int, i + 1) =~= s@.subrange(start as int, i as int).push(
                c,
            ));
            assert(res@ =~= old_res + s@.subrange(start as int, i as int) + seq!['"', '"']);
            assert(res@ =~= head + dq_i + seq!['"', '"']);
            assert(double_quotes(s@.take(i + 1)) =~= dq_i + seq!['"', '"']);
            assert(head + double_quotes(s@.take(i + 1)) =~= head + dq_i + seq!['"', '"']);
            start = i + 1;
            assert(s@.subrange(start as int, i + 1) =~= Seq::<char>::empty());
            assert(res@ + s@.subrange(start as int, i + 1) =~= head + double_quotes(
                s@.take(i + 1),
            ));
        } else {
            assert(double_quotes(s@.take(i + 1)) == double_quotes(s@.take(i as int)) + seq![c]);
            let ghost dq_i = double_quotes(s@.take(i as int));
            assert(res@ + s@.subrange(start as int, i as int) =~= head + dq_i);
            assert(s@.subrange(start as int, i + 1) =~= s@.subrange(start as int, i as int).push(
                c,
            ));
            assert(res@ + s@.subrange(start as int, i + 1) =~= head + dq_i + seq![c]);
            assert(res@ + s@.subrange(start as int, i + 1) =~= head + double_quotes(
                s@.take(i + 1),
            ));
        }
        i = i + 1;
    }
    let seg = s.substring_char(start, n);
    res.append(seg);
    res.append("\"");
    assert(s@.take(n as int) =~= s@);
    res
}

/// The escaped CSV line of `fields`.
fn csv_line_exec(fields: &Vec<String>) -> (r: String)
    ensures
        r@ == csv_line(strings_view(fields@)),
{
    let mut escaped: Vec<String> = Vec::new();
    let mut i: usize = 0;
    while i < fields.len()
        invariant
            i <= fields@.len(),
            escaped@.len() == i,
            forall|j: int|
                0 <= j < i ==> #[trigger] escaped@[j]@ == csv_escape(fields@[j]@),
        decreases fields@.len() - i,
    {
        escaped.push(escape_csv(fields[i].as_str()));
        i = i + 1;
    }
    let mut line = join_strings(&escaped, ",");
    line.append("\n");
    proof {
        reveal_strlit(",");
        reveal_strlit("\n");
        assert(","@ =~= seq![',']);
        assert("\n"@ =~= seq!['\n']);
        assert(strings_view(escaped@) =~= strings_view(fields@).map_values(
            |f: Seq<char>| csv_escape(f),
        ));
    }
    line
}

/// Write generic CSV (all columns) from table: a header line of the display
/// names, then one line per row.
pub fn flexible_table_to_csv_generic(table: &FlexibleTable) -> (r: String)
    ensures
        r@ == table_csv(column_displays(table.columns@), table.cells_view()),
{
    let mut header: Vec<String> = Vec::new();
    let mut i: usize = 0;
    while i < table.columns.len()
        invariant
            i <= table.columns@.len(),
            header@.len() == i,
            forall|j: int|
                0 <= j < i ==> #[trigger] header@[j]@ == table.columns@[j].display@,
        decreases table.columns@.len() - i,
    {
        header.push(to_string(table.columns[i].display.as_str()));
        i = i + 1;
    }
    assert(strings_view(header@) =~= column_displays(table.columns@));
    let mut res = csv_line_exec(&header);
    let ghost lines = table.cells_view().map_values(|r: Seq<Seq<char>>| csv_line(r));
    let ghost head = res@;
    let mut k: usize = 0;
    while k < table.rows.len()
        invariant
            k <= table.rows@.len(),
            lines == table.cells_view().map_values(|r: Seq<Seq<char>>| csv_line(r)),
            head == csv_line(column_displays(table.columns@)),
            res@ == head + concat(lines.take(k as int)),
        decreases table.rows@.len() - k,
    {
        let line = csv_line_exec(&table.rows[k].cells);
        res.append(line.as_str());
        assert(lines.take(k + 1).drop_last() =~= lines.take(k as int));
        assert(lines[k as int] == csv_line(strings_view(table.rows@[k as int].cells@)));
        k = k + 1;
    }
    assert(lines.take(table.rows@.len() as int) =~= lines);
    res
}

/// The (From, To) label pair of a row: the FROM_LABEL and TO_LABEL cells when
/// both are non-empty, else `device-cavity` for each end.
pub open spec fn label_pair(ids: Seq<Seq<char>>, cells: Seq<Seq<Seq<char>>>, row: int) -> (
    Seq<char>,
    Seq<char>,
) {
    let from = or_empty(cell_by_name(ids, cells, row, wire_list_columns::FROM_LABEL@));
    let to = or_empty(cell_by_name(ids, cells, row, wire_list_columns::TO_LABEL@));
    if from.len() > 0 && to.len() > 0 {
        (from, to)
    } else {
        let from_dev = or_empty(
            cell_by_name(ids, cells, row, wire_list_columns::WIRE_FROM_PINLIST@),
        );
        let from_cav = or_empty(cell_by_name(ids, cells, row, wire_list_columns::WIRE_FROM_CAVITY@));
        let to_dev = or_empty(cell_by_name(ids, cells, row, wire_list_columns::WIRE_TO_PINLIST@));
        let to_cav = or_empty(cell_by_name(ids, cells, row, wire_list_columns::WIRE_TO_CAVITY@));
        (from_dev + seq!['-'] + from_cav, to_dev + seq!['-'] + to_cav)
    }
}

/// The label CSV line of a row.
pub open spec fn label_line(ids: Seq<Seq<char>>, cells: Seq<Seq<Seq<char>>>, row: int) -> Seq<
    char,
> {
    label_pair(ids, cells, row).0 + seq![','] + label_pair(ids, cells, row).1 + seq!['\n']
}

/// The label CSV text: a `From,To` header, then one line per row.
pub open spec fn labels_csv(ids: Seq<Seq<char>>, cells: Seq<Seq<Seq<char>>>) -> Seq<char> {
    seq!['F', 'r', 'o', 'm', ',', 'T', 'o', '\n'] + concat(
        Seq::new(cells.len(), |row: int| label_line(ids, cells, row)),
    )
}

fn text_or_empty(o: Option<&str>) -> (r: String)
    ensures
        r@ == or_empty(opt_str_view(o)),
{
    match o {
        Some(s) => to_string(s),
        None => String::new(),
    }
}

/// `a-b`.
pub fn dash_join(a: &str, b: &str) -> (r: String)
    ensures
        r@ == a@ + seq!['-'] + b@,
{
    let mut r = to_string(a);
    r.append("-");
    r.append(b);
    proof {
        reveal_strlit("-");
    }
    r
}

/// Write labels CSV (From, To columns) from table data.
pub fn flexible_table_to_labels_csv<T: TableData>(data: &T) -> (r: String)
    ensures
        r@ == labels_csv(data.column_ids_view(), data.cells_view()),
{
    let ghost ids = data.column_ids_view();
    let ghost cells = data.cells_view();
    let mut res = String::new();
    res.append("From,To\n");
    proof {
        reveal_strlit("From,To\n");
    }
    let ghost lines = Seq::new(cells.len(), |row: int| label_line(ids, cells, row));
    let n = data.row_count();
    let mut row: usize = 0;
    while row < n
        invariant
            n == cells.len(),
            ids == data.column_ids_view(),
            cells == data.cells_view(),
            row <= n,
            lines == Seq::new(cells.len(), |row: int| label_line(ids, cells, row)),
            res@ == seq!['F', 'r', 'o', 'm', ',', 'T', 'o', '\n'] + concat(lines.take(row as int)),
        decreases n - row,
    {
        let from = text_or_empty(data.get_by_name(row, wire_list_columns::FROM_LABEL));
        let to = text_or_empty(data.get_by_name(row, wire_list_columns::TO_LABEL));
        let (from_val, to_val) = if from.unicode_len() > 0 && to.unicode_len() > 0 {
            (from, to)
        } else {
            let from_dev = text_or_empty(
                data.get_by_name(row, wire_list_columns::WIRE_FROM_PINLIST),
            );
            let from_cav = text_or_empty(data.get_by_name(row, wire_list_columns::WIRE_FROM_CAVITY));
            let to_dev = text_or_empty(data.get_by_name(row, wire_list_columns::WIRE_TO_PINLIST));
            let to_cav = text_or_empty(data.get_by_name(row, wire_list_columns::WIRE_TO_CAVITY));
            (
                dash_join(from_dev.as_str(), from_cav.as_str()),
                dash_join(to_dev.as_str(), to_cav.as_str()),
            )
        };
        assert(from_val@ == label_pair(ids, cells, row as int).0);
        assert(to_val@ == label_pair(ids, cells, row as int).1);
        res.append(from_val.as_str());
        res.append(",");
        res.append(to_val.as_str());
        res.append("\n");
        proof {
            reveal_strlit(",");
            reveal_strlit("\n");
            assert(lines.take(row + 1).drop_last() =~= lines.take(row as int));
        }
        row = row + 1;
    }
    assert(lines.take(n as int) =~= lines);
    res
}

} // verus!
