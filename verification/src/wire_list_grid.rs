//! The row logic of the wire list data grid: column names, cell order for
//! sorting, cell copying, new and cloned rows, and group separators.

use vstd::prelude::*;
use crate::flexible_table::{default_meta, meta_view, FlexibleRow, RowMeta};
use crate::text::{lex_order, str_order, strings_view, Order};

verus! {

/// Row viewer of a wire list grid: the column names it shows.
pub struct WireListRowViewer {
    pub column_names: Vec<String>,
}

/// The text of cell `col` of a row, or empty where the row has none.
pub open spec fn cell_or_empty(cells: Seq<Seq<char>>, col: int) -> Seq<char> {
    if 0 <= col < cells.len() {
        cells[col]
    } else {
        Seq::empty()
    }
}

/// A row's cells after copying cell `col` from `src`: where both rows hold
/// the cell it is replaced; where `dst` is too short it is first padded
/// with empty cells up to `col`, then takes `src`'s cell if there is one.
pub open spec fn copied_cells(src: Seq<Seq<char>>, dst: Seq<Seq<char>>, col: int) -> Seq<Seq<char>> {
    if col < src.len() && col < dst.len() {
        dst.update(col, src[col])
    } else if col >= dst.len() {
        let padded = dst + Seq::new((col + 1 - dst.len()) as nat, |i: int| Seq::<char>::empty());
        if col < src.len() {
            padded.update(col, src[col])
        } else {
            padded
        }
    } else {
        dst
    }
}

fn clone_strings(v: &[String]) -> (r: Vec<String>)
    ensures
        strings_view(r@) == strings_view(v@),
{
    let mut r: Vec<String> = Vec::new();
    let mut i: usize = 0;
    while i < v.len()
        invariant
            i <= v@.len(),
            strings_view(r@) == strings_view(v@.take(i as int)),
        decreases v@.len() - i,
    {
        r.push(v[i].clone());
        assert(strings_view(v@.take(i + 1)) =~= strings_view(v@.take(i as int)).push(v@[i as int]@));
        assert(strings_view(r@) =~= strings_view(v@.take(i + 1)));
        i = i + 1;
    }
    assert(v@.take(v@.len() as int) =~= v@);
    r
}

impl WireListRowViewer {
    /// A viewer showing `columns`.
    pub fn new(columns: &[String]) -> (r: Self)
        ensures
            strings_view(r.column_names@) == strings_view(columns@),
    {
        WireListRowViewer { column_names: clone_strings(columns) }
    }

    /// The number of columns shown.
    pub fn num_columns(&self) -> (n: usize)
        ensures
            n == self.column_names@.len(),
    {
        self.column_names.len()
    }

    /// The name of column `column`, or empty past the last column.
    pub fn column_name(&self, column: usize) -> (r: String)
        ensures
            r@ == cell_or_empty(strings_view(self.column_names@), column as int),
    {
        if column < self.column_names.len() {
            self.column_names[column].clone()
        } else {
            String::new()
        }
    }

    /// Every shown column can be sorted.
    pub fn is_sortable_column(&self, column: usize) -> (r: bool)
        ensures
            r == (column < self.column_names@.len()),
    {
        column < self.column_names.len()
    }

    /// The order of two rows by cell `col` (missing cells read as empty);
    /// rows are equal for a column past the last shown one.
    pub fn compare_cells(&self, a: &FlexibleRow, b: &FlexibleRow, col: usize) -> (r: Order)
        ensures
            r == if col >= self.column_names@.len() {
                Order::Equal
            } else {
                lex_order(
                    cell_or_empty(strings_view(a.cells@), col as int),
                    cell_or_empty(strings_view(b.cells@), col as int),
                )
            },
    {
        if col >= self.column_names.len() {
            return Order::Equal;
        }
        let a_val: &str = if col < a.cells.len() {
            a.cells[col].as_str()
        } else {
            proof {
                reveal_strlit("");
            }
            ""
        };
        let b_val: &str = if col < b.cells.len() {
            b.cells[col].as_str()
        } else {
            proof {
                reveal_strlit("");
            }
            ""
        };
        assert(a_val@ =~= cell_or_empty(strings_view(a.cells@), col as int));
        assert(b_val@ =~= cell_or_empty(strings_view(b.cells@), col as int));
        str_order(a_val, b_val)
    }

    /// Copy cell `column` from `src` to `dst`, padding `dst` with empty
    /// cells where it is too short; the metadata stays.
    pub fn set_cell_value(&self, src: &FlexibleRow, dst: &mut FlexibleRow, column: usize)
        requires
            column < usize::MAX,
        ensures
            strings_view(final(dst).cells@) == copied_cells(
                strings_view(src.cells@),
                strings_view(old(dst).cells@),
                column as int,
            ),
            meta_view(final(dst).meta) == meta_view(old(dst).meta),
    {
        let ghost s = strings_view(src.cells@);
        let ghost d = strings_view(dst.cells@);
        if column < src.cells.len() && column < dst.cells.len() {
            dst.cells.set(column, src.cells[column].clone());
            assert(strings_view(dst.cells@) =~= d.update(column as int, s[column as int]));
        } else if column >= dst.cells.len() {
            let ghost start = dst.cells@.len();
            let ghost padded = d + Seq::new(
                (column + 1 - d.len()) as nat,
                |i: int| Seq::<char>::empty(),
            );
            while dst.cells.len() < column + 1
                invariant
                    start <= dst.cells@.len() <= column + 1,
                    start == d.len(),
                    column < usize::MAX,
                    meta_view(dst.meta) == meta_view(old(dst).meta),
                    forall|i: int| 0 <= i < start ==> #[trigger] strings_view(dst.cells@)[i] == d[i],
                    forall|i: int|
                        start <= i < dst.cells@.len() ==> #[trigger] strings_view(dst.cells@)[i]
                            == Seq::<char>::empty(),
                decreases column + 1 - dst.cells@.len(),
            {
                let ghost before = dst.cells@;
                dst.cells.push(String::new());
                assert(strings_view(dst.cells@) =~= strings_view(before).push(Seq::<char>::empty()));
            }
            assert(strings_view(dst.cells@) =~= padded);
            if column < src.cells.len() {
                dst.cells.set(column, src.cells[column].clone());
                assert(strings_view(dst.cells@) =~= padded.update(column as int, s[column as int]));
            }
        }
    }

    /// A new row with one empty cell per shown column and default metadata.
    pub fn new_empty_row(&self) -> (r: FlexibleRow)
        ensures
            strings_view(r.cells@) == Seq::new(
                self.column_names@.len(),
                |i: int| Seq::<char>::empty(),
            ),
            meta_view(r.meta) == default_meta(),
    {
        let n = self.column_names.len();
        let mut cells: Vec<String> = Vec::new();
        while cells.len() < n
            invariant
                cells@.len() <= n,
                n == self.column_names@.len(),
                forall|i: int| 0 <= i < cells@.len() ==> #[trigger] cells@[i]@ == Seq::<char>::empty(),
            decreases n - cells@.len(),
        {
            cells.push(String::new());
        }
        assert(strings_view(cells@) =~= Seq::new(n as nat, |i: int| Seq::<char>::empty()));
        FlexibleRow { cells, meta: RowMeta::default() }
    }

    /// A copy of a row: the same cells and metadata.
    pub fn clone_row(&self, row: &FlexibleRow) -> (r: FlexibleRow)
        ensures
            strings_view(r.cells@) == strings_view(row.cells@),
            meta_view(r.meta) == meta_view(row.meta),
    {
        let color_code = match &row.meta.color_code {
            Some(c) => Some(c.clone()),
            None => None,
        };
        FlexibleRow {
            cells: clone_strings(row.cells.as_slice()),
            meta: RowMeta { group_boundary_below: row.meta.group_boundary_below, color_code },
        }
    }

    /// Whether a group separator is drawn below the row.
    pub fn row_separator_below(&self, row: &FlexibleRow) -> (r: bool)
        ensures
            r == row.meta.group_boundary_below,
    {
        row.meta.group_boundary_below
    }

    /// Separators can be edited.
    pub fn row_separator_editable(&self) -> (r: bool)
        ensures
            r,
    {
        true
    }

    /// Toggle the group separator below the row; cells and color stay.
    pub fn toggle_separator_below(&self, row: &mut FlexibleRow)
        ensures
            final(row).meta.group_boundary_below == !old(row).meta.group_boundary_below,
            final(row).meta.color_code == old(row).meta.color_code,
            final(row).cells == old(row).cells,
    {
        row.meta.group_boundary_below = !row.meta.group_boundary_below;
    }
}

} // verus!
