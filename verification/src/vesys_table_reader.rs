//! Reader of VeSys table groups: the column map of visible columns, cell
//! access by column name, and row iteration over all subtables.

use vstd::prelude::*;
use crate::text::{str_eq, to_string};
use crate::vysisxml::{subtable_row_counts, table_row_count, XmlColumnStyle, XmlTableGroup};

verus! {

/// One entry of a reader's column map: an XML column name, the position it
/// was given among the visible columns, and its display name.
#[derive(Clone, Debug)]
pub struct ColumnMapEntry {
    pub name: String,
    pub index: usize,
    pub display: String,
}

/// The view of a column map entry.
pub open spec fn entry_view(e: ColumnMapEntry) -> (Seq<char>, nat, Seq<char>) {
    (e.name@, e.index as nat, e.display@)
}

/// The views of a column map.
pub open spec fn entries_view(v: Seq<ColumnMapEntry>) -> Seq<(Seq<char>, nat, Seq<char>)> {
    v.map_values(|e: ColumnMapEntry| entry_view(e))
}

/// Whether a column style is shown: visible and not hidden when empty.
pub open spec fn style_visible(s: XmlColumnStyle) -> bool {
    s.visibility@ == "true"@ && s.hideempty@ == "false"@
}

/// The number of shown column styles.
pub open spec fn visible_count(styles: Seq<XmlColumnStyle>) -> nat
    decreases styles.len(),
{
    if styles.len() == 0 {
        0
    } else {
        visible_count(styles.drop_last()) + if style_visible(styles.last()) {
            1nat
        } else {
            0nat
        }
    }
}

/// `m` without the entries named `x`.
pub open spec fn remove_name(m: Seq<(Seq<char>, nat, Seq<char>)>, x: Seq<char>) -> Seq<
    (Seq<char>, nat, Seq<char>),
>
    decreases m.len(),
{
    if m.len() == 0 {
        m
    } else {
        let r = remove_name(m.drop_last(), x);
        if m.last().0 == x {
            r
        } else {
            r.push(m.last())
        }
    }
}

/// The column map built from the column styles, in order of position: each
/// shown column is given the next position and replaces any earlier entry of
/// the same name.
pub open spec fn column_map_of(styles: Seq<XmlColumnStyle>) -> Seq<(Seq<char>, nat, Seq<char>)>
    decreases styles.len(),
{
    if styles.len() == 0 {
        Seq::empty()
    } else {
        let prev = column_map_of(styles.drop_last());
        let st = styles.last();
        if style_visible(st) {
            remove_name(prev, st.columnname@).push(
                (st.columnname@, visible_count(styles.drop_last()), st.displayname@),
            )
        } else {
            prev
        }
    }
}

/// The positions of a column map strictly increase and its names are distinct.
pub open spec fn column_map_ordered(m: Seq<(Seq<char>, nat, Seq<char>)>) -> bool {
    forall|i: int, j: int|
        #![trigger m[i], m[j]]
        0 <= i < j < m.len() ==> m[i].1 < m[j].1 && m[i].0 != m[j].0
}

/// The map of names to (position, display) that inserting each shown column
/// in turn into a hash map gives.
pub open spec fn column_map_as_map(styles: Seq<XmlColumnStyle>) -> Map<Seq<char>, (nat, Seq<char>)>
    decreases styles.len(),
{
    if styles.len() == 0 {
        Map::empty()
    } else {
        let prev = column_map_as_map(styles.drop_last());
        let st = styles.last();
        if style_visible(st) {
            prev.insert(st.columnname@, (visible_count(styles.drop_last()), st.displayname@))
        } else {
            prev
        }
    }
}

/// The map a sequence of column map entries stands for.
pub open spec fn entries_to_map(m: Seq<(Seq<char>, nat, Seq<char>)>) -> Map<
    Seq<char>,
    (nat, Seq<char>),
> {
    Map::new(
        |k: Seq<char>| exists|i: int| 0 <= i < m.len() && m[i].0 == k,
        |k: Seq<char>|
            {
                let i = choose|i: int| 0 <= i < m.len() && m[i].0 == k;
                (m[i].1, m[i].2)
            },
    )
}

proof fn lemma_remove_name_contains(m: Seq<(Seq<char>, nat, Seq<char>)>, x: Seq<char>, e: (
    Seq<char>,
    nat,
    Seq<char>,
))
    ensures
        remove_name(m, x).contains(e) <==> (m.contains(e) && e.0 != x),
    decreases m.len(),
{
    if m.len() > 0 {
        let p = m.drop_last();
        lemma_remove_name_contains(p, x, e);
        let r = remove_name(p, x);
        assert(m =~= p.push(m.last()));
        if m.contains(e) && e.0 != x {
            let j = choose|j: int| 0 <= j < m.len() && m[j] == e;
            if j < p.len() {
                assert(p[j] == e);
                let i = choose|i: int| 0 <= i < r.len() && r[i] == e;
                if m.last().0 != x {
                    assert(r.push(m.last())[i] == e);
                }
            } else {
                assert(remove_name(m, x) == r.push(m.last()));
                assert(remove_name(m, x)[r.len() as int] == e);
            }
        }
        if remove_name(m, x).contains(e) {
            let i = choose|i: int| 0 <= i < remove_name(m, x).len() && remove_name(m, x)[i] == e;
            if i < r.len() {
                assert(r[i] == e);
                assert(r.contains(e));
                let j = choose|j: int| 0 <= j < p.len() && p[j] == e;
                assert(m[j] == e);
            } else {
                assert(m[m.len() - 1] == e);
            }
        }
    }
}

proof fn lemma_remove_name_ordered(m: Seq<(Seq<char>, nat, Seq<char>)>, x: Seq<char>)
    requires
        column_map_ordered(m),
    ensures
        column_map_ordered(remove_name(m, x)),
    decreases m.len(),
{
    if m.len() > 0 {
        let p = m.drop_last();
        assert(column_map_ordered(p));
        lemma_remove_name_ordered(p, x);
        let r = remove_name(p, x);
        if m.last().0 != x {
            let q = r.push(m.last());
            assert forall|i: int, j: int| 0 <= i < j < q.len() implies q[i].1 < q[j].1 && q[i].0
                != q[j].0 by {
                if j == r.len() {
                    assert(q[i] == r[i]);
                    assert(r.contains(r[i]));
                    lemma_remove_name_contains(p, x, r[i]);
                    let k = choose|k: int| 0 <= k < p.len() && p[k] == r[i];
                    assert(m[k] == p[k]);
                    assert(m[m.len() - 1] == m.last());
                } else {
                    assert(q[i] == r[i]);
                    assert(q[j] == r[j]);
                }
            }
            assert(remove_name(m, x) == q);
            assert(column_map_ordered(q));
        } else {
            assert(remove_name(m, x) == r);
        }
    }
}

/// Every position in the column map is below the number of shown columns
/// so far, and the map is ordered.
proof fn lemma_column_map_of(styles: Seq<XmlColumnStyle>)
    ensures
        column_map_ordered(column_map_of(styles)),
        forall|e: (Seq<char>, nat, Seq<char>)|
            #[trigger] column_map_of(styles).contains(e) ==> e.1 < visible_count(styles),
    decreases styles.len(),
{
    if styles.len() > 0 {
        let p = styles.drop_last();
        lemma_column_map_of(p);
        let prev = column_map_of(p);
        let st = styles.last();
        if style_visible(st) {
            let x = st.columnname@;
            lemma_remove_name_ordered(prev, x);
            let r = remove_name(prev, x);
            let m = column_map_of(styles);
            assert(m == r.push((x, visible_count(p), st.displayname@)));
            assert forall|e: (Seq<char>, nat, Seq<char>)| #[trigger] m.contains(e) implies e.1
                < visible_count(styles) by {
                let i = choose|i: int| 0 <= i < m.len() && m[i] == e;
                if i < r.len() {
                    assert(r[i] == e);
                    assert(r.contains(e));
                    lemma_remove_name_contains(prev, x, e);
                }
            }
            assert forall|i: int, j: int| 0 <= i < j < m.len() implies m[i].1 < m[j].1 && m[i].0
                != m[j].0 by {
                assert(m[i] == r[i]);
                if j == r.len() {
                    assert(r.contains(r[i]));
                    lemma_remove_name_contains(prev, x, r[i]);
                    assert(prev.contains(r[i]));
                } else {
                    assert(m[j] == r[j]);
                }
            }
            assert(column_map_ordered(m));
        }
    }
}

/// Law: the column map, read as a map, is the hash map that inserting each
/// shown column in turn gives; so each shown column name keeps the position
/// and display name of its last shown occurrence.
pub proof fn lemma_column_map_matches_map(styles: Seq<XmlColumnStyle>)
    ensures
        entries_to_map(column_map_of(styles)) == column_map_as_map(styles),
        column_map_ordered(column_map_of(styles)),
    decreases styles.len(),
{
    lemma_column_map_of(styles);
    if styles.len() > 0 {
        let p = styles.drop_last();
        lemma_column_map_matches_map(p);
        let prev = column_map_of(p);
        let st = styles.last();
        if style_visible(st) {
            let x = st.columnname@;
            let r = remove_name(prev, x);
            let m = column_map_of(styles);
            let mm = entries_to_map(m);
            let pm = entries_to_map(prev);
            let v = (visible_count(p), st.displayname@);
            assert(m == r.push((x, visible_count(p), st.displayname@)));
            assert forall|k: Seq<char>| #[trigger] mm.dom().contains(k) <==> pm.insert(
                x,
                v,
            ).dom().contains(k) by {
                if k != x {
                    if mm.dom().contains(k) {
                        let i = choose|i: int| 0 <= i < m.len() && m[i].0 == k;
                        assert(m[i] == r[i]);
                        assert(r.contains(r[i]));
                        lemma_remove_name_contains(prev, x, r[i]);
                        let j = choose|j: int| 0 <= j < prev.len() && prev[j] == r[i];
                        assert(prev[j].0 == k);
                    }
                    if pm.dom().contains(k) {
                        let j = choose|j: int| 0 <= j < prev.len() && prev[j].0 == k;
                        assert(prev.contains(prev[j]));
                        lemma_remove_name_contains(prev, x, prev[j]);
                        let i = choose|i: int| 0 <= i < r.len() && r[i] == prev[j];
                        assert(m[i] == r[i]);
                        assert(m[i].0 == k);
                    }
                } else {
                    assert(m[m.len() - 1].0 == x);
                }
            }
            assert forall|k: Seq<char>| #[trigger] mm.dom().contains(k) implies mm[k] == pm.insert(
                x,
                v,
            )[k] by {
                let i = choose|i: int| 0 <= i < m.len() && m[i].0 == k;
                if k == x {
                    assert(m[m.len() - 1].0 == x);
                    assert(i == m.len() - 1);
                } else {
                    assert(m[i] == r[i]);
                    assert(r.contains(r[i]));
                    lemma_remove_name_contains(prev, x, r[i]);
                    let j = choose|j: int| 0 <= j < prev.len() && prev[j] == r[i];
                    let j2 = choose|j2: int| 0 <= j2 < prev.len() && prev[j2].0 == k;
                    assert(j == j2);
                }
            }
            assert(mm =~= pm.insert(x, v));
        }
    } else {
        assert(entries_to_map(column_map_of(styles)) =~= Map::empty());
    }
}

/// The position of column `name`, if the column map holds it.
pub open spec fn lookup_index(m: Seq<(Seq<char>, nat, Seq<char>)>, name: Seq<char>) -> Option<nat>
    decreases m.len(),
{
    if m.len() == 0 {
        None
    } else if m[0].0 == name {
        Some(m[0].1)
    } else {
        lookup_index(m.drop_first(), name)
    }
}

/// The text of the cell of column `name` in row `row` of subtable `sub`, or
/// the error message when the column, the data cache, the row or the cell is
/// missing.
pub open spec fn subtable_cell(
    g: XmlTableGroup,
    m: Seq<(Seq<char>, nat, Seq<char>)>,
    sub: int,
    name: Seq<char>,
    row: int,
) -> Result<Seq<char>, Seq<char>> {
    match lookup_index(m, name) {
        None => Err("Invalid column name!"@),
        Some(c) => match g.tablefamily.table@[sub].tabledatacache {
            None => Err("Table data cache missing!"@),
            Some(cache) => if row < cache.datavalues.datarow@.len() {
                if c < cache.datavalues.datarow@[row].cellval@.len() {
                    Ok(cache.datavalues.datarow@[row].cellval@[c as int].cval.val@)
                } else {
                    Err("Column index out of bounds!"@)
                }
            } else {
                Err("Row index out of bounds!"@)
            },
        },
    }
}

/// The view of a cell lookup's result.
pub open spec fn cell_result_view(r: Result<&str, String>) -> Result<Seq<char>, Seq<char>> {
    match r {
        Ok(s) => Ok(s@),
        Err(e) => Err(e@),
    }
}

/// The (subtable, row) positions that row iteration visits from subtable `s`,
/// row `r` on: each row of each subtable in turn, and a single position
/// (row 0) for a subtable without rows.
pub open spec fn positions_from(counts: Seq<nat>, s: nat, r: nat) -> Seq<(nat, nat)>
    decreases counts.len() - s, counts[s as int] - r,
{
    if s >= counts.len() {
        Seq::empty()
    } else if r + 1 >= counts[s as int] {
        seq![(s, r)] + positions_from(counts, s + 1, 0)
    } else {
        seq![(s, r)] + positions_from(counts, s, r + 1)
    }
}

/// The number of rows a subtable contributes: its row count, and one for an
/// empty subtable.
pub open spec fn rows_visited(counts: Seq<nat>) -> nat
    decreases counts.len(),
{
    if counts.len() == 0 {
        0
    } else {
        rows_visited(counts.drop_first()) + if counts[0] == 0 {
            1
        } else {
            counts[0]
        }
    }
}

proof fn lemma_positions_len(counts: Seq<nat>, s: nat, r: nat)
    requires
        s < counts.len(),
        r == 0 || r < counts[s as int],
    ensures
        positions_from(counts, s, r).len() == rows_visited(counts.subrange(s as int, counts.len() as int))
            - r,
    decreases counts.len() - s, counts[s as int] - r,
{
    let rest = counts.subrange(s as int, counts.len() as int);
    assert(rest[0] == counts[s as int]);
    assert(rest.drop_first() =~= counts.subrange(s + 1int, counts.len() as int));
    assert(rows_visited(rest) == rows_visited(rest.drop_first()) + if counts[s as int] == 0 {
        1
    } else {
        counts[s as int]
    });
    if r + 1 >= counts[s as int] {
        assert(positions_from(counts, s, r) == seq![(s, r)] + positions_from(counts, s + 1, 0));
        if s + 1 < counts.len() {
            lemma_positions_len(counts, s + 1, 0);
            assert(positions_from(counts, s + 1, 0).len() == rows_visited(rest.drop_first()));
        } else {
            assert(positions_from(counts, s + 1, 0).len() == 0);
            assert(counts.subrange(s + 1int, counts.len() as int).len() == 0);
        }
    } else {
        assert(positions_from(counts, s, r) == seq![(s, r)] + positions_from(counts, s, r + 1));
        lemma_positions_len(counts, s, r + 1);
    }
}

/// Law: row iteration visits every row of every subtable once, and one row
/// for each subtable without rows.
pub proof fn lemma_row_iteration_count(counts: Seq<nat>)
    ensures
        positions_from(counts, 0, 0).len() == rows_visited(counts),
{
    if counts.len() > 0 {
        lemma_positions_len(counts, 0, 0);
        assert(counts.subrange(0, counts.len() as int) =~= counts);
    }
}

/// Every position that row iteration visits names a subtable of the group.
proof fn lemma_positions_in_range(counts: Seq<nat>, s: nat, r: nat, k: int)
    requires
        0 <= k < positions_from(counts, s, r).len(),
    ensures
        positions_from(counts, s, r)[k].0 < counts.len(),
    decreases counts.len() - s, counts[s as int] - r,
{
    if s < counts.len() && k > 0 {
        if r + 1 >= counts[s as int] {
            lemma_positions_in_range(counts, s + 1, 0, k - 1);
        } else {
            lemma_positions_in_range(counts, s, r + 1, k - 1);
        }
    }
}

/// The rows a subtable of `c` rows shows: its rows, or one for an empty
/// subtable.
pub open spec fn row_span(c: nat) -> nat {
    if c == 0 {
        1
    } else {
        c
    }
}

/// Whether (subtable, row) position `q` is one that row iteration visits:
/// a subtable of the group, and one of the rows it shows.
pub open spec fn visited_position(counts: Seq<nat>, q: (nat, nat)) -> bool {
    q.0 < counts.len() && q.1 < row_span(counts[q.0 as int])
}

/// Lexicographic order on (subtable, row) positions.
pub open spec fn position_before(a: (nat, nat), b: (nat, nat)) -> bool {
    a.0 < b.0 || (a.0 == b.0 && a.1 < b.1)
}

/// The total of the row counts.
pub open spec fn total_rows(counts: Seq<nat>) -> nat
    decreases counts.len(),
{
    if counts.len() == 0 {
        0
    } else {
        total_rows(counts.drop_first()) + counts[0]
    }
}

proof fn lemma_positions_lex(counts: Seq<nat>, s: nat, r: nat)
    requires
        s < counts.len() ==> r < row_span(counts[s as int]),
    ensures
        forall|k: int|
            0 <= k < positions_from(counts, s, r).len() ==> visited_position(
                counts,
                #[trigger] positions_from(counts, s, r)[k],
            ) && !position_before(positions_from(counts, s, r)[k], (s, r)),
        forall|q: (nat, nat)|
            visited_position(counts, q) && !position_before(q, (s, r)) ==> #[trigger] positions_from(
                counts,
                s,
                r,
            ).contains(q),
        forall|i: int, j: int|
            0 <= i < j < positions_from(counts, s, r).len() ==> position_before(
                #[trigger] positions_from(counts, s, r)[i],
                #[trigger] positions_from(counts, s, r)[j],
            ),
    decreases counts.len() - s, counts[s as int] - r,
{
    let p = positions_from(counts, s, r);
    if s < counts.len() {
        let n: (nat, nat) = if r + 1 >= counts[s as int] {
            ((s + 1) as nat, 0nat)
        } else {
            (s, (r + 1) as nat)
        };
        let tail = positions_from(counts, n.0, n.1);
        lemma_positions_lex(counts, n.0, n.1);
        assert(p == seq![(s, r)] + tail);
        assert forall|k: int| 0 <= k < p.len() implies visited_position(counts, #[trigger] p[k])
            && !position_before(p[k], (s, r)) by {
            if k > 0 {
                assert(p[k] == tail[k - 1]);
            }
        }
        assert forall|q: (nat, nat)|
            visited_position(counts, q) && !position_before(q, (s, r)) implies #[trigger] p.contains(
            q,
        ) by {
            if q == (s, r) {
                assert(p[0] == q);
            } else {
                assert(!position_before(q, n));
                assert(tail.contains(q));
                let k = choose|k: int| 0 <= k < tail.len() && tail[k] == q;
                assert(p[k + 1] == q);
            }
        }
        assert forall|i: int, j: int| 0 <= i < j < p.len() implies position_before(
            #[trigger] p[i],
            #[trigger] p[j],
        ) by {
            assert(p[j] == tail[j - 1]);
            if i > 0 {
                assert(p[i] == tail[i - 1]);
            }
        }
    }
}

proof fn lemma_total_rows(counts: Seq<nat>)
    requires
        forall|i: int| 0 <= i < counts.len() ==> #[trigger] counts[i] >= 1,
    ensures
        rows_visited(counts) == total_rows(counts),
    decreases counts.len(),
{
    if counts.len() > 0 {
        let t = counts.drop_first();
        assert forall|i: int| 0 <= i < t.len() implies #[trigger] t[i] >= 1 by {
            assert(t[i] == counts[i + 1]);
        }
        lemma_total_rows(t);
        assert(counts[0] >= 1);
    }
}

/// Row iteration visits the positions in lexicographic order: exactly the
/// (subtable, row) pairs with a subtable of the group and one of its rows
/// (row 0 for a subtable without rows), each once, subtable by subtable and
/// row by row. When every subtable has rows, that is as many positions as
/// the subtables have rows in all.
pub proof fn lemma_row_iteration_order(counts: Seq<nat>)
    ensures
        forall|k: int|
            0 <= k < positions_from(counts, 0, 0).len() ==> visited_position(
                counts,
                #[trigger] positions_from(counts, 0, 0)[k],
            ),
        forall|q: (nat, nat)|
            visited_position(counts, q) ==> #[trigger] positions_from(counts, 0, 0).contains(q),
        forall|i: int, j: int|
            0 <= i < j < positions_from(counts, 0, 0).len() ==> position_before(
                #[trigger] positions_from(counts, 0, 0)[i],
                #[trigger] positions_from(counts, 0, 0)[j],
            ),
        (forall|s: int| 0 <= s < counts.len() ==> #[trigger] counts[s] >= 1) ==> positions_from(
            counts,
            0,
            0,
        ).len() == total_rows(counts),
{
    lemma_positions_lex(counts, 0, 0);
    assert forall|q: (nat, nat)| visited_position(counts, q) implies #[trigger] positions_from(
        counts,
        0,
        0,
    ).contains(q) by {
        assert(!position_before(q, (0nat, 0nat)));
    }
    lemma_row_iteration_count(counts);
    if forall|s: int| 0 <= s < counts.len() ==> #[trigger] counts[s] >= 1 {
        lemma_total_rows(counts);
    }
}

/// Convenience parser of VeSys tables.
#[derive(Debug)]
pub struct VysysTableReader<'a> {
    tablegroup: &'a XmlTableGroup,
    column_map: Vec<ColumnMapEntry>,
}

impl<'a> VysysTableReader<'a> {
    /// The table group read.
    pub closed spec fn group(&self) -> XmlTableGroup {
        *self.tablegroup
    }

    /// The column map, in order of position.
    pub closed spec fn column_map_view(&self) -> Seq<(Seq<char>, nat, Seq<char>)> {
        entries_view(self.column_map@)
    }

    #[verifier::type_invariant]
    spec fn inv(&self) -> bool {
        column_map_ordered(entries_view(self.column_map@))
    }

    /// A reader whose column map holds each shown column of `tablegroup`.
    pub fn new(tablegroup: &'a XmlTableGroup) -> (r: VysysTableReader<'a>)
        ensures
            r.group() == *tablegroup,
            r.column_map_view() == column_map_of(tablegroup.columnstyle@),
            column_map_ordered(r.column_map_view()),
    {
        let styles = &tablegroup.columnstyle;
        let mut column_map: Vec<ColumnMapEntry> = Vec::new();
        let mut index: usize = 0;
        let mut i: usize = 0;
        while i < styles.len()
            invariant
                i <= styles@.len(),
                index == visible_count(styles@.take(i as int)),
                index <= i,
                entries_view(column_map@) == column_map_of(styles@.take(i as int)),
            decreases styles@.len() - i,
        {
            let st = &styles[i];
            let ghost pre = styles@.take(i as int);
            assert(styles@.take(i + 1).drop_last() =~= pre);
            assert(styles@.take(i + 1).last() == *st);
            if str_eq(st.visibility.as_str(), "true") && str_eq(st.hideempty.as_str(), "false") {
                let mut kept: Vec<ColumnMapEntry> = Vec::new();
                let ghost m = entries_view(column_map@);
                let mut j: usize = 0;
                while j < column_map.len()
                    invariant
                        j <= column_map@.len(),
                        m == entries_view(column_map@),
                        entries_view(kept@) == remove_name(m.take(j as int), st.columnname@),
                    decreases column_map@.len() - j,
                {
                    assert(m.take(j + 1).drop_last() =~= m.take(j as int));
                    if !str_eq(column_map[j].name.as_str(), st.columnname.as_str()) {
                        let e = ColumnMapEntry {
                            name: column_map[j].name.clone(),
                            index: column_map[j].index,
                            display: column_map[j].display.clone(),
                        };
                        let ghost prev = kept@;
                        kept.push(e);
                        assert(entries_view(kept@) =~= entries_view(prev).push(entry_view(e)));
                    }
                    j = j + 1;
                }
                assert(m.take(column_map@.len() as int) =~= m);
                let e = ColumnMapEntry {
                    name: st.columnname.clone(),
                    index,
                    display: st.displayname.clone(),
                };
                let ghost prev = kept@;
                kept.push(e);
                assert(entries_view(kept@) =~= entries_view(prev).push(entry_view(e)));
                column_map = kept;
                index = index + 1;
            }
            i = i + 1;
        }
        assert(styles@.take(styles@.len() as int) =~= styles@);
        proof {
            lemma_column_map_of(styles@);
        }
        VysysTableReader { tablegroup, column_map }
    }

    /// The column map, in order of position.
    pub fn column_map(&self) -> (r: &Vec<ColumnMapEntry>)
        ensures
            entries_view(r@) == self.column_map_view(),
            column_map_ordered(self.column_map_view()),
    {
        proof {
            use_type_invariant(self);
        }
        &self.column_map
    }

    /// The number of subtables.
    pub fn get_subtable_count(&self) -> (n: usize)
        ensures
            n == self.group().tablefamily.table@.len(),
    {
        self.tablegroup.tablefamily.table.len()
    }

    /// The number of data rows of a subtable: zero without a data cache.
    pub fn get_subtable_row_count(&self, subtable_index: usize) -> (n: usize)
        requires
            subtable_index < self.group().tablefamily.table@.len(),
        ensures
            n == subtable_row_counts(self.group())[subtable_index as int],
    {
        if let Some(tabledatacache) = &self.tablegroup.tablefamily.table[subtable_index].tabledatacache {
            tabledatacache.datavalues.datarow.len()
        } else {
            0
        }
    }

    fn lookup_column_index(&self, column_name: &str) -> (r: Option<usize>)
        ensures
            match r {
                Some(c) => lookup_index(self.column_map_view(), column_name@) == Some(c as nat),
                None => lookup_index(self.column_map_view(), column_name@) is None,
            },
    {
        let mut k: usize = 0;
        let ghost m = self.column_map_view();
        assert(m.skip(0) =~= m);
        while k < self.column_map.len()
            invariant
                k <= self.column_map@.len(),
                m == entries_view(self.column_map@),
                lookup_index(m, column_name@) == lookup_index(m.skip(k as int), column_name@),
            decreases self.column_map@.len() - k,
        {
            assert(m.skip(k as int)[0] == m[k as int]);
            if str_eq(self.column_map[k].name.as_str(), column_name) {
                return Some(self.column_map[k].index);
            }
            assert(m.skip(k as int).drop_first() =~= m.skip(k + 1));
            k = k + 1;
        }
        None
    }

    /// The text of the cell of column `column_name` in a row of a subtable.
    pub fn get_subtable_cell(&self, subtable_index: usize, column_name: &str, row_index: usize) -> (r:
        Result<&str, String>)
        requires
            lookup_index(self.column_map_view(), column_name@) is Some ==> subtable_index
                < self.group().tablefamily.table@.len(),
        ensures
            cell_result_view(r) == subtable_cell(
                self.group(),
                self.column_map_view(),
                subtable_index as int,
                column_name@,
                row_index as int,
            ),
    {
        let found = self.lookup_column_index(column_name);
        match found {
            None => Err(to_string("Invalid column name!")),
            Some(column_index) => {
                let subtable = &self.tablegroup.tablefamily.table[subtable_index];
                match &subtable.tabledatacache {
                    Some(cache) => {
                        if row_index < cache.datavalues.datarow.len() {
                            if column_index < cache.datavalues.datarow[row_index].cellval.len() {
                                Ok(
                                    cache.datavalues.datarow[row_index].cellval[column_index].cval.val.as_str(),
                                )
                            } else {
                                Err(to_string("Column index out of bounds!"))
                            }
                        } else {
                            Err(to_string("Row index out of bounds!"))
                        }
                    },
                    None => Err(to_string("Table data cache missing!")),
                }
            },
        }
    }

    /// An iterator over the rows of all subtables.
    pub fn get_row_iter(&self) -> (it: VysysTableRowIter<'_>)
        ensures
            it.reader() == *self,
            it.remaining() == positions_from(subtable_row_counts(self.group()), 0, 0),
    {
        VysysTableRowIter { table_reader: self, subtable_index: 0, row_index: 0 }
    }
}

/// A row of a table group, by subtable and row position.
pub struct VysysTableRow<'a> {
    table_reader: &'a VysysTableReader<'a>,
    subtable_index: usize,
    row_index: usize,
}

impl<'a> VysysTableRow<'a> {
    /// The reader the row belongs to.
    pub closed spec fn reader(&self) -> VysysTableReader<'a> {
        *self.table_reader
    }

    /// The (subtable, row) position.
    pub closed spec fn position(&self) -> (nat, nat) {
        (self.subtable_index as nat, self.row_index as nat)
    }

    #[verifier::type_invariant]
    spec fn inv(&self) -> bool {
        self.subtable_index < self.table_reader.group().tablefamily.table@.len()
    }

    /// The text of the cell of column `column_name` in this row.
    pub fn get_column(&self, column_name: &str) -> (r: Result<&str, String>)
        ensures
            cell_result_view(r) == subtable_cell(
                self.reader().group(),
                self.reader().column_map_view(),
                self.position().0 as int,
                column_name@,
                self.position().1 as int,
            ),
    {
        proof {
            use_type_invariant(self);
        }
        self.table_reader.get_subtable_cell(self.subtable_index, column_name, self.row_index)
    }
}

/// Iteration state over the rows of all subtables.
pub struct VysysTableRowIter<'a> {
    table_reader: &'a VysysTableReader<'a>,
    subtable_index: usize,
    row_index: usize,
}

impl<'a> VysysTableRowIter<'a> {
    /// The reader iterated.
    pub closed spec fn reader(&self) -> VysysTableReader<'a> {
        *self.table_reader
    }

    /// The positions still to be visited.
    pub closed spec fn remaining(&self) -> Seq<(nat, nat)> {
        positions_from(
            subtable_row_counts(self.table_reader.group()),
            self.subtable_index as nat,
            self.row_index as nat,
        )
    }

    #[verifier::type_invariant]
    spec fn inv(&self) -> bool {
        let counts = subtable_row_counts(self.table_reader.group());
        &&& self.subtable_index <= counts.len()
        &&& self.row_index == 0 || (self.subtable_index < counts.len() && self.row_index
            < counts[self.subtable_index as int])
    }

    /// The next row, advancing the iteration; `None` once every position has
    /// been visited.
    pub fn next(&mut self) -> (r: Option<VysysTableRow<'a>>)
        ensures
            final(self).reader() == old(self).reader(),
            old(self).remaining().len() > 0 ==> {
                &&& r is Some
                &&& r->0.reader() == old(self).reader()
                &&& r->0.position() == old(self).remaining()[0]
                &&& final(self).remaining() == old(self).remaining().drop_first()
            },
            old(self).remaining().len() == 0 ==> r is None && final(self).remaining() == old(
                self,
            ).remaining(),
    {
        proof {
            use_type_invariant(&*self);
        }
        let reader = self.table_reader;
        let s = self.subtable_index;
        let r = self.row_index;
        if s >= reader.get_subtable_count() {
            return None;
        }
        let current_row = VysysTableRow { table_reader: reader, subtable_index: s, row_index: r };
        let row_count = reader.get_subtable_row_count(s);
        let ghost counts = subtable_row_counts(reader.group());
        if r + 1 >= row_count {
            *self = VysysTableRowIter { table_reader: reader, subtable_index: s + 1, row_index: 0 };
        } else {
            *self = VysysTableRowIter { table_reader: reader, subtable_index: s, row_index: r + 1 };
        }
        Some(current_row)
    }
}

/// A row that iteration yields reads, in every column, what the reader
/// gives for the row's position: its subtable is one of the group's (so the
/// reader can be asked for any column there), and the row's cell is the
/// reader's cell at that subtable and row.
pub proof fn lemma_yielded_row_reads_reader_cell<'a>(
    it: VysysTableRowIter<'a>,
    row: VysysTableRow<'a>,
    column_name: Seq<char>,
)
    requires
        it.remaining().len() > 0,
        row.reader() == it.reader(),
        row.position() == it.remaining()[0],
    ensures
        row.position().0 < it.reader().group().tablefamily.table@.len(),
        subtable_cell(
            row.reader().group(),
            row.reader().column_map_view(),
            row.position().0 as int,
            column_name,
            row.position().1 as int,
        ) == subtable_cell(
            it.reader().group(),
            it.reader().column_map_view(),
            row.position().0 as int,
            column_name,
            row.position().1 as int,
        ),
{
    let counts = subtable_row_counts(it.reader().group());
    assert(it.remaining() == positions_from(
        counts,
        it.subtable_index as nat,
        it.row_index as nat,
    ));
    lemma_positions_in_range(counts, it.subtable_index as nat, it.row_index as nat, 0);
}

} // verus!
