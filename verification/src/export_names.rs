//! Naming of exports from a table view: the base name taken from the view's
//! title, the file name of each kind of export, and which exports a view
//! offers.

use vstd::prelude::*;
use crate::flexible_table::{column_ids, first_index, FlexibleTable, TableData};
use crate::harness_commands::{sanitise_name, sanitised_file_name};
use crate::text::to_string;

verus! {

/// The kinds of export of a table view.
#[derive(Clone, Copy, Debug, PartialEq, Eq, Structural)]
pub enum ExportKind {
    Xlsx,
    Csv,
    Schleuniger,
    Labels,
}

/// Whether `sep` occurs in `s` at position `i`.
pub open spec fn occurs_at(s: Seq<char>, sep: Seq<char>, i: int) -> bool {
    0 <= i && i + sep.len() <= s.len() && s.subrange(i, i + sep.len()) == sep
}

/// The last piece of `s` split at `sep`, scanning from position `i` with the
/// current piece starting at `start`: each occurrence found from the left
/// (occurrences do not overlap) starts a new piece after it.
pub open spec fn last_piece_from(s: Seq<char>, sep: Seq<char>, start: int, i: int) -> Seq<char>
    decreases s.len() - i,
{
    if sep.len() == 0 || i < 0 || i + sep.len() > s.len() {
        s.subrange(start, s.len() as int)
    } else if occurs_at(s, sep, i) {
        last_piece_from(s, sep, i + sep.len(), i + sep.len())
    } else {
        last_piece_from(s, sep, start, i + 1)
    }
}

/// The base name of exports from a view titled `title`: the last piece of
/// the title split at ` - `.
pub open spec fn export_base(title: Seq<char>) -> Seq<char> {
    last_piece_from(title, " - "@, 0, 0)
}

/// The file name suffix of each kind of export.
pub open spec fn export_suffix(kind: ExportKind) -> Seq<char> {
    match kind {
        ExportKind::Xlsx => ".xlsx"@,
        ExportKind::Csv => ".csv"@,
        ExportKind::Schleuniger => ".txt"@,
        ExportKind::Labels => " labels.csv"@,
    }
}

/// The file name of an export from a view titled `title`: the base name and
/// the kind's suffix, sanitised.
pub open spec fn export_file_name_of(title: Seq<char>, kind: ExportKind) -> Seq<char> {
    sanitised_file_name(export_base(title) + export_suffix(kind))
}

/// Whether `t` occurs anywhere in `s`.
pub open spec fn contains_text(s: Seq<char>, t: Seq<char>) -> bool {
    exists|i: int| #[trigger] occurs_at(s, t, i)
}

fn occurs_at_exec(s: &str, sep: &str, i: usize) -> (r: bool)
    ensures
        r == occurs_at(s@, sep@, i as int),
{
    let n = s.unicode_len();
    let m = sep.unicode_len();
    if i > n || m > n - i {
        return false;
    }
    let mut j: usize = 0;
    while j < m
        invariant
            n == s@.len(),
            m == sep@.len(),
            i + m <= n,
            j <= m,
            forall|k: int| 0 <= k < j ==> s@[i + k] == sep@[k],
        decreases m - j,
    {
        if s.get_char(i + j) != sep.get_char(j) {
            assert(s@.subrange(i as int, i + m)[j as int] != sep@[j as int]);
            return false;
        }
        j = j + 1;
    }
    assert(s@.subrange(i as int, i + m) =~= sep@);
    true
}

fn last_piece(s: &str, sep: &str) -> (r: String)
    requires
        sep@.len() > 0,
    ensures
        r@ == last_piece_from(s@, sep@, 0, 0),
{
    let n = s.unicode_len();
    let m = sep.unicode_len();
    let mut start: usize = 0;
    let mut i: usize = 0;
    while i <= n && m <= n - i
        invariant
            n == s@.len(),
            m == sep@.len(),
            m > 0,
            start <= i <= n,
            last_piece_from(s@, sep@, 0, 0) == last_piece_from(s@, sep@, start as int, i as int),
        decreases n - i,
    {
        if occurs_at_exec(s, sep, i) {
            i = i + m;
            start = i;
        } else {
            i = i + 1;
        }
    }
    to_string(s.substring_char(start, n))
}

/// The base name of exports from a view titled `title`: the text after the
/// last ` - ` separator (the whole title when there is none).
pub fn export_base_name(title: &str) -> (r: String)
    ensures
        r@ == export_base(title@),
{
    proof {
        reveal_strlit(" - ");
    }
    last_piece(title, " - ")
}

/// The file name of an export of kind `kind` from a view titled `title`.
pub fn export_file_name(title: &str, kind: ExportKind) -> (r: String)
    ensures
        r@ == export_file_name_of(title@, kind),
{
    let mut name = export_base_name(title);
    match kind {
        ExportKind::Xlsx => name.append(".xlsx"),
        ExportKind::Csv => name.append(".csv"),
        ExportKind::Schleuniger => name.append(".txt"),
        ExportKind::Labels => name.append(" labels.csv"),
    }
    sanitise_name(name.as_str())
}

/// Whether a view titled `title` shows connector connections (such views
/// offer no cutting-machine or label export).
pub fn is_connections_view(title: &str) -> (r: bool)
    ensures
        r == contains_text(title@, "connections"@),
{
    let n = title.unicode_len();
    let mut i: usize = 0;
    while i < n
        invariant
            n == title@.len(),
            i <= n,
            forall|k: int| 0 <= k < i ==> !occurs_at(title@, "connections"@, k),
        decreases n - i,
    {
        if occurs_at_exec(title, "connections", i) {
            assert(occurs_at(title@, "connections"@, i as int));
            return true;
        }
        i = i + 1;
    }
    proof {
        reveal_strlit("connections");
    }
    assert forall|k: int| !#[trigger] occurs_at(title@, "connections"@, k) by {
        if 0 <= k && k < n {
        }
    }
    false
}

/// Whether a table is exported with the generic spreadsheet layout: tables
/// with a `pin` column (connector connections) are, wire lists are not.
pub fn uses_generic_xlsx(table: &FlexibleTable) -> (r: bool)
    ensures
        r == (first_index(column_ids(table.columns@), "pin"@) is Some),
{
    table.column_index("pin").is_some()
}

} // verus!
