//! The parts of the VeSys project XML document that the table, wire list and
//! connector logic reads, as plain values.

use vstd::prelude::*;

verus! {

/// Display settings of one column of a table group.
#[derive(Clone, Debug)]
pub struct XmlColumnStyle {
    pub columnname: String,
    pub displayname: String,
    pub visibility: String,
    pub hideempty: String,
}

/// A cell value.
#[derive(Clone, Debug)]
pub struct XmlCval {
    pub val: String,
}

/// A cell of a table row.
#[derive(Clone, Debug)]
pub struct XmlCellVal {
    pub cval: XmlCval,
}

/// A data row of a table.
#[derive(Clone, Debug)]
pub struct XmlDataRow {
    pub cellval: Vec<XmlCellVal>,
}

/// The data rows of a table.
#[derive(Clone, Debug)]
pub struct XmlDataValues {
    pub datarow: Vec<XmlDataRow>,
}

/// The header row of a table.
#[derive(Clone, Debug)]
pub struct XmlHeaderRow {
    pub cellvals: Vec<XmlCellVal>,
}

/// The column header names of a table.
#[derive(Clone, Debug)]
pub struct XmlColHdrNames {
    pub row: XmlHeaderRow,
}

/// The cached contents of a table.
#[derive(Clone, Debug)]
pub struct XmlTableDataCache {
    pub colhdrnames: XmlColHdrNames,
    pub datavalues: XmlDataValues,
}

/// One (sub)table of a table family.
#[derive(Clone, Debug)]
pub struct XmlTable {
    pub tabledatacache: Option<XmlTableDataCache>,
}

/// The tables of a table group.
#[derive(Clone, Debug)]
pub struct XmlTableFamily {
    pub table: Vec<XmlTable>,
}

/// A table group of a harness design (for example the `HarnessWireTable`).
#[derive(Clone, Debug)]
pub struct XmlTableGroup {
    pub title: String,
    pub decorationname: String,
    pub columnstyle: Vec<XmlColumnStyle>,
    pub tablefamily: XmlTableFamily,
}

/// A pin of a connector.
#[derive(Clone, Debug)]
pub struct XmlPin {
    pub id: String,
    pub name: String,
}

/// A connector with its pins.
#[derive(Clone, Debug)]
pub struct XmlConnector {
    pub name: String,
    pub harness: Option<String>,
    pub pin: Vec<XmlPin>,
}

/// A connection of a wire, by pin reference.
#[derive(Clone, Debug)]
pub struct XmlConnectionRef {
    pub pinref: String,
}

/// The number of data rows of subtable `t`: zero when it has no data cache.
pub open spec fn table_row_count(t: XmlTable) -> nat {
    match t.tabledatacache {
        Some(c) => c.datavalues.datarow@.len(),
        None => 0,
    }
}

/// The number of data rows of each subtable of a group.
pub open spec fn subtable_row_counts(g: XmlTableGroup) -> Seq<nat> {
    g.tablefamily.table@.map_values(|t: XmlTable| table_row_count(t))
}

} // verus!
