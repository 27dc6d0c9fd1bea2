//! Post-processing of VeSys harness and logic design data: wire lists,
//! harness tables, label lists and cutting-machine records, built on a
//! flexible intermediate table.

pub mod text;
pub mod sorting;
pub mod wire_list_columns;
pub mod flexible_table;
pub mod vysisxml;
pub mod vysyslib;
pub mod vysis;
pub mod vesys_table_reader;
pub mod table_convert;
pub mod wirelist;
pub mod shchleuniger;
pub mod harness_commands;
pub mod wire_list_grid;
pub mod element_filter;
pub mod wire_list_xlsx_formatter;
pub mod export_names;

use vstd::prelude::*;

verus! {

} // verus!
