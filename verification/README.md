# unvesys

Post-processing of VeSys (Capital Essentials) harness and logic design data:
wire lists, harness tables converted to a flexible table, label lists, CSV
dumps, connector connection tables and import files for the Schleuniger wire
cutting machine.

- `src/` is the library, written and proved with Verus. Its contracts state
  the results over plain models (`Seq`, strings as character sequences); its
  public proof functions state the laws that tie operations together (a cell
  reads back what was written, a connector table lists every pin in pin-name
  order, adding the processing column twice changes nothing, ...).
- `app/` holds the file output and user interface glue (CSV and text files,
  the spreadsheet writer, the data grid widget); it is ordinary Rust.
- `tests/` runs the library on concrete values.
