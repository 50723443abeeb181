# candbc_parser

Reading, editing and writing CAN databases (DBC), reading AUTOSAR ARXML
clusters and Vector ASC traces, with the library's behaviour stated in
Verus contracts and proved.

Layout:

- `src/` — the verified library.
  - `dbc/types/` — the keyed database: a slot-map arena of nodes, messages
    and signals, order lists, name and identifier tables, the attribute
    specifications of the database, nodes, messages and signals and the
    attribute values they hold, the attribute values of node-signal and
    node-message relations (`relations.rs`), sorting, and the laws that span
    its operations (`database/laws.rs`). Message attribute values read from
    `BA_ ... BO_` lines are not kept.
  - `dbc/records/` — one decoder per DBC record kind; `dbc/parse.rs` splits a
    file into records and applies them; `dbc/save.rs` writes a database back
    as DBC text; `dbc/create.rs` makes a new database from a given date.
  - `dbc/legacy/`, `dbc/support/` — the list-based database models and their
    line decoders.
  - `arxml/` — the cluster summary read from the XML events, and the
    conversion of CAN clusters into databases.
  - `asc/` — the fields of trace lines, the `date` header and frame times.
  - `text.rs`, `strings.rs` — character-level text functions.
- `tests/` — tests of the library.
- `app/` — files, today's local date for a new database, the AUTOSAR model
  walk and the floating-point parts of the traces, around the library.
