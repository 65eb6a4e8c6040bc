# database

A small columnar database engine, written in Verus.

- `src/` is the verified library: the variable-length integer coding
  (`vle`), the column file format and its chunks (`format`, `be_bytes`),
  reading, building and summarising whole column files (`column_file`,
  `column_encode`, `column_stats`), table schemas (`schema`), the per-table
  state of the schema manager (`schema_manager`), queries and their planning
  (`query`, `query_id`), running a SELECT (`executor`), and the answers of the
  HTTP interface (`models`, `api`).
- `app/` holds the programs around it: the column file tool
  (`encode`/`decode`) and the query server (`init`/`serve`), with their file,
  network and task handling.
- `tests/` exercises the library on concrete values.
