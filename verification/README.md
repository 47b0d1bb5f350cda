# ar_hist

Keeps a history of the initiatives published by the Rostov city
initiative portal and reports how each of them grows week over week.

- `src/` is the verified library:
  - `json_items`: the items of a JSON snapshot (their integer id and
    compact text), parsed and written with `serde_json`;
  - `merge`: merging a snapshot into the items seen so far, and what is
    kept of it once the unchanged items are dropped, with the laws of
    merging;
  - `snapshots`: replaying a history of snapshots (`filter_spahshots`,
    `merged_snapshots`);
  - `types`: the initiatives and their share statistic;
  - `instant`, `text`: points in time as chrono has them (leap seconds
    included, as chrono parses them) and small text conversions;
  - `essential`: the figures of an initiative per snapshot, their weekly
    growth, the report and its CSV lines;
  - `paging`: the addresses of the pages to download, how a page's body
    is read, and the order in which pages are asked for;
  - `sql`: the statements sent to the key-value tables.
- `app/` is the command line program: HTTP, PostgreSQL, Redis, the
  serde types, and the floating-point lifetime of an initiative.
- `tests/` runs the library on concrete snapshots.

The HTTP client is hyper 0.14 on a tokio runtime, which takes the place
of the `tokio_core` event loop and `futures` of older hyper releases;
TLS for PostgreSQL comes from `postgres-openssl`, which takes the place
of the openssl module that older releases of `postgres` had built in.
