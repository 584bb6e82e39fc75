# oracle_etl

Tools that move large Oracle tables elsewhere in parallel:

* `load`: streams rows from Oracle with several readers (each selecting its own
  `ORA_HASH` bucket), batches them, and POSTs the batches to Kinetica's
  `/insert/records/json` with several writers, retrying with capped backoff.
* `export`: splits a query's rows between worker threads by OFFSET/FETCH and
  writes them as Snappy-compressed Parquet files.

Layout:

* `src/` — the library, verified with Verus: configuration defaults and
  validation (`config`), per-reader SQL (`sql`), row batching (`batching`),
  insert endpoint, request body and retry policy (`writer`), the exporter's
  work split, file cuts, column layout and file names (`export`), string
  helpers (`text`) and the demo messages (`messages`).
* `app/` — the command-line program: files, database connections, HTTP,
  threads and async tasks, Arrow/Parquet writing.
* `tests/` — tests of the library on concrete values.
