# wxyc_etl

Shared ETL building blocks for the WXYC music-library caches (Discogs,
MusicBrainz, Wikidata, the station library): text normalization, artist
splitting and filtering, PostgreSQL COPY buffering, pipeline batching and
dedup decisions, resumable pipeline state, and schema constants.

The library under `src/` is written in Verus. Most functions carry a
`requires`/`ensures` contract over mathematical models (`Seq`, `Set`,
`Map`, views of the library's types). Laws the library promises (idempotence of
the normalization steps where it holds, batches as chunks of the input,
save/load round trips, state migration rules) are stated and proved as
public proof functions next to the code they speak of.

Two traits are implemented by users of the library: `CopyTarget` (a COPY
sink such as a PostgreSQL connection) and `PipelineOutput`. Each declares
a spec log of its calls, and the contracts of `BatchCopier::flush` and
the pipeline's item handling are stated over those logs: for a flush, the
COPY operations handed to the target in FK order, with their statements
and data, and the target's own error when it refuses one. Implementations
outside Verus (the PostgreSQL target in `app/`, the test doubles) are not
checked against these logs.

Calls into outside crates (Unicode normalization and categories,
transliteration, string distance, UUIDs) go through small trusted
wrappers whose contracts name or state what the crate returns.

Layout:

- `src/text/`: storage, match, ASCII and identity forms; mojibake repair;
  the fold registry; artist splitting; compilation detection; filters.
- `src/pg/`: COPY TEXT escaping, NUL handling, batch copier, dedup sets,
  admin statements.
- `src/pipeline/`: batching, per-item outcomes and statistics.
- `src/state/`: resumable pipeline state, with version migration.
- `src/fuzzy/`: token and LCS counts, sorting, library index.
- `src/import/`, `src/schema/`, `src/cli.rs`, `src/logger.rs`,
  `src/sqlite.rs`, `src/csv_writer.rs`, `src/parser/`: the rest of the
  logic of the crate.
- `app/`: the parts that touch files, databases, threads, the
  environment and floating-point scores, built on the library.
- `tests/`: the test suite.
