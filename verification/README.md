# shellist

Parse shell history (bash, zsh, fish), count commands, and rank them by
frequency. A library, with a `shellist` command around it, verified with Verus.

## Layout

- `src/` — the verified library.
  - `parsers/` — the bash, zsh (extended history) and fish parsers.
  - `models.rs` — history entries, and stripping of `sudo` / `VAR=value` prefixes.
  - `aggregators/` — counting (`CommandMap`), ranking, and the filters (top N,
    ignore list, minimum count).
  - `output/` — table, JSON, CSV, statistics, trend and hourly charts.
  - `binary64.rs` — the `f64` percentages and averages, worked out in whole
    numbers and written as `{:.1}` writes them.
  - `date.rs`, `bucket_order.rs` — calendar arithmetic, date parsing, bucket
    keys and the proof that they sort by time.
  - `search.rs` — `--grep` patterns, through the `regex` crate.
  - `cli/` — the command's options, its pipeline, and the decisions around it.
- `app/` — the `shellist` program: the command line, environment, clock,
  files and printing.
- `tests/` — tests of the library.

Each public function states its result in its `ensures` clause over
mathematical models (`Seq`, `Map`, `nat`); the laws that relate functions are
public proof functions (`lemma_*`).
