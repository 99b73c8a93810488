# agent-heart

Background maintenance daemon for agent-brain: scheduled garbage collection,
predictive token budgeting and bash script linting. The decision logic is a
Verus-verified library; the daemon around it is plain Rust.

## Layout

- `src/` — the verified library (`agent_heart`).
  - `token_budget.rs` — the budget decision (`check_budget`), per-phase statistics
    (`phase_stats`, `load_stats`), phase normalisation and the lookback window, with
    the laws the decision obeys (hard ceiling, z-score anomaly test, freeze on denial,
    monotone denial, order-independence of history, every row counted once).
  - `stats.rs` — nearest-rank percentile, integer mean and the z-score test, with their laws.
  - `lint.rs` — the bash linter over tree-sitter syntax nodes and its report.
  - `brain_client.rs`, `finetune.rs` — command lines and binary search locations.
  - `config.rs` — configuration defaults and paths under the home directory.
  - `text.rs` — character-level string helpers and their specifications.
  - `wide.rs` — naturals of any width as 64-bit limbs, for the exact z-score test.
- `tests/` — tests of the library, run against the real outside crates.
- `app/` — the daemon: CLI, configuration file, SQLite reads, subprocesses, HTTP
  and MCP servers, cron scheduling.
