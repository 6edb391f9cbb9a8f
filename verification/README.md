# votype_core

The logic behind three Votype desktop features, written in Verus with
machine-checked contracts:

- **Task clusters** (`src/task_cluster_generator.rs`, `src/task_clusters.rs`,
  `src/cluster_feedback.rs`): the prompt blocks shown to the clustering model
  (history entries, protected clusters, recent negative feedback), extraction
  of the JSON array from the model's reply, and sanitizing of the clusters it
  returns (unknown history ids dropped, unknown statuses replaced, empty
  clusters removed).
- **Rule suggestions** (`src/suggestion_engine.rs`, `src/settings.rs`): after
  a paste, whether an `(app, window title, prompt)` triplet has been used
  often enough (thresholds 5, 10, 20, 40), without a matching title rule or an
  earlier refusal, to suggest recording a rule; what accepting a suggestion
  does to the settings; the dialog's address.
- **Foreground tracking and HTTP clients** (`src/foreground_tracker.rs`,
  `src/http_client.rs`): the slot of the last frontmost window of another
  process, proxy selection, and the pool of shared clients keyed by proxy.

`src/text.rs` holds the character-level helpers the others build on, and
`src/foreign.rs` the trusted boundary with `regex`, `uuid`, `chrono` and
`std::path::PathBuf`.

`app/` is ordinary Rust around the library: SQLite storage (`rusqlite`),
JSON parsing (`serde_json`), HTTP client construction (`reqwest`), the
process-wide statics and the background poll.

`tests/` exercises the library from outside.
