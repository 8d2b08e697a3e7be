# zedazo

Verified core of Zedazo, a VCF contact screening tool with an HTTP API and a CardDAV
client. The library (`src/`) is written in Verus: every function carries a contract and
is proved; calls into outside crates sit behind small trusted items whose contracts are
documented next to them.

Layout:

- `src/text.rs` — text primitives (trimming, splitting, case, decimal parsing) and their specs.
- `src/filter.rs`, `src/source.rs`, `src/v3_compat.rs`, `src/vcard.rs`, `src/domain.rs`,
  `src/process.rs` — vCard reading, category taxonomy filter, source detection, vCard 3
  compatibility and the views of a processing run.
- `src/url_policy.rs`, `src/xml.rs`, `src/client.rs`, `src/config.rs`, `src/error.rs` —
  the CardDAV client: URL policy, `multistatus` reading (roxmltree), retries, redirects,
  writes with `If-Match`, discovery and pulls.
- `src/cli.rs` — decisions of the `carddav` subcommands.
- `src/auth.rs`, `src/storage.rs`, `src/dto.rs`, `src/api.rs`, `src/encoding.rs` — the
  HTTP API: token authentication, storage paths, job manifests, listings, uploads,
  artifacts, retention, input encoding.
- `app/` — the program: clap command line, reqwest transport, axum server, serde shapes.
- `tests/` — tests of the library.

What is not here: the screening engine itself (the rules that decide, contact by contact,
what is retained, reviewed, eliminated or quarantined, its duplicate detection, and its
CSV, JSON, statistics and audit writers) and the loader of the rules configuration. The
library holds the types that engine works on (`src/domain.rs`) and everything around a
run, but no run. So in `app/` a job that the worker picks up is marked failed with the
message that the screening engine is not available, an audit request is refused, and
the rules endpoints check only that the TOML parses.
