# viaduct_core

The core of a desktop feed reader (local subscriptions and an Inoreader
account), written as a Verus library whose functions carry `requires` /
`ensures` contracts proved by Verus.

## Layout

- `src/` — the verified library:
  - `parser/` — RSS, RSS 1.0, Atom, JSON Feed and RSS-in-JSON readers,
    OPML reading, HTML metadata, relative-URL rewriting; XML is read with
    quick-xml through a small set of trusted wrappers.
  - `database/` — the subscription tree (import normalization, merge,
    Inoreader reconciliation, export), article diffs, timeline order, the
    order of a sync cycle.
  - `network/` — fetch decisions (skips, conditional GET, settings after a
    response, per-host rate-limit cooldowns), the byte-bounded image cache,
    the activity log, Reader API request and response forms.
  - `smart_feeds.rs` — smart-feed rules and their SQL fragments.
- `tests/` — tests run against the compiled library.
- `app/` — the runtime around it: HTTP, SQLite, files, the async runtime
  and the loops that perform the actions the library decides.
