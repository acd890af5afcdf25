# ks-notes

A self-hosted memo server: markdown memos with `#tags`, note links and
attachments, private / protected / public visibility, multi-user accounts with
session cookies and CSRF checks, a JSON API with bearer tokens, and export and
import of notes as JSON. One binary, one SQLite file.

## Layout

- `src/` — the library, verified with Verus. Every decision the server makes
  lives here with a contract: markdown token handling and tag extraction,
  visibility rules, registration and session rules, feed query plans and paging
  cursors, form and API validation, import deduplication and content
  rewriting, the activity heatmap, cookie and bearer-token parsing. Calls into
  outside crates (comrak, argon2, sha2, data-encoding, rand, time) sit behind
  small trusted wrappers whose contracts say what is relied on.
  - `text.rs` — character-level string routines over `Seq<char>` views.
  - `markdown.rs` — rendering, `{{attach:UID}}` / `{{memo:UUID}}` tokens, tags,
    excerpts.
  - `auth.rs` — passwords, tokens, uids, cookies, request guards.
  - `db/` — the rules behind each table: users, settings, sessions, tokens,
    sections, memos (feed plans, export and import).
  - `routes/` — form checks, query parameters, which page or fragment answers.
  - `views.rs` — memo cards and the activity grid.
- `app/` — the server around the library: configuration, SQLite queries,
  axum handlers, templates, serde forms.
- `tests/` — tests of the library.
