# den

Markdown notes organised in virtual folders: every note is a markdown file
with a frontmatter block (identifier, title, timestamps, description,
topics, aliases, tags and typed links), and the `den` command lists,
searches, links, tags, checks and exports them.

The library is written in Verus: its functions carry `requires`/`ensures`
contracts over mathematical models (sequences, sets and views of each
type), and Verus proves them.

Layout:

- `src/text.rs` — character-level helpers (trimming, case folding, ordering,
  decimal text) with their specifications.
- `src/domain/` — the core types: ULID note identifiers, timestamps, tags,
  topics, relationship types and links, notes and their builder, note kinds
  and kind-specific metadata, and the collection checks (duplicate
  identifiers, broken links, orphaned notes).
- `src/cli/` — the decisions of each command: configuration and vault
  resolution, date filters, the in-memory note index and its lookups, note
  resolution, listing and search filters, tag and link edits, moves,
  completion, aggregates (tags, topics, relationship types with counts), the
  check report with the repair of broken links, and the primer.
- `src/export/` — markdown to HTML, the stylesheet, resolution of note
  references in markdown links, the values of a note page and its rendering
  through an HTML template, and the plan and pages of a static site.
- `tests/` — tests of the library on concrete values.
- `app/` — the `den` executable: argument parsing, configuration file, note
  files on disk, the editor, printing, and writing the static site's files.

Outside crates are called through small trusted wrappers whose contracts
say what the library relies on: `ulid` (identifiers), `chrono` (dates and
the clock), `pulldown-cmark` (markdown), `minijinja` (HTML templates), and
`fuzzy-matcher` (completion).
