//! The primer: a description of the notes tool, section by section, for
//! assistants and newcomers.

use vstd::prelude::*;
use vstd::string::StringExecFns;
use crate::cli::output::OutputFormat;
use crate::text::{chars_of, lowercase_of, str_eq, string_from_chars, to_lowercase, trim, trim_chars};

verus! {

/// Sections of the primer.
#[derive(Debug, Clone, Copy, PartialEq, Eq, Structural)]
pub enum Section {
    Concept,
    Schema,
    Files,
    Commands,
    Topics,
    Links,
    Validation,
    Workflows,
}

/// All sections, in display order.
pub open spec fn all_sections() -> Seq<Section> {
    seq![
        Section::Concept,
        Section::Schema,
        Section::Files,
        Section::Commands,
        Section::Topics,
        Section::Links,
        Section::Validation,
        Section::Workflows,
    ]
}

/// The section with this (lowercase) name.
pub open spec fn section_named(s: Seq<char>) -> Option<Section> {
    if s == "concept"@ {
        Some(Section::Concept)
    } else if s == "schema"@ {
        Some(Section::Schema)
    } else if s == "files"@ {
        Some(Section::Files)
    } else if s == "commands"@ {
        Some(Section::Commands)
    } else if s == "topics"@ {
        Some(Section::Topics)
    } else if s == "links"@ {
        Some(Section::Links)
    } else if s == "validation"@ {
        Some(Section::Validation)
    } else if s == "workflows"@ {
        Some(Section::Workflows)
    } else {
        None
    }
}

/// What `Section::from_str` gives: the name is trimmed and lowercased.
pub open spec fn parse_section(s: Seq<char>) -> Option<Section> {
    section_named(lowercase_of(trim(s)))
}

pub open spec fn section_title(s: Section) -> Seq<char> {
    match s {
        Section::Concept => "Concept"@,
        Section::Schema => "Schema"@,
        Section::Files => "Files"@,
        Section::Commands => "Commands"@,
        Section::Topics => "Topics"@,
        Section::Links => "Links"@,
        Section::Validation => "Validation"@,
        Section::Workflows => "Workflows"@,
    }
}

pub open spec fn full_text(s: Section) -> Seq<char> {
    match s {
        Section::Concept => "\
Notes are flat markdown files with YAML frontmatter. Organization is virtual \
through metadata, not filesystem hierarchy. The frontmatter is the source of truth. \
A SQLite index (`.index/notes.db`) enables fast queries but can be regenerated \
from source files."@,
        Section::Schema => "\
**Required fields:**
- `id`: Full ULID (26 chars), e.g., `01HQ3K5M7NXJK4QZPW8V2R6T9Y`
- `title`: Display name for the note
- `created`: ISO 8601 timestamp, set once at creation
- `modified`: ISO 8601 timestamp, updated on changes

**Optional fields:**
- `description`: Short summary (1-2 sentences)
- `topics`: Hierarchical paths for virtual folders, e.g., `[\"software/architecture\", \"reference/books\"]`
- `aliases`: Alternative titles for search/linking
- `tags`: Flat labels for filtering, e.g., `[\"draft\", \"needs-review\"]`
- `links`: References to other notes with relationship context
- `kind`: Note type (generic, book, paper, transcript, article)
- `metadata`: Kind-specific fields (author, url, source, etc.)

**Example frontmatter:**
```yaml
---
id: 01HQ3K5M7NXJK4QZPW8V2R6T9Y
title: API Design Principles
description: Core principles for RESTful API design
created: 2024-01-15T10:30:00Z
modified: 2024-01-15T10:30:00Z
topics:
  - software/architecture
  - reference
tags:
  - evergreen
links:
  - id: 01HQ4A2R9PXYZ
    rel: [related]
---
```"@,
        Section::Files => "\
**Filename convention:** `<ulid-prefix>-<slug>.md`
- ULID prefix: First 10 chars of the ULID (timestamp-based, ensures uniqueness and sorting)
- Slug: Lowercase, hyphen-separated title
- Example: `01HQ3K5M7N-api-design-principles.md`

**Directory structure:**
```
notes/
├── .index/
│   └── notes.db          # SQLite index (regenerable)
├── 01HQ3K5M7N-api-design.md
├── 01HQ3K8P2X-meeting-notes.md
└── ...
```

The filename is NOT the source of truth - frontmatter is. Renaming files doesn't break links (ID-based)."@,
        Section::Commands => "\
**Create & Edit:**
- `notes new <TITLE> [-T topic] [-t tag] [-D desc] [-k kind]` - Create note
- `notes edit <ID|TITLE>` - Open in editor
- `notes mv <NOTE> [--title NEW] [-T topic]` - Move/rename

**List & Search:**
- `notes ls [TOPIC] [-t tag] [-k kind]` - List notes (trailing `/` includes descendants)
- `notes search <QUERY> [-T topic] [-t tag]` - Full-text search
- `notes show <ID|TITLE>` - Display note contents

**Organization:**
- `notes topics [--counts]` - List topic hierarchy
- `notes tags [--counts]` - List all tags
- `notes kinds` - List note kinds with counts
- `notes tag <NOTE> <TAG>` - Add tag
- `notes untag <NOTE> <TAG>` - Remove tag

**Links:**
- `notes link <SOURCE> <TARGET> [--rel TYPE]` - Create link
- `notes unlink <SOURCE> <TARGET>` - Remove link
- `notes backlinks <NOTE> [--rel TYPE]` - Show incoming links
- `notes rels [--counts]` - List relationship types

**Maintenance:**
- `notes index [--full]` - Rebuild/update index
- `notes check [--fix]` - Validate notes (broken links, orphans)
- `notes archive <NOTE>` / `notes unarchive <NOTE>` - Archive management

**Output formats:** Most commands support `-f human|json|paths`"@,
        Section::Topics => "\
Topics are hierarchical paths providing virtual folder organization.

**Query semantics:**
| Query | Matches |
|-------|---------|
| `software/architecture` | Notes with exactly this topic |
| `software/architecture/` | Notes with this topic OR any descendant |
| `software/` | All notes anywhere under software |

The trailing `/` indicates \"include descendants.\"

**Implicit ancestry:** A note with topic `software/architecture/patterns` appears in \
queries for `software/`, `software/architecture/`, and `software/architecture/patterns`."@,
        Section::Links => "\
Links connect notes with typed relationships stored in frontmatter.

**Structure:**
```yaml
links:
  - id: 01HQ4A2R9P...      # Target note ULID (required)
    rel: [parent, source]  # Relationship types (required)
    note: \"Context here\"   # Optional freeform context
```

**Common relationship types:** `parent`, `child`, `related`, `source`, `supersedes`, \
`part-of`, `followed-by`, `see-also`

**Backlinks:** Query with `notes backlinks <NOTE>` to find all notes linking TO a \
given note. Filter by `--rel TYPE` for specific relationships."@,
        Section::Validation => "\
**Key constraints:**
- `id` must be a valid ULID (26 characters)
- `id` must be unique across all notes
- `created` and `modified` must be valid ISO 8601 timestamps
- `topics` paths use forward slashes, no leading/trailing slashes
- `links[].id` should reference existing notes (broken links are flagged)
- Filenames should match pattern `<ulid-prefix>-<slug>.md`

**Validation command:** `notes check` reports:
- Malformed frontmatter
- Missing required fields
- Duplicate IDs
- Broken links
- Orphaned notes (no topics)"@,
        Section::Workflows => "\
**Create and organize a note:**
```bash
notes new \"Meeting Notes\" -T work/meetings -t draft
notes edit 01HQ3K5M    # Edit by ID prefix
notes tag 01HQ3K5M reviewed
notes mv 01HQ3K5M -T work/meetings/2024
```

**Find and explore:**
```bash
notes ls work/          # All notes under work/
notes search \"API design\" -T software/
notes backlinks 01HQ3K5M --rel source
```

**Link notes:**
```bash
notes link 01HQ3K5M 01HQ4A2R --rel parent --rel source
notes backlinks 01HQ4A2R    # See what links to it
```

**Maintenance:**
```bash
notes index             # Update index
notes check --fix       # Find and fix issues
```"@,
    }
}

pub open spec fn compact_text(s: Section) -> Seq<char> {
    match s {
        Section::Concept => "\
Flat .md files + YAML frontmatter. Virtual folders via topics. \
SQLite index at `.index/notes.db` (regenerable)."@,
        Section::Schema => "\
**Required:** id (ULID), title, created, modified (ISO 8601)
**Optional:** description, topics[], aliases[], tags[], links[], kind, metadata{}"@,
        Section::Files => "\
Filename: `<10-char-ulid>-<slug>.md` (e.g., `01HQ3K5M7N-api-design.md`)
Index: `<notes-dir>/.index/notes.db`"@,
        Section::Commands => "\
new/edit/mv | ls/search/show | topics/tags/kinds | link/unlink/backlinks | index/check
Trailing `/` in topic = include descendants. Use `-f json` for structured output."@,
        Section::Topics => "\
`software/arch` = exact match. `software/arch/` = with descendants. `software/` = all under software."@,
        Section::Links => "\
links: [{id: ULID, rel: [types], note: \"context\"}]. Common rels: parent, related, source, see-also."@,
        Section::Validation => "\
Valid ULID, unique ID, ISO timestamps, no leading/trailing slashes in topics. `notes check` validates."@,
        Section::Workflows => "\
`notes new \"Title\" -T topic -t tag` | `notes ls topic/` | `notes link A B --rel type` | `notes check`"@,
    }
}

impl Section {
    /// All sections, in display order.
    pub fn all() -> (r: Vec<Section>)
        ensures
            r@ == all_sections(),
    {
        let r = vec![
            Section::Concept,
            Section::Schema,
            Section::Files,
            Section::Commands,
            Section::Topics,
            Section::Links,
            Section::Validation,
            Section::Workflows,
        ];
        assert(r@ =~= all_sections());
        r
    }

    /// Parses a section name, ignoring case and surrounding whitespace.
    pub fn from_str(s: &str) -> (r: Option<Section>)
        ensures
            r == parse_section(s@),
    {
        let trimmed = string_from_chars(trim_chars(chars_of(s).as_slice()).as_slice());
        let lower = to_lowercase(trimmed.as_str());
        let l = lower.as_str();
        if str_eq(l, "concept") {
            Some(Section::Concept)
        } else if str_eq(l, "schema") {
            Some(Section::Schema)
        } else if str_eq(l, "files") {
            Some(Section::Files)
        } else if str_eq(l, "commands") {
            Some(Section::Commands)
        } else if str_eq(l, "topics") {
            Some(Section::Topics)
        } else if str_eq(l, "links") {
            Some(Section::Links)
        } else if str_eq(l, "validation") {
            Some(Section::Validation)
        } else if str_eq(l, "workflows") {
            Some(Section::Workflows)
        } else {
            None
        }
    }

    /// The section's display name.
    pub fn name(self) -> (r: &'static str)
        ensures
            r@ == section_title(self),
    {
        match self {
            Section::Concept => "Concept",
            Section::Schema => "Schema",
            Section::Files => "Files",
            Section::Commands => "Commands",
            Section::Topics => "Topics",
            Section::Links => "Links",
            Section::Validation => "Validation",
            Section::Workflows => "Workflows",
        }
    }

    /// The section's full text.
    pub fn full_content(self) -> (r: &'static str)
        ensures
            r@ == full_text(self),
    {
        match self {
            Section::Concept => "\
Notes are flat markdown files with YAML frontmatter. Organization is virtual \
through metadata, not filesystem hierarchy. The frontmatter is the source of truth. \
A SQLite index (`.index/notes.db`) enables fast queries but can be regenerated \
from source files.",
            Section::Schema => "\
**Required fields:**
- `id`: Full ULID (26 chars), e.g., `01HQ3K5M7NXJK4QZPW8V2R6T9Y`
- `title`: Display name for the note
- `created`: ISO 8601 timestamp, set once at creation
- `modified`: ISO 8601 timestamp, updated on changes

**Optional fields:**
- `description`: Short summary (1-2 sentences)
- `topics`: Hierarchical paths for virtual folders, e.g., `[\"software/architecture\", \"reference/books\"]`
- `aliases`: Alternative titles for search/linking
- `tags`: Flat labels for filtering, e.g., `[\"draft\", \"needs-review\"]`
- `links`: References to other notes with relationship context
- `kind`: Note type (generic, book, paper, transcript, article)
- `metadata`: Kind-specific fields (author, url, source, etc.)

**Example frontmatter:**
```yaml
---
id: 01HQ3K5M7NXJK4QZPW8V2R6T9Y
title: API Design Principles
description: Core principles for RESTful API design
created: 2024-01-15T10:30:00Z
modified: 2024-01-15T10:30:00Z
topics:
  - software/architecture
  - reference
tags:
  - evergreen
links:
  - id: 01HQ4A2R9PXYZ
    rel: [related]
---
```",
            Section::Files => "\
**Filename convention:** `<ulid-prefix>-<slug>.md`
- ULID prefix: First 10 chars of the ULID (timestamp-based, ensures uniqueness and sorting)
- Slug: Lowercase, hyphen-separated title
- Example: `01HQ3K5M7N-api-design-principles.md`

**Directory structure:**
```
notes/
├── .index/
│   └── notes.db          # SQLite index (regenerable)
├── 01HQ3K5M7N-api-design.md
├── 01HQ3K8P2X-meeting-notes.md
└── ...
```

The filename is NOT the source of truth - frontmatter is. Renaming files doesn't break links (ID-based).",
            Section::Commands => "\
**Create & Edit:**
- `notes new <TITLE> [-T topic] [-t tag] [-D desc] [-k kind]` - Create note
- `notes edit <ID|TITLE>` - Open in editor
- `notes mv <NOTE> [--title NEW] [-T topic]` - Move/rename

**List & Search:**
- `notes ls [TOPIC] [-t tag] [-k kind]` - List notes (trailing `/` includes descendants)
- `notes search <QUERY> [-T topic] [-t tag]` - Full-text search
- `notes show <ID|TITLE>` - Display note contents

**Organization:**
- `notes topics [--counts]` - List topic hierarchy
- `notes tags [--counts]` - List all tags
- `notes kinds` - List note kinds with counts
- `notes tag <NOTE> <TAG>` - Add tag
- `notes untag <NOTE> <TAG>` - Remove tag

**Links:**
- `notes link <SOURCE> <TARGET> [--rel TYPE]` - Create link
- `notes unlink <SOURCE> <TARGET>` - Remove link
- `notes backlinks <NOTE> [--rel TYPE]` - Show incoming links
- `notes rels [--counts]` - List relationship types

**Maintenance:**
- `notes index [--full]` - Rebuild/update index
- `notes check [--fix]` - Validate notes (broken links, orphans)
- `notes archive <NOTE>` / `notes unarchive <NOTE>` - Archive management

**Output formats:** Most commands support `-f human|json|paths`",
            Section::Topics => "\
Topics are hierarchical paths providing virtual folder organization.

**Query semantics:**
| Query | Matches |
|-------|---------|
| `software/architecture` | Notes with exactly this topic |
| `software/architecture/` | Notes with this topic OR any descendant |
| `software/` | All notes anywhere under software |

The trailing `/` indicates \"include descendants.\"

**Implicit ancestry:** A note with topic `software/architecture/patterns` appears in \
queries for `software/`, `software/architecture/`, and `software/architecture/patterns`.",
            Section::Links => "\
Links connect notes with typed relationships stored in frontmatter.

**Structure:**
```yaml
links:
  - id: 01HQ4A2R9P...      # Target note ULID (required)
    rel: [parent, source]  # Relationship types (required)
    note: \"Context here\"   # Optional freeform context
```

**Common relationship types:** `parent`, `child`, `related`, `source`, `supersedes`, \
`part-of`, `followed-by`, `see-also`

**Backlinks:** Query with `notes backlinks <NOTE>` to find all notes linking TO a \
given note. Filter by `--rel TYPE` for specific relationships.",
            Section::Validation => "\
**Key constraints:**
- `id` must be a valid ULID (26 characters)
- `id` must be unique across all notes
- `created` and `modified` must be valid ISO 8601 timestamps
- `topics` paths use forward slashes, no leading/trailing slashes
- `links[].id` should reference existing notes (broken links are flagged)
- Filenames should match pattern `<ulid-prefix>-<slug>.md`

**Validation command:** `notes check` reports:
- Malformed frontmatter
- Missing required fields
- Duplicate IDs
- Broken links
- Orphaned notes (no topics)",
            Section::Workflows => "\
**Create and organize a note:**
```bash
notes new \"Meeting Notes\" -T work/meetings -t draft
notes edit 01HQ3K5M    # Edit by ID prefix
notes tag 01HQ3K5M reviewed
notes mv 01HQ3K5M -T work/meetings/2024
```

**Find and explore:**
```bash
notes ls work/          # All notes under work/
notes search \"API design\" -T software/
notes backlinks 01HQ3K5M --rel source
```

**Link notes:**
```bash
notes link 01HQ3K5M 01HQ4A2R --rel parent --rel source
notes backlinks 01HQ4A2R    # See what links to it
```

**Maintenance:**
```bash
notes index             # Update index
notes check --fix       # Find and fix issues
```",
        }
    }

    /// The section's short text.
    pub fn compact_content(self) -> (r: &'static str)
        ensures
            r@ == compact_text(self),
    {
        match self {
            Section::Concept => "\
Flat .md files + YAML frontmatter. Virtual folders via topics. \
SQLite index at `.index/notes.db` (regenerable).",
            Section::Schema => "\
**Required:** id (ULID), title, created, modified (ISO 8601)
**Optional:** description, topics[], aliases[], tags[], links[], kind, metadata{}",
            Section::Files => "\
Filename: `<10-char-ulid>-<slug>.md` (e.g., `01HQ3K5M7N-api-design.md`)
Index: `<notes-dir>/.index/notes.db`",
            Section::Commands => "\
new/edit/mv | ls/search/show | topics/tags/kinds | link/unlink/backlinks | index/check
Trailing `/` in topic = include descendants. Use `-f json` for structured output.",
            Section::Topics => "\
`software/arch` = exact match. `software/arch/` = with descendants. `software/` = all under software.",
            Section::Links => "\
links: [{id: ULID, rel: [types], note: \"context\"}]. Common rels: parent, related, source, see-also.",
            Section::Validation => "\
Valid ULID, unique ID, ISO timestamps, no leading/trailing slashes in topics. `notes check` validates.",
            Section::Workflows => "\
`notes new \"Title\" -T topic -t tag` | `notes ls topic/` | `notes link A B --rel type` | `notes check`",
        }
    }
}

/// How the primer is printed.
#[derive(Debug, Clone, Copy, PartialEq, Eq, Structural)]
pub enum PrimeFormat {
    Human,
    Json,
    Paths,
}

/// Arguments of the `prime` command.
#[derive(Debug)]
pub struct PrimeArgs {
    /// Sections to include (all when empty).
    pub sections: Vec<String>,
    /// Print the short texts.
    pub compact: bool,
    pub format: PrimeFormat,
}

/// One section of the primer with its text.
#[derive(Debug)]
pub struct PrimerSection {
    pub name: Section,
    pub content: String,
}

/// The primer's sections with their texts.
#[derive(Debug)]
pub struct PrimerContent {
    pub sections: Vec<PrimerSection>,
}

/// The sections named, in order; names that are no section are skipped.
pub open spec fn sections_from(names: Seq<Seq<char>>) -> Seq<Section>
    decreases names.len(),
{
    if names.len() == 0 {
        Seq::empty()
    } else {
        let prev = sections_from(names.drop_last());
        match parse_section(names.last()) {
            Some(s) => prev.push(s),
            None => prev,
        }
    }
}

pub open spec fn requested_sections(names: Seq<Seq<char>>) -> Seq<Section> {
    if names.len() == 0 {
        all_sections()
    } else {
        sections_from(names)
    }
}

pub open spec fn section_text(s: Section, compact: bool) -> Seq<char> {
    if compact {
        compact_text(s)
    } else {
        full_text(s)
    }
}

/// The human-readable primer text of sections `(name, text)`.
pub open spec fn primer_text(sections: Seq<(Section, Seq<char>)>) -> Seq<char>
    decreases sections.len(),
{
    if sections.len() == 0 {
        "# Notes CLI Primer\n\n"@
    } else {
        let last = sections.last();
        primer_text(sections.drop_last()) + "## "@ + section_title(last.0) + "\n\n"@ + last.1
            + "\n\n"@
    }
}

pub open spec fn primer_sections_view(v: Seq<PrimerSection>) -> Seq<(Section, Seq<char>)> {
    v.map_values(|p: PrimerSection| (p.name, p.content@))
}

/// The sections the arguments ask for: all of them when none is named,
/// else the named ones that exist, in the order given.
pub fn get_sections(args: &PrimeArgs) -> (r: Vec<Section>)
    ensures
        r@ == requested_sections(crate::domain::note::strings_view(args.sections@)),
{
    let ghost names = crate::domain::note::strings_view(args.sections@);
    if args.sections.len() == 0 {
        return Section::all();
    }
    let mut out: Vec<Section> = Vec::new();
    let mut i: usize = 0;
    assert(names.take(0) =~= Seq::<Seq<char>>::empty());
    while i < args.sections.len()
        invariant
            i <= args.sections@.len(),
            names == crate::domain::note::strings_view(args.sections@),
            out@ == sections_from(names.take(i as int)),
        decreases args.sections@.len() - i,
    {
        assert(names.take(i + 1).drop_last() =~= names.take(i as int));
        assert(names.take(i + 1).last() == args.sections@[i as int]@);
        match Section::from_str(args.sections[i].as_str()) {
            Some(s) => out.push(s),
            None => {},
        }
        i = i + 1;
    }
    assert(names.take(names.len() as int) =~= names);
    out
}

/// The primer's sections with their full or short texts.
pub fn build_content(sections: &[Section], compact: bool) -> (r: PrimerContent)
    ensures
        primer_sections_view(r.sections@) == sections@.map_values(
            |s: Section| (s, section_text(s, compact)),
        ),
{
    let mut out: Vec<PrimerSection> = Vec::new();
    let mut i: usize = 0;
    while i < sections.len()
        invariant
            i <= sections@.len(),
            primer_sections_view(out@) == sections@.take(i as int).map_values(
                |s: Section| (s, section_text(s, compact)),
            ),
        decreases sections@.len() - i,
    {
        let s = sections[i];
        let text = if compact {
            s.compact_content()
        } else {
            s.full_content()
        };
        let ghost before = out@;
        out.push(PrimerSection { name: s, content: String::from_str(text) });
        assert(primer_sections_view(out@) =~= primer_sections_view(before).push(
            (s, section_text(s, compact)),
        ));
        assert(sections@.take(i + 1).map_values(|s: Section| (s, section_text(s, compact)))
            =~= sections@.take(i as int).map_values(|s: Section| (s, section_text(s, compact))).push(
            (s, section_text(s, compact)),
        ));
        i = i + 1;
    }
    assert(sections@.take(sections@.len() as int) =~= sections@);
    PrimerContent { sections: out }
}

/// The primer as human-readable text: a heading, then each section's name
/// as a second-level heading followed by its text.
pub fn format_human(content: &PrimerContent) -> (r: String)
    ensures
        r@ == primer_text(primer_sections_view(content.sections@)),
{
    let ghost v = primer_sections_view(content.sections@);
    let mut out = String::from_str("# Notes CLI Primer\n\n");
    let mut i: usize = 0;
    assert(v.take(0) =~= Seq::<(Section, Seq<char>)>::empty());
    while i < content.sections.len()
        invariant
            i <= content.sections@.len(),
            v == primer_sections_view(content.sections@),
            out@ == primer_text(v.take(i as int)),
        decreases content.sections@.len() - i,
    {
        let section = &content.sections[i];
        assert(v.take(i + 1).drop_last() =~= v.take(i as int));
        assert(v.take(i + 1).last() == (section.name, section.content@));
        out.append("## ");
        out.append(section.name.name());
        out.append("\n\n");
        out.append(section.content.as_str());
        out.append("\n\n");
        i = i + 1;
    }
    assert(v.take(v.len() as int) =~= v);
    out
}

} // verus!
