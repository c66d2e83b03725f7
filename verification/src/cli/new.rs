//! Creating notes: checking the arguments, building the note, naming its
//! file, and separating a template's body from its frontmatter.

use vstd::prelude::*;
use vstd::string::StringExecFns;
use crate::domain::kind::{known_kind_named, NoteKind};
use crate::domain::note::{
    dedup_aliases_spec, dedup_first, description_spec, strings_view, tags_view, topics_view, Note,
};
use crate::domain::note_id::NoteId;
use crate::domain::tag::Tag;
use crate::domain::timestamp::Timestamp;
use crate::domain::topic::Topic;
use crate::cli::list::{parse_all_tags, tag_views};
use crate::cli::mv::{parse_all_topics, parse_topics};
use crate::text::{
    ascii_lower_char, ascii_lower_char_exec, chars_of, is_ascii_alnum, is_ascii_alnum_char,
    lower_seq, push_char, starts_with, string_from_chars, trim, trim_chars, trim_end, trim_start,
};

verus! {

/// A new note and the name of its file.
pub struct NewNoteResult {
    pub note: Note,
    pub kind: NoteKind,
    pub filename: String,
}

/// Why a note could not be created.
#[derive(Debug)]
pub struct NewNoteError(String);

impl View for NewNoteError {
    type V = Seq<char>;

    closed spec fn view(&self) -> Seq<char> {
        self.0@
    }
}

impl NewNoteError {
    pub fn to_string(&self) -> (r: String)
        ensures
            r@ == self@,
    {
        self.0.clone()
    }
}

/// The slug of a title: ASCII letters and digits lowercased, every other
/// run of characters a single hyphen, no hyphen at either end.
pub open spec fn slug_step(acc: Seq<char>, c: char) -> Seq<char> {
    if is_ascii_alnum(c) {
        acc.push(ascii_lower_char(c))
    } else if acc.len() == 0 || acc.last() == '-' {
        acc
    } else {
        acc.push('-')
    }
}

pub open spec fn slug_fold(s: Seq<char>) -> Seq<char>
    decreases s.len(),
{
    if s.len() == 0 {
        Seq::empty()
    } else {
        slug_step(slug_fold(s.drop_last()), s.last())
    }
}

pub open spec fn slug(s: Seq<char>) -> Seq<char> {
    let f = slug_fold(s);
    if f.len() > 0 && f.last() == '-' {
        f.drop_last()
    } else {
        f
    }
}

/// A title's slug (see `slug`).
pub fn slugify(title: &str) -> (r: String)
    ensures
        r@ == slug(title@),
{
    let v = chars_of(title);
    let mut acc: Vec<char> = Vec::new();
    let mut i: usize = 0;
    assert(v@.take(0) =~= Seq::<char>::empty());
    while i < v.len()
        invariant
            i <= v@.len(),
            acc@ == slug_fold(v@.take(i as int)),
        decreases v@.len() - i,
    {
        assert(v@.take(i + 1).drop_last() =~= v@.take(i as int));
        let c = v[i];
        if is_ascii_alnum_char(c) {
            acc.push(ascii_lower_char_exec(c));
        } else if acc.len() > 0 && acc[acc.len() - 1] != '-' {
            acc.push('-');
        }
        i = i + 1;
    }
    assert(v@.take(v@.len() as int) =~= v@);
    if acc.len() > 0 && acc[acc.len() - 1] == '-' {
        acc.pop();
    }
    string_from_chars(acc.as_slice())
}

/// `<first ten characters of the identifier>-<slug of the title>.md`.
pub fn generate_filename(id: &NoteId, title: &str) -> (r: String)
    ensures
        r@ == id.spec_text().take(10) + "-"@ + slug(title@) + ".md"@,
{
    let mut name = id.prefix();
    name.append("-");
    let s = slugify(title);
    name.append(s.as_str());
    name.append(".md");
    name
}

/// What `create_new_note_at` makes of its arguments, in the order the
/// checks are made: the title, the topics, the tags, then the kind.
pub open spec fn new_note_problem(
    title: Seq<char>,
    topics: Seq<Seq<char>>,
    tags: Seq<Seq<char>>,
    kind: Option<Seq<char>>,
) -> Option<Seq<char>> {
    if trim(title).len() == 0 {
        Some("title cannot be empty"@)
    } else if parse_all_topics(topics) is Err {
        Some(
            "invalid topic '"@ + topics[parse_all_topics(topics)->Err_0]
                + "': topics must contain only alphanumeric characters, hyphens, underscores, and forward slashes"@,
        )
    } else if parse_all_tags(tags) is Err {
        Some(
            "invalid tag '"@ + tags[parse_all_tags(tags)->Err_0]
                + "': tags must contain only alphanumeric characters, hyphens, and underscores (no spaces)"@,
        )
    } else if kind matches Some(k) && known_kind_named(lower_seq(k)) is None {
        Some("invalid kind '"@ + kind->0 + "'"@)
    } else {
        None
    }
}

fn new_note_error(prefix: &str, middle: &str, suffix: &str) -> (r: NewNoteError)
    ensures
        r@ == prefix@ + middle@ + suffix@,
{
    let mut s = String::from_str(prefix);
    s.append(middle);
    s.append(suffix);
    NewNoteError(s)
}

/// Creates a note with identifier `id`, created and modified at `now`:
/// the title is trimmed and must not be empty, every topic and tag must be
/// valid, and a kind, when given, must be a known one (the default kind
/// otherwise).  The file is named after the identifier and the title.
pub fn create_new_note_at(
    title: &str,
    description: Option<&str>,
    topic_strs: &[String],
    tag_strs: &[String],
    alias_strs: &[String],
    kind_str: Option<&str>,
    id: NoteId,
    now: Timestamp,
) -> (r: Result<NewNoteResult, NewNoteError>)
    ensures
        match new_note_problem(
            title@,
            strings_view(topic_strs@),
            strings_view(tag_strs@),
            match kind_str {
                Some(k) => Some(k@),
                None => None::<Seq<char>>,
            },
        ) {
            Some(m) => r matches Err(e) && e@ == m,
            None => r matches Ok(res) && {
                let n = res.note;
                &&& n.spec_id() == id
                &&& n.spec_title() == trim(title@)
                &&& n.spec_created() == now
                &&& n.spec_modified() == now
                &&& n.spec_description() == description_spec(
                    match description {
                        Some(d) => Some(d@),
                        None => None::<Seq<char>>,
                    },
                )
                &&& n.spec_topics() == dedup_first(
                    parse_all_topics(strings_view(topic_strs@))->Ok_0,
                )
                &&& n.spec_aliases() == dedup_aliases_spec(strings_view(alias_strs@))
                &&& n.spec_tags() == dedup_first(parse_all_tags(strings_view(tag_strs@))->Ok_0)
                &&& n.spec_links().len() == 0
                &&& match kind_str {
                    Some(k) => known_kind_named(lower_seq(k@)) == Some(res.kind),
                    None => res.kind == NoteKind::Generic,
                }
                &&& res.filename@ == id.spec_text().take(10) + "-"@ + slug(trim(title@))
                    + ".md"@
            },
        },
{
    let trimmed = string_from_chars(trim_chars(chars_of(title).as_slice()).as_slice());
    if trimmed.as_str().is_empty() {
        return Err(NewNoteError(String::from_str("title cannot be empty")));
    }
    proof {
        crate::text::lemma_trim_idempotent(title@);
    }
    let topics = match parse_topics(topic_strs) {
        Ok(t) => t,
        Err(e) => {
            return Err(
                new_note_error(
                    "invalid topic '",
                    e.input(),
                    "': topics must contain only alphanumeric characters, hyphens, underscores, and forward slashes",
                ),
            );
        },
    };
    let mut tags: Vec<Tag> = Vec::new();
    let ghost sv = strings_view(tag_strs@);
    let mut i: usize = 0;
    assert(sv.take(0) =~= Seq::<Seq<char>>::empty());
    assert(tag_views(tags@) =~= Seq::<Seq<char>>::empty());
    while i < tag_strs.len()
        invariant
            i <= tag_strs@.len(),
            sv == strings_view(tag_strs@),
            trim(title@).len() > 0,
            parse_all_topics(strings_view(topic_strs@)) is Ok,
            parse_all_tags(sv.take(i as int)) == Ok::<Seq<Seq<char>>, int>(tag_views(tags@)),
        decreases tag_strs@.len() - i,
    {
        assert(sv.take(i + 1).drop_last() =~= sv.take(i as int));
        assert(sv.take(i + 1).last() == tag_strs@[i as int]@);
        assert(sv[i as int] == tag_strs@[i as int]@);
        match Tag::new(tag_strs[i].as_str()) {
            Ok(t) => {
                let ghost before = tags@;
                tags.push(t);
                assert(tag_views(tags@) =~= tag_views(before).push(t@));
            },
            Err(_) => {
                proof {
                    lemma_parse_tags_err(sv, i + 1, i as int);
                }
                return Err(
                    new_note_error(
                        "invalid tag '",
                        tag_strs[i].as_str(),
                        "': tags must contain only alphanumeric characters, hyphens, and underscores (no spaces)",
                    ),
                );
            },
        }
        i = i + 1;
    }
    assert(sv.take(sv.len() as int) =~= sv);
    assert(tags_view(tags@) =~= tag_views(tags@));
    let kind = match kind_str {
        Some(k) => match NoteKind::parse_strict(k) {
            Ok(kind) => kind,
            Err(_) => {
                return Err(new_note_error("invalid kind '", k, "'"));
            },
        },
        None => NoteKind::Generic,
    };
    let note = Note::builder(id, trimmed.as_str(), now, now).description(description).topics(
        topics,
    ).aliases(crate::domain::note::clone_strings(alias_strs)).tags(tags).build();
    let note = match note {
        Ok(n) => n,
        Err(_) => {
            return Err(NewNoteError(String::from_str("failed to create note")));
        },
    };
    let filename = generate_filename(&id, trimmed.as_str());
    Ok(NewNoteResult { note, kind, filename })
}

proof fn lemma_parse_tags_err(strs: Seq<Seq<char>>, n: int, k: int)
    requires
        0 <= n <= strs.len(),
        parse_all_tags(strs.take(n)) == Err::<Seq<Seq<char>>, int>(k),
    ensures
        parse_all_tags(strs) == Err::<Seq<Seq<char>>, int>(k),
    decreases strs.len() - n,
{
    if n == strs.len() {
        assert(strs.take(n) =~= strs);
    } else {
        assert(strs.take(n + 1).drop_last() =~= strs.take(n));
        lemma_parse_tags_err(strs, n + 1, k);
    }
}

/// Creates a note with a fresh identifier, created and modified at `now`.
/// The identifier comes from the clock and a random source; whatever it is,
/// the note is made from it as `create_new_note_at` says.
pub fn create_new_note(
    title: &str,
    description: Option<&str>,
    topic_strs: &[String],
    tag_strs: &[String],
    alias_strs: &[String],
    kind_str: Option<&str>,
    now: Timestamp,
) -> (r: Result<NewNoteResult, NewNoteError>)
    ensures
        match new_note_problem(
            title@,
            strings_view(topic_strs@),
            strings_view(tag_strs@),
            match kind_str {
                Some(k) => Some(k@),
                None => None::<Seq<char>>,
            },
        ) {
            Some(m) => r matches Err(e) && e@ == m,
            None => r matches Ok(res) && {
                let n = res.note;
                &&& n.spec_title() == trim(title@)
                &&& n.spec_created() == now
                &&& n.spec_modified() == now
                &&& n.spec_description() == description_spec(
                    match description {
                        Some(d) => Some(d@),
                        None => None::<Seq<char>>,
                    },
                )
                &&& n.spec_topics() == dedup_first(
                    parse_all_topics(strings_view(topic_strs@))->Ok_0,
                )
                &&& n.spec_aliases() == dedup_aliases_spec(strings_view(alias_strs@))
                &&& n.spec_tags() == dedup_first(parse_all_tags(strings_view(tag_strs@))->Ok_0)
                &&& n.spec_links().len() == 0
                &&& match kind_str {
                    Some(k) => known_kind_named(lower_seq(k@)) == Some(res.kind),
                    None => res.kind == NoteKind::Generic,
                }
                &&& res.filename@ == n.spec_id().spec_text().take(10) + "-"@ + slug(trim(title@))
                    + ".md"@
            },
        },
{
    let id = NoteId::new();
    create_new_note_at(title, description, topic_strs, tag_strs, alias_strs, kind_str, id, now)
}

/// Whether `p`, read as a `/`-separated path, has a `..` component.
pub open spec fn has_parent_component(p: Seq<char>) -> bool {
    exists|i: int| #[trigger] parent_component_at(p, i)
}

/// A `..` component starts at position `i` of `p`.
pub open spec fn parent_component_at(p: Seq<char>, i: int) -> bool {
    &&& 0 <= i
    &&& i + 2 <= p.len()
    &&& p[i] == '.'
    &&& p[i + 1] == '.'
    &&& (i == 0 || p[i - 1] == '/')
    &&& (i + 2 == p.len() || p[i + 2] == '/')
}

/// Why `--into p` is refused: an absolute path, or one that climbs out of
/// the notes directory with `..`.
pub open spec fn into_problem(p: Seq<char>) -> Option<Seq<char>> {
    if p.len() > 0 && p[0] == '/' {
        Some("--into must be a relative path, not absolute: "@ + p)
    } else if has_parent_component(p) {
        Some("--into cannot contain '..': "@ + p)
    } else {
        None
    }
}

/// Checks the subdirectory given to `new --into`: it must be relative and
/// must not contain a `..` component.
pub fn validate_into(path: &str) -> (r: Result<(), String>)
    ensures
        match into_problem(path@) {
            Some(m) => r matches Err(e) && e@ == m,
            None => r is Ok,
        },
{
    let p = chars_of(path);
    let n = p.len();
    if n > 0 && p[0] == '/' {
        let mut msg = String::from_str("--into must be a relative path, not absolute: ");
        msg.append(path);
        return Err(msg);
    }
    let mut i: usize = 0;
    while i < n
        invariant
            n == p@.len(),
            p@ == path@,
            i <= n,
            !(n > 0 && p@[0] == '/'),
            forall|k: int| 0 <= k < i ==> !parent_component_at(p@, k),
        decreases n - i,
    {
        if i + 1 < n && p[i] == '.' && p[i + 1] == '.' && (i == 0 || p[i - 1] == '/') && (i + 2 == n
            || p[i + 2] == '/') {
            assert(parent_component_at(p@, i as int));
            let mut msg = String::from_str("--into cannot contain '..': ");
            msg.append(path);
            return Err(msg);
        }
        i = i + 1;
    }
    assert forall|k: int| !parent_component_at(p@, k) by {
        if 0 <= k && k < n {
        }
    }
    Ok(())
}

/// The first position at or after `from` holding `c`, or `s.len()`.
pub open spec fn find_from(s: Seq<char>, from: int, c: char) -> int
    decreases s.len() - from,
{
    if from >= s.len() {
        s.len() as int
    } else if s[from] == c {
        from
    } else {
        find_from(s, from + 1, c)
    }
}

/// The body of a text with frontmatter: when the text (leading whitespace
/// aside) starts with `---` and a later line is `---`, what follows that
/// line (after its line break, `\n` or `\r\n`); otherwise the whole text.
pub open spec fn frontmatter_body(content: Seq<char>) -> Seq<char> {
    let t = trim_start(content);
    if !starts_with(t, "---"@) {
        content
    } else {
        let after = t.skip(3);
        let nl = find_from(after, 0, '\n');
        if nl >= after.len() {
            content
        } else {
            let rest = after.skip(nl + 1);
            match closing_start(rest, 0) {
                None => content,
                Some(p) => {
                    let e = find_from(rest, p, '\n');
                    if e >= rest.len() {
                        Seq::empty()
                    } else {
                        rest.skip(e + 1)
                    }
                },
            }
        }
    }
}

pub proof fn lemma_find_from_props(s: Seq<char>, from: int, c: char)
    requires
        0 <= from <= s.len(),
    ensures
        from <= find_from(s, from, c) <= s.len(),
        find_from(s, from, c) < s.len() ==> s[find_from(s, from, c)] == c,
        forall|k: int| from <= k < find_from(s, from, c) ==> s[k] != c,
    decreases s.len() - from,
{
    if from < s.len() && s[from] != c {
        lemma_find_from_props(s, from + 1, c);
    }
}

pub fn find_from_exec(s: &[char], from: usize, c: char) -> (r: usize)
    requires
        from <= s@.len(),
    ensures
        r == find_from(s@, from as int, c),
{
    let mut i = from;
    while i < s.len() && s[i] != c
        invariant
            from <= i <= s@.len(),
            find_from(s@, i as int, c) == find_from(s@, from as int, c),
        decreases s@.len() - i,
    {
        i = i + 1;
    }
    i
}


/// Position of the first character of `c` that is not whitespace.
fn skip_leading_ws(c: &[char]) -> (r: usize)
    ensures
        r <= c@.len(),
        c@.skip(r as int) == trim_start(c@),
{
    let n = c.len();
    let mut start: usize = 0;
    assert(c@.skip(0) =~= c@);
    while start < n && crate::text::is_ws_char(c[start])
        invariant
            start <= n == c@.len(),
            trim_start(c@) == trim_start(c@.skip(start as int)),
        decreases n - start,
    {
        assert(c@.skip(start as int).drop_first() =~= c@.skip(start + 1));
        start = start + 1;
    }
    start
}

/// The line of `c` starting at `pos`, as `str::lines` gives it, and the
/// position of the `\n` that ends it (or `c.len()`).
fn line_at(c: &[char], pos: usize) -> (r: (Vec<char>, usize))
    requires
        pos < c@.len(),
    ensures
        r.1 == find_from(c@, pos as int, '\n'),
        pos <= r.1 <= c@.len(),
        ({
            let raw = c@.subrange(pos as int, r.1 as int);
            r.0@ == (if r.1 < c@.len() && raw.len() > 0 && raw.last() == '\r' {
                raw.drop_last()
            } else {
                raw
            })
        }),
{
    let n = c.len();
    let line_end = find_from_exec(c, pos, '\n');
    proof {
        lemma_find_from_props(c@, pos as int, '\n');
    }
    let mut text_end = line_end;
    if line_end < n && line_end > pos && c[line_end - 1] == '\r' {
        text_end = line_end - 1;
    }
    let mut line: Vec<char> = Vec::new();
    let mut k: usize = pos;
    while k < text_end
        invariant
            pos <= k <= text_end <= line_end <= n == c@.len(),
            line@ == c@.subrange(pos as int, k as int),
        decreases text_end - k,
    {
        line.push(c[k]);
        k = k + 1;
        assert(line@ =~= c@.subrange(pos as int, k as int));
    }
    let ghost raw = c@.subrange(pos as int, line_end as int);
    assert(line_end < n && raw.len() > 0 && raw.last() == '\r' ==> line@ =~= raw.drop_last());
    assert(!(line_end < n && raw.len() > 0 && raw.last() == '\r') ==> line@ =~= raw);
    (line, line_end)
}

fn is_rule(line: &[char]) -> (r: bool)
    ensures
        r == (trim(line@) == "---"@),
{
    let trimmed = trim_chars(line);
    proof {
        reveal_strlit("---");
    }
    if trimmed.len() == 3 && trimmed[0] == '-' && trimmed[1] == '-' && trimmed[2] == '-' {
        assert(trimmed@ =~= "---"@);
        true
    } else {
        proof {
            if trimmed@ == "---"@ {
                assert(trimmed@[0] == '-' && trimmed@[1] == '-' && trimmed@[2] == '-');
            }
        }
        false
    }
}


/// The body of a note text without its frontmatter (see `frontmatter_body`).
pub fn strip_frontmatter(content: &str) -> (r: String)
    ensures
        r@ == frontmatter_body(content@),
{
    let c = chars_of(content);
    let n = c.len();
    let start = skip_leading_ws(c.as_slice());
    let ghost t = c@.skip(start as int);
    proof {
        reveal_strlit("---");
    }
    if !(n - start >= 3 && c[start] == '-' && c[start + 1] == '-' && c[start + 2] == '-') {
        proof {
            if t.len() >= 3 && t.take(3) == "---"@ {
                assert(t.take(3)[0] == t[0]);
                assert(t.take(3)[1] == t[1]);
                assert(t.take(3)[2] == t[2]);
            }
        }
        return String::from_str(content);
    }
    assert(t.take(3) =~= "---"@);
    let after_start = start + 3;
    let ghost after = t.skip(3);
    assert(after =~= c@.skip(after_start as int));
    let nl = find_from_exec(c.as_slice(), after_start, '\n');
    proof {
        lemma_find_from_props(c@, after_start as int, '\n');
        lemma_find_from_shift(c@, after_start as int, '\n');
    }
    if nl >= n {
        return String::from_str(content);
    }
    let rest_start = nl + 1;
    let ghost rest = c@.skip(rest_start as int);
    assert(rest =~= after.skip(find_from(after, 0, '\n') + 1));
    let p = match find_closing_start(c.as_slice(), rest_start) {
        Some(p) => p,
        None => {
            return String::from_str(content);
        },
    };
    let e = find_from_exec(c.as_slice(), rest_start + p, '\n');
    proof {
        lemma_find_from_props(c@, (rest_start + p) as int, '\n');
        lemma_find_from_shift_rest(c@, rest_start as int, (rest_start + p) as int, '\n');
    }
    if e >= n {
        return String::new();
    }
    let body_start = e + 1;
    assert(rest.skip(e + 1 - rest_start) =~= c@.skip(body_start as int));
    let mut body: Vec<char> = Vec::new();
    let mut k: usize = body_start;
    while k < n
        invariant
            body_start <= k <= n == c@.len(),
            body@ == c@.subrange(body_start as int, k as int),
        decreases n - k,
    {
        body.push(c[k]);
        k = k + 1;
        assert(body@ =~= c@.subrange(body_start as int, k as int));
    }
    assert(body@ =~= c@.skip(body_start as int));
    string_from_chars(body.as_slice())
}

proof fn lemma_find_from_shift(s: Seq<char>, from: int, c: char)
    requires
        0 <= from <= s.len(),
    ensures
        find_from(s.skip(from), 0, c) == find_from(s, from, c) - from,
    decreases s.len() - from,
{
    lemma_find_from_shift_rest(s, from, from, c);
}

proof fn lemma_find_from_shift_rest(s: Seq<char>, base: int, from: int, c: char)
    requires
        0 <= base <= from <= s.len(),
    ensures
        find_from(s.skip(base), from - base, c) == find_from(s, from, c) - base,
    decreases s.len() - from,
{
    if from < s.len() && s[from] != c {
        lemma_find_from_shift_rest(s, base, from + 1, c);
    }
}

/// Where the closing `---` line starts in `rest`, looking line by line
/// from `pos` (lines split as `str::lines` does).
pub open spec fn closing_start(rest: Seq<char>, pos: int) -> Option<int>
    decreases rest.len() - pos,
{
    if pos < 0 || pos >= rest.len() {
        None
    } else {
        let nl = find_from(rest, pos, '\n');
        proof {
            lemma_find_from_props(rest, pos, '\n');
        }
        let raw = rest.subrange(pos, nl);
        let line = if nl < rest.len() && raw.len() > 0 && raw.last() == '\r' {
            raw.drop_last()
        } else {
            raw
        };
        if trim(line) == "---"@ {
            Some(pos)
        } else if nl >= rest.len() {
            None
        } else {
            closing_start(rest, nl + 1)
        }
    }
}

/// The frontmatter of a note text: the lines between the opening `---`
/// line (leading whitespace aside) and the closing `---` line, or `None`
/// when the text has no such block.
pub open spec fn frontmatter_text(content: Seq<char>) -> Option<Seq<char>> {
    let t = trim_start(content);
    if !starts_with(t, "---"@) {
        None
    } else {
        let after = t.skip(3);
        let nl = find_from(after, 0, '\n');
        if nl >= after.len() {
            None
        } else {
            let rest = after.skip(nl + 1);
            match closing_start(rest, 0) {
                None => None,
                Some(p) => Some(rest.take(p)),
            }
        }
    }
}

proof fn lemma_closing_start_bound(rest: Seq<char>, pos: int)
    requires
        0 <= pos,
    ensures
        closing_start(rest, pos) matches Some(p) ==> pos <= p < rest.len(),
    decreases rest.len() - pos,
{
    if 0 <= pos < rest.len() {
        lemma_find_from_props(rest, pos, '\n');
        let nl = find_from(rest, pos, '\n');
        let raw = rest.subrange(pos, nl);
        let line = if nl < rest.len() && raw.len() > 0 && raw.last() == '\r' {
            raw.drop_last()
        } else {
            raw
        };
        if nl < rest.len() && trim(line) != "---"@ {
            lemma_closing_start_bound(rest, nl + 1);
        }
    }
}

proof fn lemma_find_from_in_prefix(a: Seq<char>, b: Seq<char>, pos: int, c: char)
    requires
        0 <= pos <= a.len(),
        find_from(a, pos, c) < a.len(),
    ensures
        find_from(a + b, pos, c) == find_from(a, pos, c),
    decreases a.len() - pos,
{
    assert((a + b)[pos] == a[pos]);
    if a[pos] != c {
        lemma_find_from_in_prefix(a, b, pos + 1, c);
    }
}

/// Lines of `a` (ending in a line break) that hold no closing `---` line
/// are passed over in `a + b` as well.
proof fn lemma_closing_start_concat(a: Seq<char>, b: Seq<char>, pos: int)
    requires
        0 <= pos <= a.len(),
        a.len() > 0,
        a.last() == '\n',
        closing_start(a, pos) is None,
    ensures
        closing_start(a + b, pos) == closing_start(a + b, a.len() as int),
    decreases a.len() - pos,
{
    if pos < a.len() {
        lemma_find_from_props(a, pos, '\n');
        let nl = find_from(a, pos, '\n');
        if nl == a.len() {
            assert(a[a.len() - 1] != '\n');
        }
        lemma_find_from_in_prefix(a, b, pos, '\n');
        assert((a + b).subrange(pos, nl) =~= a.subrange(pos, nl));
        lemma_closing_start_concat(a, b, nl + 1);
    }
}

/// Stripping the frontmatter block of a note text gives back its body:
/// for a frontmatter none of whose lines is a `---` line, and any body,
/// the text `---`, line break, frontmatter, line break, `---`, line break,
/// body loses everything but the body.
pub proof fn lemma_strip_frontmatter_block(fm: Seq<char>, body: Seq<char>)
    requires
        closing_start(fm.push('\n'), 0) is None,
    ensures
        frontmatter_body(seq!['-', '-', '-', '\n'] + fm + seq!['\n', '-', '-', '-', '\n'] + body) == body,
{
    reveal_strlit("---");
    let content = seq!['-', '-', '-', '\n'] + fm + seq!['\n', '-', '-', '-', '\n'] + body;
    assert(content[0] == '-');
    assert(trim_start(content) == content);
    assert(content.take(3) =~= "---"@);
    let after = content.skip(3);
    assert(after[0] == '\n');
    assert(find_from(after, 0, '\n') == 0);
    let a = fm.push('\n');
    let b = seq!['-', '-', '-', '\n'] + body;
    let rest = after.skip(1);
    assert(rest =~= a + b);
    lemma_closing_start_concat(a, b, 0);
    let p = a.len() as int;
    assert(rest[p] == '-' && rest[p + 1] == '-' && rest[p + 2] == '-' && rest[p + 3] == '\n');
    assert(find_from(rest, p + 3, '\n') == p + 3);
    assert(find_from(rest, p + 2, '\n') == p + 3);
    assert(find_from(rest, p + 1, '\n') == p + 3);
    assert(find_from(rest, p, '\n') == p + 3);
    let raw = rest.subrange(p, p + 3);
    assert(raw =~= "---"@);
    assert(raw.last() == '-');
    assert(trim_start(raw) == raw);
    assert(trim_end(raw) == raw);
    assert(closing_start(rest, p) == Some(p));
    assert(rest.skip(p + 4) =~= body);
}

/// `closing_start` of the text from `rest_start` on.
fn find_closing_start(c: &[char], rest_start: usize) -> (r: Option<usize>)
    requires
        rest_start <= c@.len(),
    ensures
        match closing_start(c@.skip(rest_start as int), 0) {
            Some(p) => r == Some(p as usize) && 0 <= p < c@.len() - rest_start,
            None => r is None,
        },
{
    let n = c.len();
    let ghost rest = c@.skip(rest_start as int);
    let mut pos: usize = rest_start;
    proof {
        lemma_closing_start_bound(rest, 0);
    }
    while pos < n
        invariant
            rest_start <= pos <= n == c@.len(),
            rest == c@.skip(rest_start as int),
            closing_start(rest, 0) == closing_start(rest, pos - rest_start),
        decreases n - pos,
    {
        let (line, line_end) = line_at(c, pos);
        proof {
            lemma_find_from_shift_rest(c@, rest_start as int, pos as int, '\n');
            let raw = rest.subrange(pos - rest_start, line_end - rest_start);
            assert(raw =~= c@.subrange(pos as int, line_end as int));
        }
        if is_rule(line.as_slice()) {
            proof {
                lemma_closing_start_bound(rest, 0);
            }
            return Some(pos - rest_start);
        }
        if line_end >= n {
            return None;
        }
        pos = line_end + 1;
    }
    None
}

/// The frontmatter of a note text (see `frontmatter_text`).
pub fn frontmatter_yaml(content: &str) -> (r: Option<String>)
    ensures
        match frontmatter_text(content@) {
            Some(y) => r matches Some(s) && s@ == y,
            None => r is None,
        },
{
    let c = chars_of(content);
    let n = c.len();
    let start = skip_leading_ws(c.as_slice());
    let ghost t = c@.skip(start as int);
    proof {
        reveal_strlit("---");
    }
    if !(n - start >= 3 && c[start] == '-' && c[start + 1] == '-' && c[start + 2] == '-') {
        proof {
            if t.len() >= 3 && t.take(3) == "---"@ {
                assert(t.take(3)[0] == t[0]);
                assert(t.take(3)[1] == t[1]);
                assert(t.take(3)[2] == t[2]);
            }
        }
        return None;
    }
    assert(t.take(3) =~= "---"@);
    let after_start = start + 3;
    let ghost after = t.skip(3);
    assert(after =~= c@.skip(after_start as int));
    let nl = find_from_exec(c.as_slice(), after_start, '\n');
    proof {
        lemma_find_from_props(c@, after_start as int, '\n');
        lemma_find_from_shift(c@, after_start as int, '\n');
    }
    if nl >= n {
        return None;
    }
    let rest_start = nl + 1;
    let ghost rest = c@.skip(rest_start as int);
    assert(rest =~= after.skip(find_from(after, 0, '\n') + 1));
    let p = match find_closing_start(c.as_slice(), rest_start) {
        Some(p) => p,
        None => {
            return None;
        },
    };
    let mut yaml: Vec<char> = Vec::new();
    let mut k: usize = rest_start;
    while k < rest_start + p
        invariant
            rest_start <= k <= rest_start + p <= n == c@.len(),
            yaml@ == c@.subrange(rest_start as int, k as int),
        decreases rest_start + p - k,
    {
        yaml.push(c[k]);
        k = k + 1;
        assert(yaml@ =~= c@.subrange(rest_start as int, k as int));
    }
    assert(yaml@ =~= rest.take(p as int));
    Some(string_from_chars(yaml.as_slice()))
}

} // verus!
