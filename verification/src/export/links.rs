//! Resolving internal note references in exported markdown: a link
//! `[text](ID)` whose target is a note's identifier prefix becomes a link to
//! that note's HTML page.

use vstd::prelude::*;
use vstd::string::StringExecFns;
use crate::cli::index::{notes_view, IndexedNote, IndexedNoteView, NoteIndex};
use crate::cli::new::{find_from, lemma_find_from_props, slug, slugify};
use crate::text::{
    chars_of, chars_starts_with, is_ascii_alnum, is_ascii_alnum_char, is_ascii_digit,
    lowercase_of, all_ascii, ascii_lower_seq, push_char, starts_with, str_eq, string_from_chars, to_lowercase,
};

verus! {

/// How many links were resolved or found broken, and the rewritten text.
#[derive(Debug)]
pub struct LinkResolution {
    /// The text with its links rewritten.
    pub content: String,
    /// Number of links resolved to a note.
    pub resolved: usize,
    /// Number of links that look like a note identifier but match no note.
    pub broken: usize,
}

/// What to do with a link to a note that does not exist.
#[derive(Debug, Clone, Copy, PartialEq, Eq, Structural)]
pub enum BrokenLinkHandling {
    /// Leave the link as it is.
    Preserve,
    /// Point it at `#` with a title saying it is broken.
    MarkBroken,
    /// Drop the link, keeping its text.
    RemoveLink,
}

/// Options for link resolution.
#[derive(Debug)]
pub struct LinkResolverOptions {
    pub broken_link_handling: BrokenLinkHandling,
    /// Prefix of the resolved paths (`""` for the same directory, `"../"` for the parent).
    pub base_path: String,
}

impl Default for LinkResolverOptions {
    fn default() -> (r: LinkResolverOptions)
        ensures
            r.broken_link_handling == BrokenLinkHandling::MarkBroken,
            r.base_path@ == Seq::<char>::empty(),
    {
        LinkResolverOptions {
            broken_link_handling: BrokenLinkHandling::MarkBroken,
            base_path: String::new(),
        }
    }
}

/// A link target that is no note reference: a URL (`http://`, `https://`,
/// `mailto:`, `tel:`, `ftp://`, compared after lowercasing), an anchor, or
/// anything holding `/` or `.`.
pub open spec fn external_link(target: Seq<char>) -> bool {
    let lower = if all_ascii(target) {
        ascii_lower_seq(target)
    } else {
        lowercase_of(target)
    };
    ||| starts_with(lower, "http://"@)
    ||| starts_with(lower, "https://"@)
    ||| starts_with(lower, "mailto:"@)
    ||| starts_with(lower, "tel:"@)
    ||| starts_with(lower, "ftp://"@)
    ||| starts_with(lower, "#"@)
    ||| target.contains('/')
    ||| target.contains('.')
}

fn chars_contain(v: &[char], c: char) -> (r: bool)
    ensures
        r == v@.contains(c),
{
    let mut i: usize = 0;
    while i < v.len()
        invariant
            i <= v@.len(),
            forall|j: int| 0 <= j < i ==> v@[j] != c,
        decreases v@.len() - i,
    {
        if v[i] == c {
            return true;
        }
        i = i + 1;
    }
    false
}

/// Whether a link target is external (see `external_link`).
pub fn is_external_link(target: &str) -> (r: bool)
    ensures
        r == external_link(target@),
{
    let lower = to_lowercase(target);
    let l = chars_of(lower.as_str());
    let t = chars_of(target);
    let s = l.as_slice();
    chars_starts_with(s, chars_of("http://").as_slice()) || chars_starts_with(
        s,
        chars_of("https://").as_slice(),
    ) || chars_starts_with(s, chars_of("mailto:").as_slice()) || chars_starts_with(
        s,
        chars_of("tel:").as_slice(),
    ) || chars_starts_with(s, chars_of("ftp://").as_slice()) || chars_starts_with(
        s,
        chars_of("#").as_slice(),
    ) || chars_contain(t.as_slice(), '/') || chars_contain(t.as_slice(), '.')
}

/// A possible identifier prefix: 4 to 26 ASCII letters and digits, starting
/// with a digit.
pub open spec fn note_id_like(s: Seq<char>) -> bool {
    &&& 4 <= s.len() <= 26
    &&& forall|i: int| 0 <= i < s.len() ==> is_ascii_alnum(#[trigger] s[i])
    &&& is_ascii_digit(s[0])
}

/// Whether a string looks like a note identifier prefix.
pub fn looks_like_note_id(s: &str) -> (r: bool)
    ensures
        r == note_id_like(s@),
{
    let v = chars_of(s);
    if v.len() < 4 || v.len() > 26 {
        return false;
    }
    let mut i: usize = 0;
    while i < v.len()
        invariant
            i <= v@.len(),
            v@ == s@,
            4 <= v@.len() <= 26,
            forall|j: int| 0 <= j < i ==> is_ascii_alnum(#[trigger] v@[j]),
        decreases v@.len() - i,
    {
        if !is_ascii_alnum_char(v[i]) {
            return false;
        }
        i = i + 1;
    }
    '0' <= v[0] && v[0] <= '9'
}

/// A resolver entry: a note's identifier text, the slug of its title, and
/// its title.
pub type ResolverEntry = (Seq<char>, Seq<char>, Seq<char>);

/// The entries of a resolver for `notes`, in order.
pub open spec fn resolver_entries(notes: Seq<IndexedNoteView>) -> Seq<ResolverEntry> {
    notes.map_values(|n: IndexedNoteView| (n.id.spec_text(), slug(n.title), n.title))
}

/// The slug and title of the last entry whose identifier starts with
/// `target`, if any.
pub open spec fn find_entry(entries: Seq<ResolverEntry>, target: Seq<char>) -> Option<(Seq<char>, Seq<char>)>
    decreases entries.len(),
{
    if entries.len() == 0 {
        None
    } else if starts_with(entries.last().0, target) {
        Some((entries.last().1, entries.last().2))
    } else {
        find_entry(entries.drop_last(), target)
    }
}

/// The note a link target refers to: a target that looks like an identifier
/// prefix (4 to 26 characters) refers to the note whose identifier starts
/// with it (the last such note, should several share the prefix).
pub open spec fn note_ref(entries: Seq<ResolverEntry>, target: Seq<char>) -> Option<(Seq<char>, Seq<char>)> {
    if note_id_like(target) {
        find_entry(entries, target)
    } else {
        None
    }
}

/// A markdown link `[text](target)` starting at `i`: the positions of the
/// `]` and of the closing `)`.  The text holds no `]`, the target at least
/// one character and no `)`.
pub open spec fn link_at(s: Seq<char>, i: int) -> Option<(int, int)> {
    if 0 <= i < s.len() && s[i] == '[' {
        let j = find_from(s, i + 1, ']');
        if j + 1 < s.len() && s[j + 1] == '(' {
            let k = find_from(s, j + 2, ')');
            if k < s.len() && k > j + 2 {
                Some((j, k))
            } else {
                None
            }
        } else {
            None
        }
    } else {
        None
    }
}

/// The replacement of one link, and how it counts (resolved, broken).
pub open spec fn replace_link(
    text: Seq<char>,
    target: Seq<char>,
    whole: Seq<char>,
    entries: Seq<ResolverEntry>,
    handling: BrokenLinkHandling,
    base: Seq<char>,
) -> (Seq<char>, nat, nat) {
    if external_link(target) {
        (whole, 0, 0)
    } else if note_ref(entries, target) is Some {
        ("["@ + text + "]("@ + base + note_ref(entries, target)->Some_0.0 + ".html)"@, 1, 0)
    } else if note_id_like(target) {
        match handling {
            BrokenLinkHandling::Preserve => (whole, 0, 1),
            BrokenLinkHandling::MarkBroken => (
                "["@ + text + "](# \"Broken link: "@ + target + "\")"@,
                0,
                1,
            ),
            BrokenLinkHandling::RemoveLink => (text, 0, 1),
        }
    } else {
        (whole, 0, 0)
    }
}

/// Rewriting the links of `s` from position `i` on, scanning left to right
/// for non-overlapping links (as a regular-expression replacement does).
pub open spec fn resolve_from(
    s: Seq<char>,
    i: int,
    entries: Seq<ResolverEntry>,
    handling: BrokenLinkHandling,
    base: Seq<char>,
) -> (Seq<char>, nat, nat)
    decreases s.len() - i,
{
    if i < 0 || i >= s.len() {
        (Seq::empty(), 0, 0)
    } else {
        match link_at(s, i) {
            Some((j, k)) => {
                proof {
                    lemma_find_from_props(s, i + 1, ']');
                }
                let rep = replace_link(
                    s.subrange(i + 1, j),
                    s.subrange(j + 2, k),
                    s.subrange(i, k + 1),
                    entries,
                    handling,
                    base,
                );
                let rest = resolve_from(s, k + 1, entries, handling, base);
                (rep.0 + rest.0, rep.1 + rest.1, rep.2 + rest.2)
            },
            None => {
                let rest = resolve_from(s, i + 1, entries, handling, base);
                (seq![s[i]] + rest.0, rest.1, rest.2)
            },
        }
    }
}

/// No markdown link of `s` has a target that looks like a note identifier.
pub open spec fn no_note_like_targets(s: Seq<char>) -> bool {
    forall|i: int|
        #[trigger] link_at(s, i) is Some ==> !note_id_like(
            s.subrange(link_at(s, i)->Some_0.0 + 2, link_at(s, i)->Some_0.1),
        )
}

proof fn lemma_resolve_keeps_suffix(
    s: Seq<char>,
    i: int,
    entries: Seq<ResolverEntry>,
    handling: BrokenLinkHandling,
    base: Seq<char>,
)
    requires
        0 <= i <= s.len(),
        no_note_like_targets(s),
    ensures
        resolve_from(s, i, entries, handling, base) == (s.subrange(i, s.len() as int), 0nat, 0nat),
    decreases s.len() - i,
{
    if i == s.len() {
        assert(s.subrange(i, s.len() as int) =~= Seq::<char>::empty());
    } else {
        match link_at(s, i) {
            Some((j, k)) => {
                lemma_find_from_props(s, i + 1, ']');
                assert(!note_id_like(s.subrange(j + 2, k)));
                lemma_resolve_keeps_suffix(s, k + 1, entries, handling, base);
                assert(s.subrange(i, k + 1) + s.subrange(k + 1, s.len() as int) =~= s.subrange(
                    i,
                    s.len() as int,
                ));
            },
            None => {
                lemma_resolve_keeps_suffix(s, i + 1, entries, handling, base);
                assert(seq![s[i]] + s.subrange(i + 1, s.len() as int) =~= s.subrange(i, s.len() as int));
            },
        }
    }
}

/// Links whose target is no note reference are left as they are: on a text
/// none of whose link targets looks like a note identifier, resolving gives
/// the text back unchanged, with nothing resolved and nothing broken,
/// whatever the notes and the options.
pub proof fn lemma_resolve_keeps_other_links(
    s: Seq<char>,
    entries: Seq<ResolverEntry>,
    handling: BrokenLinkHandling,
    base: Seq<char>,
)
    requires
        no_note_like_targets(s),
    ensures
        resolve_from(s, 0, entries, handling, base) == (s, 0nat, 0nat),
{
    lemma_resolve_keeps_suffix(s, 0, entries, handling, base);
    assert(s.subrange(0, s.len() as int) =~= s);
}

/// A target that looks like an identifier is never an external link.
proof fn lemma_id_like_not_external(t: Seq<char>)
    requires
        note_id_like(t),
    ensures
        !external_link(t),
{
    assert(all_ascii(t)) by {
        assert forall|i: int| 0 <= i < t.len() implies (#[trigger] t[i] as u32) < 128 by {
            assert(is_ascii_alnum(t[i]));
        }
    }
    let lower = ascii_lower_seq(t);
    assert forall|i: int| 0 <= i < lower.len() implies (#[trigger] lower[i]) != ':' && lower[i] != '#' by {
        assert(is_ascii_alnum(t[i]));
    }
    reveal_strlit("http://");
    reveal_strlit("https://");
    reveal_strlit("mailto:");
    reveal_strlit("tel:");
    reveal_strlit("ftp://");
    reveal_strlit("#");
    if starts_with(lower, "http://"@) {
        assert(lower.take(7)[4] == ':');
    }
    if starts_with(lower, "https://"@) {
        assert(lower.take(8)[5] == ':');
    }
    if starts_with(lower, "mailto:"@) {
        assert(lower.take(7)[6] == ':');
    }
    if starts_with(lower, "tel:"@) {
        assert(lower.take(4)[3] == ':');
    }
    if starts_with(lower, "ftp://"@) {
        assert(lower.take(6)[3] == ':');
    }
    if starts_with(lower, "#"@) {
        assert(lower.take(1)[0] == '#');
    }
    if t.contains('/') {
        let i = choose|i: int| 0 <= i < t.len() && t[i] == '/';
        assert(is_ascii_alnum(t[i]));
    }
    if t.contains('.') {
        let i = choose|i: int| 0 <= i < t.len() && t[i] == '.';
        assert(is_ascii_alnum(t[i]));
    }
}

/// What resolving does to one markdown link `[text](target)`: a target
/// that is a prefix of a note's identifier becomes `<base><slug>.html` (one
/// resolved); a target that only looks like an identifier is kept, stripped
/// to its text, or marked, as `handling` says (one broken); any other link
/// is kept as it is.
pub proof fn lemma_resolve_one_link(
    text: Seq<char>,
    target: Seq<char>,
    entries: Seq<ResolverEntry>,
    handling: BrokenLinkHandling,
    base: Seq<char>,
)
    requires
        !text.contains(']'),
        !target.contains(')'),
        target.len() > 0,
    ensures
        ({
            let whole = "["@ + text + "]("@ + target + ")"@;
            let r = resolve_from(whole, 0, entries, handling, base);
            if note_ref(entries, target) is Some {
                r == ("["@ + text + "]("@ + base + note_ref(entries, target)->Some_0.0 + ".html)"@, 1nat, 0nat)
            } else if note_id_like(target) {
                &&& r.1 == 0 && r.2 == 1
                &&& handling == BrokenLinkHandling::Preserve ==> r.0 == whole
                &&& handling == BrokenLinkHandling::RemoveLink ==> r.0 == text
                &&& handling == BrokenLinkHandling::MarkBroken ==> r.0 == "["@ + text + "](# \"Broken link: "@
                    + target + "\")"@
            } else {
                r == (whole, 0nat, 0nat)
            }
        }),
{
    reveal_strlit("[");
    reveal_strlit("](");
    reveal_strlit(")");
    let whole = "["@ + text + "]("@ + target + ")"@;
    let tl = text.len() as int;
    let j = tl + 1;
    let k = tl + 3 + target.len();
    assert(whole.len() == k + 1);
    assert(whole[0] == '[');
    assert(whole[j] == ']');
    assert(whole[j + 1] == '(');
    assert(whole[k] == ')');
    assert forall|q: int| 1 <= q < j implies whole[q] != ']' by {
        assert(whole[q] == text[q - 1]);
    }
    assert forall|q: int| j + 2 <= q < k implies whole[q] != ')' by {
        assert(whole[q] == target[q - j - 2]);
    }
    lemma_find_from_props(whole, 1, ']');
    lemma_find_from_props(whole, j + 2, ')');
    assert(find_from(whole, 1, ']') == j);
    assert(find_from(whole, j + 2, ')') == k);
    assert(link_at(whole, 0) == Some((j, k)));
    assert(whole.subrange(1, j) =~= text);
    assert(whole.subrange(j + 2, k) =~= target);
    assert(whole.subrange(0, k + 1) =~= whole);
    assert(resolve_from(whole, k + 1, entries, handling, base) == (Seq::<char>::empty(), 0nat, 0nat));
    let rep = replace_link(text, target, whole, entries, handling, base);
    assert(rep.0 + Seq::<char>::empty() =~= rep.0);
    assert(resolve_from(whole, 0, entries, handling, base) == (rep.0, rep.1, rep.2));
    if note_id_like(target) {
        lemma_id_like_not_external(target);
    }
}

/// Resolves note references in exported markdown.
pub struct LinkResolver<'a> {
    /// (identifier text, slug of the title, title), one per note, in order.
    note_map: Vec<(String, String, String)>,
    options: &'a LinkResolverOptions,
}

pub open spec fn entries_view(v: Seq<(String, String, String)>) -> Seq<ResolverEntry> {
    v.map_values(|e: (String, String, String)| (e.0@, e.1@, e.2@))
}

impl<'a> LinkResolver<'a> {
    pub closed spec fn spec_entries(&self) -> Seq<ResolverEntry> {
        entries_view(self.note_map@)
    }

    pub closed spec fn spec_options(&self) -> &'a LinkResolverOptions {
        self.options
    }

    /// A resolver for the notes of an index.
    pub fn from_index(index: &NoteIndex, options: &'a LinkResolverOptions) -> (r: LinkResolver<'a>)
        ensures
            r.spec_entries() == resolver_entries(index@),
            r.spec_options() == options,
    {
        let notes = index.list_all();
        LinkResolver::from_notes(notes.as_slice(), options)
    }

    /// A resolver for the given notes: each note's identifier, with the slug
    /// of its title and the title.
    pub fn from_notes(notes: &[IndexedNote], options: &'a LinkResolverOptions) -> (r: LinkResolver<'a>)
        ensures
            r.spec_entries() == resolver_entries(notes_view(notes@)),
            r.spec_options() == options,
    {
        let ghost nv = notes_view(notes@);
        let mut map: Vec<(String, String, String)> = Vec::new();
        let mut i: usize = 0;
        while i < notes.len()
            invariant
                i <= notes@.len(),
                nv == notes_view(notes@),
                entries_view(map@) =~= resolver_entries(nv.take(i as int)),
            decreases notes@.len() - i,
        {
            let note = &notes[i];
            assert(nv[i as int] == note@);
            let ghost before = map@;
            map.push((note.id().to_string(), slugify(note.title()), String::from_str(note.title())));
            assert(entries_view(map@) =~= entries_view(before).push(
                (map@[i as int].0@, map@[i as int].1@, map@[i as int].2@),
            ));
            assert(nv.take(i + 1) =~= nv.take(i as int).push(nv[i as int]));
            i = i + 1;
        }
        assert(nv.take(nv.len() as int) =~= nv);
        LinkResolver { note_map: map, options }
    }

    /// The slug and title of the note that `id_prefix` refers to (see
    /// `note_ref`).
    pub fn lookup(&self, id_prefix: &str) -> (r: Option<(&str, &str)>)
        ensures
            match note_ref(self.spec_entries(), id_prefix@) {
                Some((s, t)) => r matches Some((a, b)) && a@ == s && b@ == t,
                None => r is None,
            },
    {
        if !looks_like_note_id(id_prefix) {
            return None;
        }
        let ghost ev = entries_view(self.note_map@);
        let p = chars_of(id_prefix);
        let mut i: usize = self.note_map.len();
        assert(ev.take(i as int) =~= ev);
        while i > 0
            invariant
                i <= self.note_map@.len(),
                ev == entries_view(self.note_map@),
                p@ == id_prefix@,
                note_id_like(id_prefix@),
                find_entry(ev, id_prefix@) == find_entry(ev.take(i as int), id_prefix@),
            decreases i,
        {
            let e = &self.note_map[i - 1];
            let ghost t = ev.take(i as int);
            assert(t.last() == ev[i - 1]);
            assert(t.drop_last() =~= ev.take(i - 1));
            assert(ev[i - 1] == (e.0@, e.1@, e.2@));
            let ec = chars_of(e.0.as_str());
            if chars_starts_with(ec.as_slice(), p.as_slice()) {
                assert(starts_with(t.last().0, id_prefix@));
                assert(find_entry(t, id_prefix@) == Some((e.1@, e.2@)));
                let a = e.1.as_str();
                let b = e.2.as_str();
                assert(a@ == e.1@ && b@ == e.2@);
                assert(note_ref(self.spec_entries(), id_prefix@) == Some((a@, b@)));
                return Some((a, b));
            }
            i = i - 1;
        }
        None
    }

    /// Rewrites the note references of markdown `content`: a link
    /// `[text](target)` whose target is a prefix (4 to 26 characters) of a
    /// note's identifier points to
    /// `<base_path><slug>.html`; a target that looks like an identifier but
    /// matches no note is handled as the options say; other links stay.
    pub fn resolve(&self, content: &str) -> (r: LinkResolution)
        ensures
            ({
                let res = resolve_from(
                    content@,
                    0,
                    self.spec_entries(),
                    self.spec_options().broken_link_handling,
                    self.spec_options().base_path@,
                );
                &&& r.content@ == res.0
                &&& r.resolved == res.1
                &&& r.broken == res.2
            }),
    {
        let c = chars_of(content);
        let n = c.len();
        let ghost map = self.spec_entries();
        let ghost handling = self.spec_options().broken_link_handling;
        let ghost base = self.spec_options().base_path@;
        let mut out = String::new();
        let mut resolved: usize = 0;
        let mut broken: usize = 0;
        let mut i: usize = 0;
        while i < n
            invariant
                i <= n == c@.len(),
                c@ == content@,
                map == self.spec_entries(),
                handling == self.spec_options().broken_link_handling,
                base == self.spec_options().base_path@,
                resolved <= i,
                broken <= i,
                ({
                    let rest = resolve_from(c@, i as int, map, handling, base);
                    let all = resolve_from(c@, 0, map, handling, base);
                    &&& out@ + rest.0 == all.0
                    &&& resolved + rest.1 == all.1
                    &&& broken + rest.2 == all.2
                }),
            decreases n - i,
        {
            match self.link_end(c.as_slice(), i) {
                Some((j, k)) => {
                    proof {
                        lemma_find_from_props(c@, i + 1, ']');
                        lemma_find_from_props(c@, j + 2, ')');
                    }
                    let (rep, r_add, b_add) = self.replace_one(c.as_slice(), i, j, k);
                    let ghost before = out@;
                    let ghost rest_after = resolve_from(c@, k + 1, map, handling, base);
                    out.append(rep.as_str());
                    assert(before + (rep@ + rest_after.0) =~= out@ + rest_after.0);
                    resolved = resolved + r_add;
                    broken = broken + b_add;
                    i = k + 1;
                },
                None => {
                    let ghost before = out@;
                    let ghost rest_after = resolve_from(c@, i + 1, map, handling, base);
                    push_char(&mut out, c[i]);
                    assert(before + (seq![c@[i as int]] + rest_after.0) =~= out@ + rest_after.0);
                    i = i + 1;
                },
            }
        }
        LinkResolution { content: out, resolved, broken }
    }

    /// The link starting at `i`, if any (see `link_at`).
    fn link_end(&self, c: &[char], i: usize) -> (r: Option<(usize, usize)>)
        requires
            i < c@.len(),
        ensures
            match link_at(c@, i as int) {
                Some((j, k)) => r == Some((j as usize, k as usize)) && i < j && j + 2 < k < c@.len(),
                None => r is None,
            },
    {
        if c[i] != '[' {
            return None;
        }
        let j = crate::cli::new::find_from_exec(c, i + 1, ']');
        proof {
            lemma_find_from_props(c@, i + 1, ']');
        }
        if !(j < c.len() - 1 && c[j + 1] == '(') {
            return None;
        }
        let k = crate::cli::new::find_from_exec(c, j + 2, ')');
        proof {
            lemma_find_from_props(c@, j + 2, ')');
        }
        if k < c.len() && k > j + 2 {
            Some((j, k))
        } else {
            None
        }
    }

    /// The replacement of the link `c[i..=k]` whose `]` is at `j`.
    fn replace_one(&self, c: &[char], i: usize, j: usize, k: usize) -> (r: (String, usize, usize))
        requires
            i < j,
            j + 2 < k < c@.len(),
        ensures
            ({
                let rep = replace_link(
                    c@.subrange(i + 1, j as int),
                    c@.subrange(j + 2, k as int),
                    c@.subrange(i as int, k + 1),
                    self.spec_entries(),
                    self.spec_options().broken_link_handling,
                    self.spec_options().base_path@,
                );
                &&& r.0@ == rep.0
                &&& r.1 == rep.1
                &&& r.2 == rep.2
            }),
    {
        let n = c.len();
        assert(k < n);
        let text = string_from_chars(slice_range(c, i + 1, j).as_slice());
        let target = string_from_chars(slice_range(c, j + 2, k).as_slice());
        let whole = string_from_chars(slice_range(c, i, k + 1).as_slice());
        if is_external_link(target.as_str()) {
            return (whole, 0, 0);
        }
        match self.lookup(target.as_str()) {
            Some((slug_text, _title)) => {
                let mut s = String::from_str("[");
                s.append(text.as_str());
                s.append("](");
                s.append(self.options.base_path.as_str());
                s.append(slug_text);
                s.append(".html)");
                (s, 1, 0)
            },
            None => {
                if looks_like_note_id(target.as_str()) {
                    match self.options.broken_link_handling {
                        BrokenLinkHandling::Preserve => (whole, 0, 1),
                        BrokenLinkHandling::MarkBroken => {
                            let mut s = String::from_str("[");
                            s.append(text.as_str());
                            s.append("](# \"Broken link: ");
                            s.append(target.as_str());
                            s.append("\")");
                            (s, 0, 1)
                        },
                        BrokenLinkHandling::RemoveLink => (text, 0, 1),
                    }
                } else {
                    (whole, 0, 0)
                }
            },
        }
    }
}

/// The characters `c[from..to]`.
fn slice_range(c: &[char], from: usize, to: usize) -> (r: Vec<char>)
    requires
        from <= to <= c@.len(),
    ensures
        r@ == c@.subrange(from as int, to as int),
{
    let mut out: Vec<char> = Vec::new();
    let mut k = from;
    while k < to
        invariant
            from <= k <= to <= c@.len(),
            out@ == c@.subrange(from as int, k as int),
        decreases to - k,
    {
        out.push(c[k]);
        k = k + 1;
        assert(out@ =~= c@.subrange(from as int, k as int));
    }
    out
}

} // verus!
