//! Notes: identity, title, timestamps and organizational metadata.

use vstd::prelude::*;
use vstd::string::StringExecFns;
use crate::domain::link::Link;
use crate::domain::note_id::NoteId;
use crate::domain::tag::Tag;
use crate::domain::timestamp::Timestamp;
use crate::domain::topic::Topic;
use crate::text::{chars_of, lowercase_of, string_from_chars, to_lowercase, trim, trim_chars};

verus! {

/// Keeps the first occurrence of each element, in order.
pub open spec fn dedup_first<A>(s: Seq<A>) -> Seq<A>
    decreases s.len(),
{
    if s.len() == 0 {
        s
    } else {
        let d = dedup_first(s.drop_last());
        if d.contains(s.last()) {
            d
        } else {
            d.push(s.last())
        }
    }
}

pub open spec fn topics_view(v: Seq<Topic>) -> Seq<Seq<Seq<char>>> {
    v.map_values(|t: Topic| t@)
}

pub open spec fn tags_view(v: Seq<Tag>) -> Seq<Seq<char>> {
    v.map_values(|t: Tag| t@)
}

pub open spec fn strings_view(v: Seq<String>) -> Seq<Seq<char>> {
    v.map_values(|s: String| s@)
}

/// Alias clean-up, read left to right with the lower-cased forms seen so far:
/// aliases are trimmed, empty ones dropped, and one whose lowercase was seen is skipped.
pub open spec fn alias_fold(s: Seq<Seq<char>>) -> (Seq<Seq<char>>, Seq<Seq<char>>)
    decreases s.len(),
{
    if s.len() == 0 {
        (Seq::<Seq<char>>::empty(), Seq::<Seq<char>>::empty())
    } else {
        let (seen, kept) = alias_fold(s.drop_last());
        let t = trim(s.last());
        if t.len() == 0 || seen.contains(lowercase_of(t)) {
            (seen, kept)
        } else {
            (seen.push(lowercase_of(t)), kept.push(t))
        }
    }
}

/// The aliases a note keeps from the given list.
pub open spec fn dedup_aliases_spec(s: Seq<Seq<char>>) -> Seq<Seq<char>> {
    alias_fold(s).1
}

/// A description as stored: trimmed, and absent when empty.
pub open spec fn description_spec(d: Option<Seq<char>>) -> Option<Seq<char>> {
    match d {
        Some(t) => if trim(t).len() == 0 {
            None
        } else {
            Some(trim(t))
        },
        None => None,
    }
}

proof fn lemma_dedup_step<A>(s: Seq<A>)
    requires
        s.len() > 0,
    ensures
        dedup_first(s) == (if dedup_first(s.drop_last()).contains(s.last()) {
            dedup_first(s.drop_last())
        } else {
            dedup_first(s.drop_last()).push(s.last())
        }),
{
}

/// A copy of a list of topics.
pub fn clone_topics(v: &[Topic]) -> (r: Vec<Topic>)
    ensures
        topics_view(r@) == topics_view(v@),
{
    let mut out: Vec<Topic> = Vec::new();
    let mut i: usize = 0;
    while i < v.len()
        invariant
            i <= v@.len(),
            out@.len() == i,
            forall|j: int| 0 <= j < i ==> (#[trigger] out@[j])@ == v@[j]@,
        decreases v@.len() - i,
    {
        out.push(v[i].clone());
        i = i + 1;
    }
    assert(topics_view(out@) =~= topics_view(v@));
    out
}

/// A copy of a list of tags.
pub fn clone_tags(v: &[Tag]) -> (r: Vec<Tag>)
    ensures
        tags_view(r@) == tags_view(v@),
{
    let mut out: Vec<Tag> = Vec::new();
    let mut i: usize = 0;
    while i < v.len()
        invariant
            i <= v@.len(),
            out@.len() == i,
            forall|j: int| 0 <= j < i ==> (#[trigger] out@[j])@ == v@[j]@,
        decreases v@.len() - i,
    {
        out.push(v[i].clone());
        i = i + 1;
    }
    assert(tags_view(out@) =~= tags_view(v@));
    out
}

/// A copy of a list of strings.
pub fn clone_strings(v: &[String]) -> (r: Vec<String>)
    ensures
        strings_view(r@) == strings_view(v@),
{
    let mut out: Vec<String> = Vec::new();
    let mut i: usize = 0;
    while i < v.len()
        invariant
            i <= v@.len(),
            out@.len() == i,
            forall|j: int| 0 <= j < i ==> (#[trigger] out@[j])@ == v@[j]@,
        decreases v@.len() - i,
    {
        out.push(v[i].clone());
        i = i + 1;
    }
    assert(strings_view(out@) =~= strings_view(v@));
    out
}

/// A copy of an optional text.
pub fn clone_opt_str(o: Option<&str>) -> (r: Option<String>)
    ensures
        opt_view(r) == (match o {
            Some(s) => Some(s@),
            None => None::<Seq<char>>,
        }),
{
    match o {
        Some(s) => Some(String::from_str(s)),
        None => None,
    }
}

/// Removes duplicate topics, keeping the first occurrence of each.
pub fn deduplicate_topics(topics: Vec<Topic>) -> (r: Vec<Topic>)
    ensures
        topics_view(r@) == dedup_first(topics_view(topics@)),
{
    let mut seen: Vec<Topic> = Vec::new();
    let mut i: usize = 0;
    assert(topics_view(topics@).take(0) =~= Seq::<Seq<Seq<char>>>::empty());
    assert(topics_view(seen@) =~= Seq::<Seq<Seq<char>>>::empty());
    while i < topics.len()
        invariant
            i <= topics@.len(),
            topics_view(seen@) == dedup_first(topics_view(topics@).take(i as int)),
        decreases topics@.len() - i,
    {
        let t = &topics[i];
        let mut found = false;
        let mut j: usize = 0;
        while j < seen.len()
            invariant
                j <= seen@.len(),
                found == exists|k: int| 0 <= k < j && seen@[k]@ == t@,
            decreases seen@.len() - j,
        {
            if seen[j] == *t {
                found = true;
            }
            j = j + 1;
        }
        let ghost prev = topics_view(topics@).take(i as int);
        let ghost next = topics_view(topics@).take(i + 1);
        assert(next.drop_last() =~= prev);
        assert(next.last() == t@);
        proof {
            lemma_dedup_step(next);
            if found {
                let k = choose|k: int| 0 <= k < seen@.len() && seen@[k]@ == t@;
                assert(topics_view(seen@)[k] == t@);
            } else {
                assert forall|k: int| 0 <= k < topics_view(seen@).len() implies topics_view(
                    seen@,
                )[k] != t@ by {
                    assert(topics_view(seen@)[k] == seen@[k]@);
                }
            }
        }
        if !found {
            let ghost before = seen@;
            seen.push(t.clone());
            assert(topics_view(seen@) =~= topics_view(before).push(t@));
        }
        i = i + 1;
    }
    assert(topics_view(topics@).take(topics@.len() as int) =~= topics_view(topics@));
    seen
}

/// Removes duplicate tags (tags compare case-insensitively), keeping the first occurrence.
pub fn deduplicate_tags(tags: Vec<Tag>) -> (r: Vec<Tag>)
    ensures
        tags_view(r@) == dedup_first(tags_view(tags@)),
{
    let mut seen: Vec<Tag> = Vec::new();
    let mut i: usize = 0;
    assert(tags_view(tags@).take(0) =~= Seq::<Seq<char>>::empty());
    assert(tags_view(seen@) =~= Seq::<Seq<char>>::empty());
    while i < tags.len()
        invariant
            i <= tags@.len(),
            tags_view(seen@) == dedup_first(tags_view(tags@).take(i as int)),
        decreases tags@.len() - i,
    {
        let t = &tags[i];
        let mut found = false;
        let mut j: usize = 0;
        while j < seen.len()
            invariant
                j <= seen@.len(),
                found == exists|k: int| 0 <= k < j && seen@[k]@ == t@,
            decreases seen@.len() - j,
        {
            if seen[j] == *t {
                found = true;
            }
            j = j + 1;
        }
        let ghost prev = tags_view(tags@).take(i as int);
        let ghost next = tags_view(tags@).take(i + 1);
        assert(next.drop_last() =~= prev);
        assert(next.last() == t@);
        proof {
            lemma_dedup_step(next);
            if found {
                let k = choose|k: int| 0 <= k < seen@.len() && seen@[k]@ == t@;
                assert(tags_view(seen@)[k] == t@);
            } else {
                assert forall|k: int| 0 <= k < tags_view(seen@).len() implies tags_view(seen@)[k]
                    != t@ by {
                    assert(tags_view(seen@)[k] == seen@[k]@);
                }
            }
        }
        if !found {
            let ghost before = seen@;
            seen.push(t.clone());
            assert(tags_view(seen@) =~= tags_view(before).push(t@));
        }
        i = i + 1;
    }
    assert(tags_view(tags@).take(tags@.len() as int) =~= tags_view(tags@));
    seen
}

/// Removes empty aliases and case-insensitive duplicates, keeping the first
/// occurrence of each (trimmed).
pub fn deduplicate_aliases(aliases: Vec<String>) -> (r: Vec<String>)
    ensures
        strings_view(r@) == dedup_aliases_spec(strings_view(aliases@)),
{
    let mut seen_lower: Vec<String> = Vec::new();
    let mut result: Vec<String> = Vec::new();
    let mut i: usize = 0;
    assert(strings_view(aliases@).take(0) =~= Seq::<Seq<char>>::empty());
    assert(strings_view(seen_lower@) =~= Seq::<Seq<char>>::empty());
    assert(strings_view(result@) =~= Seq::<Seq<char>>::empty());
    while i < aliases.len()
        invariant
            i <= aliases@.len(),
            alias_fold(strings_view(aliases@).take(i as int)) == (
                strings_view(seen_lower@),
                strings_view(result@),
            ),
        decreases aliases@.len() - i,
    {
        let ghost prev = strings_view(aliases@).take(i as int);
        let ghost next = strings_view(aliases@).take(i + 1);
        assert(next.drop_last() =~= prev);
        assert(next.last() == aliases@[i as int]@);
        let trimmed_chars = trim_chars(chars_of(aliases[i].as_str()).as_slice());
        if trimmed_chars.len() > 0 {
            let trimmed = string_from_chars(trimmed_chars.as_slice());
            let lower = to_lowercase(trimmed.as_str());
            let mut found = false;
            let mut j: usize = 0;
            while j < seen_lower.len()
                invariant
                    j <= seen_lower@.len(),
                    found == exists|k: int| 0 <= k < j && seen_lower@[k]@ == lower@,
                decreases seen_lower@.len() - j,
            {
                if seen_lower[j] == lower {
                    found = true;
                }
                j = j + 1;
            }
            proof {
                if found {
                    let k = choose|k: int| 0 <= k < seen_lower@.len() && seen_lower@[k]@ == lower@;
                    assert(strings_view(seen_lower@)[k] == lower@);
                } else {
                    assert forall|k: int| 0 <= k < strings_view(seen_lower@).len() implies strings_view(
                        seen_lower@,
                    )[k] != lower@ by {
                        assert(strings_view(seen_lower@)[k] == seen_lower@[k]@);
                    }
                }
            }
            if !found {
                let ghost s0 = seen_lower@;
                let ghost r0 = result@;
                seen_lower.push(lower);
                result.push(trimmed);
                assert(strings_view(seen_lower@) =~= strings_view(s0).push(lowercase_of(trim(next.last()))));
                assert(strings_view(result@) =~= strings_view(r0).push(trim(next.last())));
            }
        }
        i = i + 1;
    }
    assert(strings_view(aliases@).take(aliases@.len() as int) =~= strings_view(aliases@));
    result
}

pub open spec fn no_duplicates<A>(s: Seq<A>) -> bool {
    forall|i: int, j: int| 0 <= i < j < s.len() ==> s[i] != s[j]
}

/// Deduplication keeps exactly the elements of the input, each once.
pub proof fn lemma_dedup_first_props<A>(s: Seq<A>)
    ensures
        no_duplicates(dedup_first(s)),
        forall|x: A| s.contains(x) <==> dedup_first(s).contains(x),
        dedup_first(s).len() <= s.len(),
    decreases s.len(),
{
    if s.len() > 0 {
        let p = s.drop_last();
        lemma_dedup_first_props(p);
        let d = dedup_first(p);
        assert forall|x: A| s.contains(x) <==> dedup_first(s).contains(x) by {
            if s.contains(x) {
                let k = choose|k: int| 0 <= k < s.len() && s[k] == x;
                if k < s.len() - 1 {
                    assert(p[k] == x);
                    assert(p.contains(x));
                    if !d.contains(s.last()) {
                        let m = choose|m: int| 0 <= m < d.len() && d[m] == x;
                        assert(d.push(s.last())[m] == x);
                    }
                } else if !d.contains(s.last()) {
                    assert(d.push(s.last())[d.len() as int] == x);
                }
            }
            if dedup_first(s).contains(x) {
                if d.contains(x) {
                    assert(p.contains(x));
                    let k = choose|k: int| 0 <= k < p.len() && p[k] == x;
                    assert(s[k] == x);
                } else {
                    assert(x == s.last());
                    assert(s[s.len() - 1] == x);
                }
            }
        }
    }
}

/// A sequence without duplicates is left unchanged by deduplication.
pub proof fn lemma_dedup_first_of_distinct<A>(s: Seq<A>)
    requires
        no_duplicates(s),
    ensures
        dedup_first(s) == s,
    decreases s.len(),
{
    if s.len() > 0 {
        let p = s.drop_last();
        assert(no_duplicates(p)) by {
            assert forall|i: int, j: int| 0 <= i < j < p.len() implies p[i] != p[j] by {
                assert(p[i] == s[i] && p[j] == s[j]);
            }
        }
        lemma_dedup_first_of_distinct(p);
        if p.contains(s.last()) {
            let k = choose|k: int| 0 <= k < p.len() && p[k] == s.last();
            assert(s[k] == s[s.len() - 1]);
        }
        assert(p.push(s.last()) =~= s);
    } else {
        assert(s =~= dedup_first(s));
    }
}

/// Deduplication is idempotent: setting deduplicated topics or tags again changes nothing.
pub proof fn lemma_dedup_first_idempotent<A>(s: Seq<A>)
    ensures
        dedup_first(dedup_first(s)) == dedup_first(s),
{
    lemma_dedup_first_props(s);
    lemma_dedup_first_of_distinct(dedup_first(s));
}

/// Kept aliases are trimmed and non-empty, and no two share a lowercase form.
pub proof fn lemma_alias_fold_props(s: Seq<Seq<char>>)
    ensures
        alias_fold(s).0.len() == alias_fold(s).1.len(),
        forall|i: int| 0 <= i < alias_fold(s).1.len() ==> alias_fold(s).0[i] == lowercase_of(
            #[trigger] alias_fold(s).1[i],
        ),
        forall|i: int| 0 <= i < alias_fold(s).1.len() ==> trim(#[trigger] alias_fold(s).1[i])
            == alias_fold(s).1[i] && alias_fold(s).1[i].len() > 0,
        no_duplicates(alias_fold(s).0),
    decreases s.len(),
{
    if s.len() > 0 {
        lemma_alias_fold_props(s.drop_last());
        let t = trim(s.last());
        crate::text::lemma_trim_idempotent(s.last());
    }
}

/// Aliases that are trimmed, non-empty and pairwise distinct ignoring case
/// pass through the alias fold unchanged.
proof fn lemma_alias_fold_of_normal(k: Seq<Seq<char>>)
    requires
        forall|i: int| 0 <= i < k.len() ==> trim(#[trigger] k[i]) == k[i] && k[i].len() > 0,
        forall|i: int, j: int| 0 <= i < j < k.len() ==> lowercase_of(#[trigger] k[i]) != lowercase_of(#[trigger] k[j]),
    ensures
        alias_fold(k).1 == k,
        alias_fold(k).0 == k.map_values(|a: Seq<char>| lowercase_of(a)),
    decreases k.len(),
{
    if k.len() == 0 {
        assert(k =~= Seq::<Seq<char>>::empty());
        assert(k.map_values(|a: Seq<char>| lowercase_of(a)) =~= Seq::<Seq<char>>::empty());
    } else {
        let p = k.drop_last();
        assert forall|i: int| 0 <= i < p.len() implies trim(#[trigger] p[i]) == p[i] && p[i].len() > 0 by {
            assert(p[i] == k[i]);
        }
        assert forall|i: int, j: int| 0 <= i < j < p.len() implies lowercase_of(#[trigger] p[i]) != lowercase_of(
            #[trigger] p[j],
        ) by {
            assert(p[i] == k[i] && p[j] == k[j]);
        }
        lemma_alias_fold_of_normal(p);
        let seen = p.map_values(|a: Seq<char>| lowercase_of(a));
        let last = k[k.len() - 1];
        if seen.contains(lowercase_of(last)) {
            let m = choose|m: int| 0 <= m < seen.len() && seen[m] == lowercase_of(last);
            assert(lowercase_of(k[m]) == lowercase_of(k[k.len() - 1]));
        }
        assert(p.push(last) =~= k);
        assert(seen.push(lowercase_of(last)) =~= k.map_values(|a: Seq<char>| lowercase_of(a)));
    }
}

/// Normalizing aliases twice is normalizing them once.
pub proof fn lemma_dedup_aliases_idempotent(s: Seq<Seq<char>>)
    ensures
        dedup_aliases_spec(dedup_aliases_spec(s)) == dedup_aliases_spec(s),
{
    lemma_alias_fold_props(s);
    let k = alias_fold(s).1;
    assert forall|i: int, j: int| 0 <= i < j < k.len() implies lowercase_of(#[trigger] k[i]) != lowercase_of(
        #[trigger] k[j],
    ) by {
        assert(alias_fold(s).0[i] == lowercase_of(k[i]));
        assert(alias_fold(s).0[j] == lowercase_of(k[j]));
    }
    lemma_alias_fold_of_normal(k);
}

/// Normalizing a description twice is normalizing it once.
pub proof fn lemma_description_idempotent(d: Option<Seq<char>>)
    ensures
        description_spec(description_spec(d)) == description_spec(d),
{
    if let Some(t) = d {
        crate::text::lemma_trim_idempotent(t);
    }
}

/// Error returned when a note's title is empty.
#[derive(Debug, Clone)]
pub struct ParseNoteError {
    kind: ParseNoteErrorKind,
}

#[derive(Debug, Clone, Copy, PartialEq, Eq)]
enum ParseNoteErrorKind {
    EmptyTitle,
}

impl ParseNoteError {
    /// The error message.
    pub fn to_string(&self) -> (r: String)
        ensures
            r@ == "invalid note: title cannot be empty"@,
    {
        match self.kind {
            ParseNoteErrorKind::EmptyTitle => String::from_str("invalid note: title cannot be empty"),
        }
    }
}

/// A note's frontmatter: identity, title, timestamps, and optional
/// description, topics, aliases, tags and links.
#[derive(Debug)]
pub struct Note {
    id: NoteId,
    title: String,
    created: Timestamp,
    modified: Timestamp,
    description: Option<String>,
    topics: Vec<Topic>,
    aliases: Vec<String>,
    tags: Vec<Tag>,
    links: Vec<Link>,
}

pub open spec fn opt_view(o: Option<String>) -> Option<Seq<char>> {
    match o {
        Some(s) => Some(s@),
        None => None,
    }
}

impl Note {
    /// What every note keeps: a non-empty trimmed title, and no topic or
    /// tag twice.
    #[verifier::type_invariant]
    pub open spec fn normalized(&self) -> bool {
        &&& self.spec_title().len() > 0
        &&& trim(self.spec_title()) == self.spec_title()
        &&& no_duplicates(self.spec_topics())
        &&& no_duplicates(self.spec_tags())
        &&& description_spec(self.spec_description()) == self.spec_description()
        &&& dedup_aliases_spec(self.spec_aliases()) == self.spec_aliases()
    }

    pub closed spec fn spec_id(&self) -> NoteId {
        self.id
    }

    pub closed spec fn spec_title(&self) -> Seq<char> {
        self.title@
    }

    pub closed spec fn spec_created(&self) -> Timestamp {
        self.created
    }

    pub closed spec fn spec_modified(&self) -> Timestamp {
        self.modified
    }

    pub closed spec fn spec_description(&self) -> Option<Seq<char>> {
        opt_view(self.description)
    }

    pub closed spec fn spec_topics(&self) -> Seq<Seq<Seq<char>>> {
        topics_view(self.topics@)
    }

    pub closed spec fn spec_aliases(&self) -> Seq<Seq<char>> {
        strings_view(self.aliases@)
    }

    pub closed spec fn spec_tags(&self) -> Seq<Seq<char>> {
        tags_view(self.tags@)
    }

    pub closed spec fn spec_links(&self) -> Seq<Link> {
        self.links@
    }

    /// Creates a note with the required fields only; the title is trimmed
    /// and must not be empty.
    pub fn new(id: NoteId, title: &str, created: Timestamp, modified: Timestamp) -> (res: Result<
        Note,
        ParseNoteError,
    >)
        ensures
            res is Ok <==> trim(title@).len() > 0,
            res matches Ok(n) ==> {
                &&& n.spec_id() == id
                &&& n.spec_title() == trim(title@)
                &&& n.spec_created() == created
                &&& n.spec_modified() == modified
                &&& n.spec_description() is None
                &&& n.spec_topics().len() == 0
                &&& n.spec_aliases().len() == 0
                &&& n.spec_tags().len() == 0
                &&& n.spec_links().len() == 0
            },
    {
        Note::builder(id, title, created, modified).build()
    }

    /// Starts a builder for a note with optional fields.
    pub fn builder(id: NoteId, title: &str, created: Timestamp, modified: Timestamp) -> (r:
        NoteBuilder)
        ensures
            r.spec_id() == id,
            r.spec_title() == title@,
            r.spec_created() == created,
            r.spec_modified() == modified,
            r.spec_description() is None,
            r.spec_topics().len() == 0,
            r.spec_aliases().len() == 0,
            r.spec_tags().len() == 0,
            r.spec_links().len() == 0,
    {
        let aliases: Vec<String> = Vec::new();
        proof {
            assert(strings_view(aliases@) =~= Seq::<Seq<char>>::empty());
            assert(alias_fold(strings_view(aliases@)).1 =~= Seq::<Seq<char>>::empty());
        }
        let b = NoteBuilder {
            id,
            title: String::from_str(title),
            created,
            modified,
            description: None,
            topics: Vec::new(),
            aliases,
            tags: Vec::new(),
            links: Vec::new(),
        };
        assert(topics_view(b.topics@) =~= Seq::<Seq<Seq<char>>>::empty());
        assert(strings_view(b.aliases@) =~= Seq::<Seq<char>>::empty());
        assert(tags_view(b.tags@) =~= Seq::<Seq<char>>::empty());
        b
    }

    /// Returns the note's identifier.
    pub fn id(&self) -> (r: &NoteId)
        ensures
            *r == self.spec_id(),
    {
        &self.id
    }

    /// Returns the note's title.
    pub fn title(&self) -> (r: &str)
        ensures
            r@ == self.spec_title(),
            r@.len() > 0,
            trim(r@) == r@,
    {
        proof {
            use_type_invariant(self);
        }
        self.title.as_str()
    }

    /// Returns when the note was created.
    pub fn created(&self) -> (r: Timestamp)
        ensures
            r == self.spec_created(),
    {
        self.created
    }

    /// Returns when the note was last modified.
    pub fn modified(&self) -> (r: Timestamp)
        ensures
            r == self.spec_modified(),
    {
        self.modified
    }

    /// Returns the note's description, if any.
    pub fn description(&self) -> (r: Option<&str>)
        ensures
            match r {
                Some(d) => self.spec_description() == Some(d@),
                None => self.spec_description() is None,
            },
    {
        match &self.description {
            Some(d) => Some(d.as_str()),
            None => None,
        }
    }

    /// Returns the note's topics.
    pub fn topics(&self) -> (r: &[Topic])
        ensures
            topics_view(r@) == self.spec_topics(),
            no_duplicates(self.spec_topics()),
    {
        proof {
            use_type_invariant(self);
        }
        self.topics.as_slice()
    }

    /// Returns the note's aliases.
    pub fn aliases(&self) -> (r: &[String])
        ensures
            strings_view(r@) == self.spec_aliases(),
    {
        self.aliases.as_slice()
    }

    /// Returns the note's tags.
    pub fn tags(&self) -> (r: &[Tag])
        ensures
            tags_view(r@) == self.spec_tags(),
            no_duplicates(self.spec_tags()),
    {
        proof {
            use_type_invariant(self);
        }
        self.tags.as_slice()
    }

    /// Returns the note's links.
    pub fn links(&self) -> (r: &[Link])
        ensures
            r@ == self.spec_links(),
    {
        self.links.as_slice()
    }

    /// The note with its links replaced by `links`; every other field is
    /// kept as it is.
    pub fn with_links(&self, links: Vec<Link>) -> (r: Note)
        ensures
            same_but_links(&r, self),
            r.spec_links() == links@,
    {
        proof {
            use_type_invariant(self);
        }
        Note {
            id: self.id,
            title: self.title.clone(),
            created: self.created,
            modified: self.modified,
            description: clone_opt_str(self.description()),
            topics: clone_topics(self.topics.as_slice()),
            aliases: clone_strings(self.aliases.as_slice()),
            tags: clone_tags(self.tags.as_slice()),
            links,
        }
    }

    /// `<title> [<id prefix>]`, what `Display` shows.
    pub fn to_string(&self) -> (r: String)
        ensures
            r@ == self.spec_title() + " ["@ + self.spec_id().spec_text().take(10) + "]"@,
    {
        let mut s = self.title.clone();
        s.append(" [");
        let p = self.id.prefix();
        s.append(p.as_str());
        s.append("]");
        s
    }
}

/// Builder for a note with optional fields.
pub struct NoteBuilder {
    id: NoteId,
    title: String,
    created: Timestamp,
    modified: Timestamp,
    description: Option<String>,
    topics: Vec<Topic>,
    aliases: Vec<String>,
    tags: Vec<Tag>,
    links: Vec<Link>,
}

impl NoteBuilder {
    /// Topics and tags are kept deduplicated.
    #[verifier::type_invariant]
    closed spec fn normalized(&self) -> bool {
        &&& no_duplicates(topics_view(self.topics@))
        &&& no_duplicates(tags_view(self.tags@))
        &&& description_spec(opt_view(self.description)) == opt_view(self.description)
        &&& dedup_aliases_spec(strings_view(self.aliases@)) == strings_view(self.aliases@)
    }

    pub closed spec fn spec_id(&self) -> NoteId {
        self.id
    }

    pub closed spec fn spec_title(&self) -> Seq<char> {
        self.title@
    }

    pub closed spec fn spec_created(&self) -> Timestamp {
        self.created
    }

    pub closed spec fn spec_modified(&self) -> Timestamp {
        self.modified
    }

    pub closed spec fn spec_description(&self) -> Option<Seq<char>> {
        opt_view(self.description)
    }

    pub closed spec fn spec_topics(&self) -> Seq<Seq<Seq<char>>> {
        topics_view(self.topics@)
    }

    pub closed spec fn spec_aliases(&self) -> Seq<Seq<char>> {
        strings_view(self.aliases@)
    }

    pub closed spec fn spec_tags(&self) -> Seq<Seq<char>> {
        tags_view(self.tags@)
    }

    pub closed spec fn spec_links(&self) -> Seq<Link> {
        self.links@
    }

    /// Sets the description; empty or whitespace-only text means none.
    pub fn description(self, description: Option<&str>) -> (r: NoteBuilder)
        ensures
            r.spec_description() == description_spec(
                match description {
                    Some(d) => Some(d@),
                    None => None::<Seq<char>>,
                },
            ),
            r.spec_id() == self.spec_id(),
            r.spec_title() == self.spec_title(),
            r.spec_created() == self.spec_created(),
            r.spec_modified() == self.spec_modified(),
            r.spec_topics() == self.spec_topics(),
            r.spec_aliases() == self.spec_aliases(),
            r.spec_tags() == self.spec_tags(),
            r.spec_links() == self.spec_links(),
    {
        proof {
            use_type_invariant(&self);
        }
        proof {
            lemma_description_idempotent(
                match description {
                    Some(d) => Some(d@),
                    None => None::<Seq<char>>,
                },
            );
        }
        let mut b = self;
        b.description = match description {
            Some(d) => {
                let t = trim_chars(chars_of(d).as_slice());
                if t.len() == 0 {
                    None
                } else {
                    Some(string_from_chars(t.as_slice()))
                }
            },
            None => None,
        };
        b
    }

    /// Sets the topics; duplicates are removed, the first occurrence kept.
    pub fn topics(self, topics: Vec<Topic>) -> (r: NoteBuilder)
        ensures
            r.spec_topics() == dedup_first(topics_view(topics@)),
            r.spec_id() == self.spec_id(),
            r.spec_title() == self.spec_title(),
            r.spec_created() == self.spec_created(),
            r.spec_modified() == self.spec_modified(),
            r.spec_description() == self.spec_description(),
            r.spec_aliases() == self.spec_aliases(),
            r.spec_tags() == self.spec_tags(),
            r.spec_links() == self.spec_links(),
    {
        proof {
            use_type_invariant(&self);
        }
        let mut b = self;
        let deduped = deduplicate_topics(topics);
        proof {
            lemma_dedup_first_props(topics_view(topics@));
        }
        b.topics = deduped;
        b
    }

    /// Sets the aliases; they are trimmed, empty ones dropped, and
    /// case-insensitive duplicates removed (first occurrence kept).
    pub fn aliases(self, aliases: Vec<String>) -> (r: NoteBuilder)
        ensures
            r.spec_aliases() == dedup_aliases_spec(strings_view(aliases@)),
            r.spec_id() == self.spec_id(),
            r.spec_title() == self.spec_title(),
            r.spec_created() == self.spec_created(),
            r.spec_modified() == self.spec_modified(),
            r.spec_description() == self.spec_description(),
            r.spec_topics() == self.spec_topics(),
            r.spec_tags() == self.spec_tags(),
            r.spec_links() == self.spec_links(),
    {
        proof {
            use_type_invariant(&self);
        }
        let mut b = self;
        let deduped = deduplicate_aliases(aliases);
        proof {
            lemma_dedup_aliases_idempotent(strings_view(aliases@));
        }
        b.aliases = deduped;
        b
    }

    /// Sets the tags; duplicates are removed, the first occurrence kept.
    pub fn tags(self, tags: Vec<Tag>) -> (r: NoteBuilder)
        ensures
            r.spec_tags() == dedup_first(tags_view(tags@)),
            r.spec_id() == self.spec_id(),
            r.spec_title() == self.spec_title(),
            r.spec_created() == self.spec_created(),
            r.spec_modified() == self.spec_modified(),
            r.spec_description() == self.spec_description(),
            r.spec_topics() == self.spec_topics(),
            r.spec_aliases() == self.spec_aliases(),
            r.spec_links() == self.spec_links(),
    {
        proof {
            use_type_invariant(&self);
        }
        let mut b = self;
        let deduped = deduplicate_tags(tags);
        proof {
            lemma_dedup_first_props(tags_view(tags@));
        }
        b.tags = deduped;
        b
    }

    /// Sets the links, as given (duplicates allowed).
    pub fn links(self, links: Vec<Link>) -> (r: NoteBuilder)
        ensures
            r.spec_links() == links@,
            r.spec_id() == self.spec_id(),
            r.spec_title() == self.spec_title(),
            r.spec_created() == self.spec_created(),
            r.spec_modified() == self.spec_modified(),
            r.spec_description() == self.spec_description(),
            r.spec_topics() == self.spec_topics(),
            r.spec_aliases() == self.spec_aliases(),
            r.spec_tags() == self.spec_tags(),
    {
        proof {
            use_type_invariant(&self);
        }
        let mut b = self;
        b.links = links;
        b
    }

    /// Builds the note; the title is trimmed and must not be empty.
    pub fn build(self) -> (res: Result<Note, ParseNoteError>)
        ensures
            res is Ok <==> trim(self.spec_title()).len() > 0,
            res matches Ok(n) ==> {
                &&& n.spec_id() == self.spec_id()
                &&& n.spec_title() == trim(self.spec_title())
                &&& n.spec_created() == self.spec_created()
                &&& n.spec_modified() == self.spec_modified()
                &&& n.spec_description() == self.spec_description()
                &&& n.spec_topics() == self.spec_topics()
                &&& n.spec_aliases() == self.spec_aliases()
                &&& n.spec_tags() == self.spec_tags()
                &&& n.spec_links() == self.spec_links()
            },
    {
        proof {
            use_type_invariant(&self);
        }
        let t = trim_chars(chars_of(self.title.as_str()).as_slice());
        if t.len() == 0 {
            return Err(ParseNoteError { kind: ParseNoteErrorKind::EmptyTitle });
        }
        proof {
            crate::text::lemma_trim_idempotent(self.title@);
        }
        Ok(
            Note {
                id: self.id,
                title: string_from_chars(t.as_slice()),
                created: self.created,
                modified: self.modified,
                description: self.description,
                topics: self.topics,
                aliases: self.aliases,
                tags: self.tags,
                links: self.links,
            },
        )
    }
}

/// A note rebuilt from `note` with a new title, modification time, topics,
/// tags and links, through the builder (so topics and tags are deduplicated;
/// the description and aliases, already normalized, are kept).
pub fn rebuild_note(
    note: &Note,
    title: &str,
    modified: Timestamp,
    topics: Vec<Topic>,
    tags: Vec<Tag>,
    links: Vec<Link>,
) -> (res: Result<Note, ParseNoteError>)
    ensures
        res is Ok <==> trim(title@).len() > 0,
        res matches Ok(n) ==> {
            &&& n.spec_id() == note.spec_id()
            &&& n.spec_title() == trim(title@)
            &&& n.spec_created() == note.spec_created()
            &&& n.spec_modified() == modified
            &&& n.spec_description() == note.spec_description()
            &&& n.spec_topics() == dedup_first(topics_view(topics@))
            &&& n.spec_aliases() == note.spec_aliases()
            &&& n.spec_tags() == dedup_first(tags_view(tags@))
            &&& n.spec_links() == links@
        },
{
    proof {
        use_type_invariant(note);
    }
    Note::builder(*note.id(), title, note.created(), modified)
        .description(note.description())
        .topics(topics)
        .aliases(clone_strings(note.aliases()))
        .tags(tags)
        .links(links)
        .build()
}

/// Two link lists hold equal links (same target and relationship types)
/// position by position.
pub open spec fn same_links(a: Seq<Link>, b: Seq<Link>) -> bool {
    a.len() == b.len() && forall|i: int| 0 <= i < a.len() ==> (#[trigger] a[i]).same_link(&b[i])
}

/// Two notes agree on every field but their links.
pub open spec fn same_but_links(a: &Note, b: &Note) -> bool {
    &&& a.spec_id() == b.spec_id()
    &&& a.spec_title() == b.spec_title()
    &&& a.spec_created() == b.spec_created()
    &&& a.spec_modified() == b.spec_modified()
    &&& a.spec_description() == b.spec_description()
    &&& a.spec_topics() == b.spec_topics()
    &&& a.spec_aliases() == b.spec_aliases()
    &&& a.spec_tags() == b.spec_tags()
}

/// Two notes are equal when every field is: identity, title, timestamps,
/// description, topics, aliases, tags, and links (by target and
/// relationship types).
pub open spec fn same_note(a: &Note, b: &Note) -> bool {
    &&& a.spec_id() == b.spec_id()
    &&& a.spec_title() == b.spec_title()
    &&& a.spec_created() == b.spec_created()
    &&& a.spec_modified() == b.spec_modified()
    &&& a.spec_description() == b.spec_description()
    &&& a.spec_topics() == b.spec_topics()
    &&& a.spec_aliases() == b.spec_aliases()
    &&& a.spec_tags() == b.spec_tags()
    &&& same_links(a.spec_links(), b.spec_links())
}

fn topics_eq(a: &[Topic], b: &[Topic]) -> (r: bool)
    ensures
        r == (topics_view(a@) == topics_view(b@)),
{
    if a.len() != b.len() {
        assert(topics_view(a@).len() != topics_view(b@).len());
        return false;
    }
    let mut i: usize = 0;
    while i < a.len()
        invariant
            i <= a@.len() == b@.len(),
            forall|j: int| 0 <= j < i ==> a@[j]@ == b@[j]@,
        decreases a@.len() - i,
    {
        if a[i] != b[i] {
            assert(topics_view(a@)[i as int] != topics_view(b@)[i as int]);
            return false;
        }
        i = i + 1;
    }
    assert(topics_view(a@) =~= topics_view(b@));
    true
}

fn tags_eq(a: &[Tag], b: &[Tag]) -> (r: bool)
    ensures
        r == (tags_view(a@) == tags_view(b@)),
{
    if a.len() != b.len() {
        assert(tags_view(a@).len() != tags_view(b@).len());
        return false;
    }
    let mut i: usize = 0;
    while i < a.len()
        invariant
            i <= a@.len() == b@.len(),
            forall|j: int| 0 <= j < i ==> a@[j]@ == b@[j]@,
        decreases a@.len() - i,
    {
        if a[i] != b[i] {
            assert(tags_view(a@)[i as int] != tags_view(b@)[i as int]);
            return false;
        }
        i = i + 1;
    }
    assert(tags_view(a@) =~= tags_view(b@));
    true
}

fn strings_eq(a: &[String], b: &[String]) -> (r: bool)
    ensures
        r == (strings_view(a@) == strings_view(b@)),
{
    if a.len() != b.len() {
        assert(strings_view(a@).len() != strings_view(b@).len());
        return false;
    }
    let mut i: usize = 0;
    while i < a.len()
        invariant
            i <= a@.len() == b@.len(),
            forall|j: int| 0 <= j < i ==> a@[j]@ == b@[j]@,
        decreases a@.len() - i,
    {
        if !crate::text::str_eq(a[i].as_str(), b[i].as_str()) {
            assert(strings_view(a@)[i as int] != strings_view(b@)[i as int]);
            return false;
        }
        i = i + 1;
    }
    assert(strings_view(a@) =~= strings_view(b@));
    true
}

fn links_eq(a: &[Link], b: &[Link]) -> (r: bool)
    ensures
        r == same_links(a@, b@),
{
    if a.len() != b.len() {
        return false;
    }
    let mut i: usize = 0;
    while i < a.len()
        invariant
            i <= a@.len() == b@.len(),
            forall|j: int| 0 <= j < i ==> (#[trigger] a@[j]).same_link(&b@[j]),
        decreases a@.len() - i,
    {
        if a[i] != b[i] {
            return false;
        }
        i = i + 1;
    }
    true
}

impl PartialEq for Note {
    fn eq(&self, other: &Note) -> (r: bool) {
        let d = match (self.description(), other.description()) {
            (Some(x), Some(y)) => crate::text::str_eq(x, y),
            (None, None) => true,
            _ => false,
        };
        self.id == other.id && crate::text::str_eq(self.title.as_str(), other.title.as_str())
            && self.created == other.created && self.modified == other.modified && d
            && topics_eq(self.topics.as_slice(), other.topics.as_slice()) && strings_eq(
            self.aliases.as_slice(),
            other.aliases.as_slice(),
        ) && tags_eq(self.tags.as_slice(), other.tags.as_slice()) && links_eq(
            self.links.as_slice(),
            other.links.as_slice(),
        )
    }
}

impl vstd::std_specs::cmp::PartialEqSpecImpl for Note {
    open spec fn obeys_eq_spec() -> bool {
        true
    }

    open spec fn eq_spec(&self, other: &Note) -> bool {
        same_note(self, other)
    }
}

impl Clone for Note {
    fn clone(&self) -> (r: Note)
        ensures
            same_note(&r, self),
            forall|i: int|
                0 <= i < r.spec_links().len() ==> (#[trigger] r.spec_links()[i]).spec_context()
                    == self.spec_links()[i].spec_context(),
    {
        let mut links: Vec<Link> = Vec::new();
        let mut i: usize = 0;
        while i < self.links.len()
            invariant
                i <= self.links@.len(),
                links@.len() == i,
                forall|j: int| 0 <= j < i ==> (#[trigger] links@[j]).same_link(&self.links@[j]),
                forall|j: int|
                    0 <= j < i ==> (#[trigger] links@[j]).spec_context()
                        == self.links@[j].spec_context(),
            decreases self.links@.len() - i,
        {
            links.push(self.links[i].clone());
            i = i + 1;
        }
        proof {
            use_type_invariant(self);
        }
        Note {
            id: self.id,
            title: self.title.clone(),
            created: self.created,
            modified: self.modified,
            description: clone_opt_str(self.description()),
            topics: clone_topics(self.topics.as_slice()),
            aliases: clone_strings(self.aliases.as_slice()),
            tags: clone_tags(self.tags.as_slice()),
            links,
        }
    }
}

} // verus!
