//! The notes index: indexed notes and lookups by identifier prefix, title,
//! alias, topic and tag.

use vstd::prelude::*;
use vstd::string::StringExecFns;
use crate::domain::note::{
    clone_opt_str, clone_strings, clone_tags, clone_topics, opt_view, strings_view, tags_view,
    topics_view, Note,
};
use crate::cli::links::{clone_links, link_view, links_view};
use crate::domain::link::rels_view;
use crate::domain::link::{Link, Rel};
use crate::domain::note_id::NoteId;
use crate::domain::tag::Tag;
use crate::domain::timestamp::Timestamp;
use crate::domain::topic::{
    is_ancestor, join_slash, lemma_join_concat, lemma_path_injective, lemma_split_concat,
    lemma_split_join, lemma_split_nonempty, split_on_slash, valid_segments, Topic,
};
use crate::text::{
    ascii_ci_eq, ascii_lower_seq, chars_ascii_ci_eq, chars_ascii_ci_starts_with, chars_eq,
    chars_of, chars_starts_with, starts_with,
};

verus! {

/// What an indexed note holds, as plain values.
pub struct IndexedNoteView {
    pub id: NoteId,
    pub title: Seq<char>,
    pub created: Timestamp,
    pub modified: Timestamp,
    pub path: Seq<char>,
    pub description: Option<Seq<char>>,
    pub topics: Seq<Seq<Seq<char>>>,
    pub aliases: Seq<Seq<char>>,
    pub tags: Seq<Seq<char>>,
    pub links: Seq<(NoteId, Seq<Seq<char>>, Option<Seq<char>>)>,
}

/// A note as the index holds it: its metadata and its file's path relative
/// to the notes directory.
#[derive(Debug)]
pub struct IndexedNote {
    id: NoteId,
    title: String,
    created: Timestamp,
    modified: Timestamp,
    path: String,
    description: Option<String>,
    topics: Vec<Topic>,
    aliases: Vec<String>,
    tags: Vec<Tag>,
    links: Vec<Link>,
}

impl View for IndexedNote {
    type V = IndexedNoteView;

    closed spec fn view(&self) -> IndexedNoteView {
        IndexedNoteView {
            id: self.id,
            title: self.title@,
            created: self.created,
            modified: self.modified,
            path: self.path@,
            description: opt_view(self.description),
            topics: topics_view(self.topics@),
            aliases: strings_view(self.aliases@),
            tags: tags_view(self.tags@),
            links: links_view(self.links@),
        }
    }
}

pub open spec fn notes_view(s: Seq<IndexedNote>) -> Seq<IndexedNoteView> {
    s.map_values(|n: IndexedNote| n@)
}

impl IndexedNote {
    /// An indexed note with the required fields and no description, topics,
    /// aliases or tags.
    pub fn new(id: NoteId, title: &str, created: Timestamp, modified: Timestamp, path: &str) -> (r:
        IndexedNote)
        ensures
            r@.id == id,
            r@.title == title@,
            r@.created == created,
            r@.modified == modified,
            r@.path == path@,
            r@.description is None,
            r@.topics.len() == 0,
            r@.aliases.len() == 0,
            r@.tags.len() == 0,
            r@.links.len() == 0,
    {
        let r = IndexedNote {
            id,
            title: String::from_str(title),
            created,
            modified,
            path: String::from_str(path),
            description: None,
            topics: Vec::new(),
            aliases: Vec::new(),
            tags: Vec::new(),
            links: Vec::new(),
        };
        assert(topics_view(r.topics@).len() == 0);
        assert(links_view(r.links@).len() == 0);
        r
    }

    /// The same note with the given topics.
    pub fn with_topics(self, topics: Vec<Topic>) -> (r: IndexedNote)
        ensures
            r@ == (IndexedNoteView { topics: topics_view(topics@), ..self@ }),
    {
        IndexedNote { topics, ..self }
    }

    /// The same note with the given tags.
    pub fn with_tags(self, tags: Vec<Tag>) -> (r: IndexedNote)
        ensures
            r@ == (IndexedNoteView { tags: tags_view(tags@), ..self@ }),
    {
        IndexedNote { tags, ..self }
    }

    /// The same note with the given links.
    pub fn with_links(self, links: Vec<Link>) -> (r: IndexedNote)
        ensures
            r@ == (IndexedNoteView { links: links_view(links@), ..self@ }),
    {
        IndexedNote { links, ..self }
    }

    /// The same note with the given aliases.
    pub fn with_aliases(self, aliases: Vec<String>) -> (r: IndexedNote)
        ensures
            r@ == (IndexedNoteView { aliases: strings_view(aliases@), ..self@ }),
    {
        IndexedNote { aliases, ..self }
    }

    /// The same note with the given description.
    pub fn with_description(self, description: Option<String>) -> (r: IndexedNote)
        ensures
            r@ == (IndexedNoteView { description: opt_view(description), ..self@ }),
    {
        IndexedNote { description, ..self }
    }

    /// The index entry of a note stored at `path`.
    pub fn from_note(note: &Note, path: &str) -> (r: IndexedNote)
        ensures
            r@ == (IndexedNoteView {
                id: note.spec_id(),
                title: note.spec_title(),
                created: note.spec_created(),
                modified: note.spec_modified(),
                path: path@,
                description: note.spec_description(),
                topics: note.spec_topics(),
                aliases: note.spec_aliases(),
                tags: note.spec_tags(),
                links: links_view(note.spec_links()),
            }),
    {
        IndexedNote {
            id: *note.id(),
            title: String::from_str(note.title()),
            created: note.created(),
            modified: note.modified(),
            path: String::from_str(path),
            description: clone_opt_str(note.description()),
            topics: clone_topics(note.topics()),
            aliases: clone_strings(note.aliases()),
            tags: clone_tags(note.tags()),
            links: clone_links(note.links()),
        }
    }

    pub fn id(&self) -> (r: &NoteId)
        ensures
            *r == self@.id,
    {
        &self.id
    }

    pub fn title(&self) -> (r: &str)
        ensures
            r@ == self@.title,
    {
        self.title.as_str()
    }

    pub fn created(&self) -> (r: Timestamp)
        ensures
            r == self@.created,
    {
        self.created
    }

    pub fn modified(&self) -> (r: Timestamp)
        ensures
            r == self@.modified,
    {
        self.modified
    }

    /// The file's path relative to the notes directory.
    pub fn path(&self) -> (r: &str)
        ensures
            r@ == self@.path,
    {
        self.path.as_str()
    }

    pub fn description(&self) -> (r: Option<&str>)
        ensures
            match r {
                Some(d) => self@.description == Some(d@),
                None => self@.description is None,
            },
    {
        match &self.description {
            Some(d) => Some(d.as_str()),
            None => None,
        }
    }

    pub fn topics(&self) -> (r: &[Topic])
        ensures
            topics_view(r@) == self@.topics,
    {
        self.topics.as_slice()
    }

    pub fn aliases(&self) -> (r: &[String])
        ensures
            strings_view(r@) == self@.aliases,
    {
        self.aliases.as_slice()
    }

    pub fn tags(&self) -> (r: &[Tag])
        ensures
            tags_view(r@) == self@.tags,
    {
        self.tags.as_slice()
    }

    pub fn links(&self) -> (r: &[Link])
        ensures
            links_view(r@) == self@.links,
    {
        self.links.as_slice()
    }
}

impl Clone for IndexedNote {
    fn clone(&self) -> (r: IndexedNote)
        ensures
            r@ == self@,
    {
        IndexedNote {
            id: self.id,
            title: self.title.clone(),
            created: self.created,
            modified: self.modified,
            path: self.path.clone(),
            description: clone_opt_str(self.description()),
            topics: clone_topics(self.topics.as_slice()),
            aliases: clone_strings(self.aliases.as_slice()),
            tags: clone_tags(self.tags.as_slice()),
            links: clone_links(self.links.as_slice()),
        }
    }
}

/// The identifier's text starts with `prefix`, up to ASCII case.
pub open spec fn id_prefix_match(n: IndexedNoteView, prefix: Seq<char>) -> bool {
    starts_with(ascii_lower_seq(n.id.spec_text()), ascii_lower_seq(prefix))
}

/// The title equals `title` up to ASCII case.
pub open spec fn title_match(n: IndexedNoteView, title: Seq<char>) -> bool {
    ascii_ci_eq(n.title, title)
}

/// The title starts with the non-empty `prefix`, up to ASCII case.
pub open spec fn title_prefix_match(n: IndexedNoteView, prefix: Seq<char>) -> bool {
    prefix.len() > 0 && starts_with(ascii_lower_seq(n.title), ascii_lower_seq(prefix))
}

/// One of the aliases equals `alias` up to ASCII case.
pub open spec fn alias_match(n: IndexedNoteView, alias: Seq<char>) -> bool {
    exists|i: int| 0 <= i < n.aliases.len() && ascii_ci_eq(#[trigger] n.aliases[i], alias)
}

/// A topic path matches a filter: the same path, or, with descendants, a
/// path below it.
pub open spec fn topic_filter_match(t: Seq<Seq<char>>, filter: Seq<Seq<char>>, descendants: bool) -> bool {
    ||| join_slash(t) == join_slash(filter)
    ||| (descendants && starts_with(join_slash(t), join_slash(filter).push('/')))
}

/// One of the note's topics matches the filter.
pub open spec fn topic_match(n: IndexedNoteView, filter: Seq<Seq<char>>, descendants: bool) -> bool {
    exists|i: int| 0 <= i < n.topics.len() && topic_filter_match(#[trigger] n.topics[i], filter, descendants)
}

/// The note carries the tag.
pub open spec fn tag_match(n: IndexedNoteView, tag: Seq<char>) -> bool {
    n.tags.contains(tag)
}

/// The note links to `target`, with relationship type `rel` when one is given.
pub open spec fn links_to(n: IndexedNoteView, target: NoteId, rel: Option<Seq<char>>) -> bool {
    exists|i: int|
        0 <= i < n.links.len() && (#[trigger] n.links[i]).0 == target && match rel {
            Some(r) => n.links[i].1.contains(r),
            None => true,
        }
}

/// Topic filters follow the topic hierarchy: a topic matches a filter
/// exactly when it is the filter's topic, or, with descendants, when the
/// filter's topic is one of its ancestors (its segments begin the topic's).
pub proof fn lemma_topic_match_is_ancestry(t: Seq<Seq<char>>, f: Seq<Seq<char>>, descendants: bool)
    requires
        valid_segments(t),
        valid_segments(f),
    ensures
        topic_filter_match(t, f, descendants) <==> (t == f || (descendants && is_ancestor(f, t))),
{
    if join_slash(t) == join_slash(f) {
        lemma_path_injective(t, f);
    }
    if t == f {
    }
    let jf = join_slash(f);
    let jt = join_slash(t);
    if starts_with(jt, jf.push('/')) {
        let r = jt.skip(jf.len() as int + 1);
        let n = jf.len() as int + 1;
        assert(jt.take(n) == jf.push('/'));
        assert(jf.push('/') =~= jf + seq!['/']);
        assert(jt =~= jt.take(n) + jt.skip(n));
        assert(jt =~= jf + seq!['/'] + r);
        lemma_split_join(t);
        lemma_split_join(f);
        lemma_split_concat(jf, r);
        lemma_split_nonempty(r);
        assert(t =~= f + split_on_slash(r));
        assert(t.take(f.len() as int) =~= f);
    }
    if is_ancestor(f, t) {
        let rest = t.skip(f.len() as int);
        assert(t =~= f + rest);
        lemma_join_concat(f, rest);
        assert(jt.take(jf.len() as int + 1) =~= jf.push('/'));
    }
}

/// Whether `note` has a topic matching `topic`: the same path, or, when
/// `include_descendants` is set, a path below it (`topic/...`).
pub fn note_matches_topic(note: &IndexedNote, topic: &Topic, include_descendants: bool) -> (r: bool)
    ensures
        r == topic_match(note@, topic@, include_descendants),
{
    let filter = chars_of(topic.as_str());
    let mut prefix = filter.clone();
    prefix.push('/');
    assert(prefix@ == join_slash(topic@).push('/'));
    let topics = note.topics();
    let mut i: usize = 0;
    while i < topics.len()
        invariant
            i <= topics@.len(),
            topics_view(topics@) == note@.topics,
            filter@ == join_slash(topic@),
            prefix@ == join_slash(topic@).push('/'),
            forall|j: int| 0 <= j < i ==> !topic_filter_match(
                #[trigger] note@.topics[j],
                topic@,
                include_descendants,
            ),
        decreases topics@.len() - i,
    {
        let t = chars_of(topics[i].as_str());
        assert(note@.topics[i as int] == topics@[i as int]@);
        if chars_eq(t.as_slice(), filter.as_slice()) || (include_descendants && chars_starts_with(
            t.as_slice(),
            prefix.as_slice(),
        )) {
            return true;
        }
        i = i + 1;
    }
    false
}

/// Whether `note` carries `tag`.
pub fn note_has_tag(note: &IndexedNote, tag: &Tag) -> (r: bool)
    ensures
        r == tag_match(note@, tag@),
{
    let tags = note.tags();
    let mut i: usize = 0;
    while i < tags.len()
        invariant
            i <= tags@.len(),
            tags_view(tags@) == note@.tags,
            forall|j: int| 0 <= j < i ==> note@.tags[j] != tag@,
        decreases tags@.len() - i,
    {
        assert(note@.tags[i as int] == tags@[i as int]@);
        if tags[i] == *tag {
            assert(note@.tags[i as int] == tag@);
            return true;
        }
        i = i + 1;
    }
    false
}

/// Whether `note` links to `target` (with relationship type `rel`, when given).
pub fn note_links_to(note: &IndexedNote, target: &NoteId, rel: Option<&Rel>) -> (r: bool)
    ensures
        r == links_to(note@, *target, opt_rel_view(rel)),
{
    let links = note.links();
    let mut i: usize = 0;
    while i < links.len()
        invariant
            i <= links@.len(),
            links_view(links@) == note@.links,
            forall|j: int|
                0 <= j < i ==> !((#[trigger] note@.links[j]).0 == *target && match opt_rel_view(rel) {
                    Some(r) => note@.links[j].1.contains(r),
                    None => true,
                }),
        decreases links@.len() - i,
    {
        let l = &links[i];
        assert(note@.links[i as int] == link_view(*l));
        if *l.target() == *target {
            match rel {
                None => {
                    return true;
                },
                Some(r) => {
                    if link_has_rel(l, r) {
                        return true;
                    }
                },
            }
        }
        i = i + 1;
    }
    false
}

fn link_has_rel(l: &Link, rel: &Rel) -> (r: bool)
    ensures
        r == l.spec_rels().contains(rel@),
{
    let rels = l.rel();
    let mut i: usize = 0;
    while i < rels.len()
        invariant
            i <= rels@.len(),
            rels_view(rels@) == l.spec_rels(),
            forall|j: int| 0 <= j < i ==> l.spec_rels()[j] != rel@,
        decreases rels@.len() - i,
    {
        assert(l.spec_rels()[i as int] == rels@[i as int]@);
        if rels[i] == *rel {
            assert(l.spec_rels()[i as int] == rel@);
            return true;
        }
        i = i + 1;
    }
    false
}

/// The view of an optional relationship type.
pub open spec fn opt_rel_view(rel: Option<&Rel>) -> Option<Seq<char>> {
    match rel {
        Some(r) => Some(r@),
        None => None,
    }
}

/// Whether one of the note's aliases equals `alias` up to ASCII case.
pub fn note_has_alias(note: &IndexedNote, alias: &[char]) -> (r: bool)
    ensures
        r == alias_match(note@, alias@),
{
    let aliases = note.aliases();
    let mut i: usize = 0;
    while i < aliases.len()
        invariant
            i <= aliases@.len(),
            strings_view(aliases@) == note@.aliases,
            forall|j: int| 0 <= j < i ==> !ascii_ci_eq(#[trigger] note@.aliases[j], alias@),
        decreases aliases@.len() - i,
    {
        let a = chars_of(aliases[i].as_str());
        assert(note@.aliases[i as int] == aliases@[i as int]@);
        if chars_ascii_ci_eq(a.as_slice(), alias) {
            return true;
        }
        i = i + 1;
    }
    false
}

/// No two entries share an identifier.
pub open spec fn distinct_ids(s: Seq<IndexedNoteView>) -> bool {
    forall|i: int, j: int| 0 <= i < j < s.len() ==> s[i].id != s[j].id
}

/// An in-memory index of notes, keyed by identifier.
pub struct NoteIndex {
    notes: Vec<IndexedNote>,
}

impl View for NoteIndex {
    type V = Seq<IndexedNoteView>;

    closed spec fn view(&self) -> Seq<IndexedNoteView> {
        notes_view(self.notes@)
    }
}

impl NoteIndex {
    #[verifier::type_invariant]
    closed spec fn inv(self) -> bool {
        distinct_ids(notes_view(self.notes@))
    }

    /// An empty index.
    pub fn new() -> (r: NoteIndex)
        ensures
            r@ == Seq::<IndexedNoteView>::empty(),
    {
        let r = NoteIndex { notes: Vec::new() };
        assert(notes_view(r.notes@) =~= Seq::<IndexedNoteView>::empty());
        r
    }

    /// Number of indexed notes.
    pub fn len(&self) -> (r: usize)
        ensures
            r == self@.len(),
            distinct_ids(self@),
    {
        proof {
            use_type_invariant(self);
        }
        self.notes.len()
    }

    /// Adds a note, replacing the entry with the same identifier if there is one.
    pub fn upsert(&mut self, note: IndexedNote)
        ensures
            (exists|k: int| 0 <= k < old(self)@.len() && old(self)@[k].id == note@.id) ==> (exists|k: int|
                0 <= k < old(self)@.len() && old(self)@[k].id == note@.id
                    && final(self)@ == old(self)@.update(k, note@)),
            (forall|k: int| 0 <= k < old(self)@.len() ==> old(self)@[k].id != note@.id)
                ==> final(self)@ == old(self)@.push(note@),
    {
        proof {
            use_type_invariant(&*self);
        }
        let ghost before = notes_view(self.notes@);
        let mut i: usize = 0;
        while i < self.notes.len()
            invariant
                i <= self.notes@.len(),
                before == notes_view(self.notes@),
                before == old(self)@,
                distinct_ids(before),
                forall|j: int| 0 <= j < i ==> before[j].id != note@.id,
            decreases self.notes@.len() - i,
        {
            if self.notes[i].id == note.id {
                let mut notes = Vec::new();
                std::mem::swap(&mut notes, &mut self.notes);
                assert(before[i as int].id == note@.id);
                let ghost nv = note@;
                notes.set(i, note);
                assert(notes_view(notes@) =~= before.update(i as int, nv));
                assert forall|a: int| 0 <= a < before.len() implies (#[trigger] notes_view(
                    notes@,
                )[a]).id == before[a].id by {}
                assert(distinct_ids(notes_view(notes@)));
                self.notes = notes;
                return ;
            }
            i = i + 1;
        }
        let mut notes = Vec::new();
        std::mem::swap(&mut notes, &mut self.notes);
        let ghost nv = note@;
        notes.push(note);
        assert(notes_view(notes@) =~= before.push(nv));
        self.notes = notes;
    }

    /// The entries that `lookup` selects, in index order.
    fn collect_matching(&self, lookup: &Lookup) -> (r: Vec<IndexedNote>)
        ensures
            notes_view(r@) == self@.filter(|n: IndexedNoteView| lookup_selects(n, *lookup)),
    {
        let ghost keep = |n: IndexedNoteView| lookup_selects(n, *lookup);
        let mut out: Vec<IndexedNote> = Vec::new();
        let mut i: usize = 0;
        assert(self@.take(0).filter(keep) =~= Seq::<IndexedNoteView>::empty());
        assert(notes_view(out@) =~= Seq::<IndexedNoteView>::empty());
        while i < self.notes.len()
            invariant
                i <= self.notes@.len(),
                keep == (|n: IndexedNoteView| lookup_selects(n, *lookup)),
                notes_view(out@) == self@.take(i as int).filter(keep),
            decreases self.notes@.len() - i,
        {
            let n = &self.notes[i];
            assert(self@.take(i + 1) =~= self@.take(i as int).push(n@));
            proof {
                self@.take(i as int).lemma_filter_push(n@, keep);
            }
            if selects(n, lookup) {
                let ghost before = out@;
                out.push(n.clone());
                assert(notes_view(out@) =~= notes_view(before).push(n@));
            }
            i = i + 1;
        }
        assert(self@.take(self@.len() as int) =~= self@);
        out
    }

    /// All notes, in index order.
    pub fn list_all(&self) -> (r: Vec<IndexedNote>)
        ensures
            notes_view(r@) == self@,
    {
        let mut out: Vec<IndexedNote> = Vec::new();
        let mut i: usize = 0;
        while i < self.notes.len()
            invariant
                i <= self.notes@.len(),
                notes_view(out@) == self@.take(i as int),
            decreases self.notes@.len() - i,
        {
            let ghost before = out@;
            out.push(self.notes[i].clone());
            assert(notes_view(out@) =~= notes_view(before).push(self@[i as int]));
            assert(self@.take(i + 1) =~= self@.take(i as int).push(self@[i as int]));
            i = i + 1;
        }
        assert(self@.take(self@.len() as int) =~= self@);
        out
    }

    /// The notes whose identifier text starts with `prefix` (ASCII case ignored).
    pub fn find_by_id_prefix(&self, prefix: &str) -> (r: Vec<IndexedNote>)
        ensures
            notes_view(r@) == self@.filter(|n: IndexedNoteView| id_prefix_match(n, prefix@)),
    {
        let q = chars_of(prefix);
        let lookup = Lookup::IdPrefix(q.as_slice());
        let r = self.collect_matching(&lookup);
        assert((|n: IndexedNoteView| lookup_selects(n, lookup)) =~= (|n: IndexedNoteView|
            id_prefix_match(n, prefix@)));
        r
    }

    /// The notes whose title equals `title` (ASCII case ignored).
    pub fn find_by_title(&self, title: &str) -> (r: Vec<IndexedNote>)
        ensures
            notes_view(r@) == self@.filter(|n: IndexedNoteView| title_match(n, title@)),
    {
        let q = chars_of(title);
        let lookup = Lookup::Title(q.as_slice());
        let r = self.collect_matching(&lookup);
        assert((|n: IndexedNoteView| lookup_selects(n, lookup)) =~= (|n: IndexedNoteView|
            title_match(n, title@)));
        r
    }

    /// The notes whose title starts with `prefix` (ASCII case ignored); none
    /// for an empty prefix.
    pub fn find_by_title_prefix(&self, prefix: &str) -> (r: Vec<IndexedNote>)
        ensures
            notes_view(r@) == self@.filter(|n: IndexedNoteView| title_prefix_match(n, prefix@)),
    {
        let q = chars_of(prefix);
        let lookup = Lookup::TitlePrefix(q.as_slice());
        let r = self.collect_matching(&lookup);
        assert((|n: IndexedNoteView| lookup_selects(n, lookup)) =~= (|n: IndexedNoteView|
            title_prefix_match(n, prefix@)));
        r
    }

    /// The notes with an alias equal to `alias` (ASCII case ignored).
    pub fn find_by_alias(&self, alias: &str) -> (r: Vec<IndexedNote>)
        ensures
            notes_view(r@) == self@.filter(|n: IndexedNoteView| alias_match(n, alias@)),
    {
        let q = chars_of(alias);
        let lookup = Lookup::Alias(q.as_slice());
        let r = self.collect_matching(&lookup);
        assert((|n: IndexedNoteView| lookup_selects(n, lookup)) =~= (|n: IndexedNoteView|
            alias_match(n, alias@)));
        r
    }

    /// The notes with a topic matching `topic` (with `include_descendants`,
    /// also the notes with a topic below it).
    pub fn list_by_topic(&self, topic: &Topic, include_descendants: bool) -> (r: Vec<IndexedNote>)
        ensures
            notes_view(r@) == self@.filter(
                |n: IndexedNoteView| topic_match(n, topic@, include_descendants),
            ),
    {
        let lookup = Lookup::InTopic(topic, include_descendants);
        let r = self.collect_matching(&lookup);
        assert((|n: IndexedNoteView| lookup_selects(n, lookup)) =~= (|n: IndexedNoteView|
            topic_match(n, topic@, include_descendants)));
        r
    }

    /// The notes linking to `target` (with relationship type `rel`, when
    /// given), in index order.
    pub fn backlinks(&self, target: &NoteId, rel: Option<&Rel>) -> (r: Vec<IndexedNote>)
        ensures
            notes_view(r@) == self@.filter(|n: IndexedNoteView| links_to(n, *target, opt_rel_view(rel))),
    {
        let lookup = Lookup::LinksTo(target, rel);
        let r = self.collect_matching(&lookup);
        assert((|n: IndexedNoteView| lookup_selects(n, lookup)) =~= (|n: IndexedNoteView|
            links_to(n, *target, opt_rel_view(rel))));
        r
    }

    /// The notes carrying `tag`.
    pub fn list_by_tag(&self, tag: &Tag) -> (r: Vec<IndexedNote>)
        ensures
            notes_view(r@) == self@.filter(|n: IndexedNoteView| tag_match(n, tag@)),
    {
        let lookup = Lookup::WithTag(tag);
        let r = self.collect_matching(&lookup);
        assert((|n: IndexedNoteView| lookup_selects(n, lookup)) =~= (|n: IndexedNoteView|
            tag_match(n, tag@)));
        r
    }
}

/// A lookup in the index.
enum Lookup<'a> {
    IdPrefix(&'a [char]),
    Title(&'a [char]),
    TitlePrefix(&'a [char]),
    Alias(&'a [char]),
    InTopic(&'a Topic, bool),
    WithTag(&'a Tag),
    LinksTo(&'a NoteId, Option<&'a Rel>),
}

spec fn lookup_selects(n: IndexedNoteView, lookup: Lookup) -> bool {
    match lookup {
        Lookup::IdPrefix(q) => id_prefix_match(n, q@),
        Lookup::Title(q) => title_match(n, q@),
        Lookup::TitlePrefix(q) => title_prefix_match(n, q@),
        Lookup::Alias(q) => alias_match(n, q@),
        Lookup::InTopic(t, descendants) => topic_match(n, t@, descendants),
        Lookup::WithTag(t) => tag_match(n, t@),
        Lookup::LinksTo(id, rel) => links_to(n, *id, opt_rel_view(rel)),
    }
}

/// Whether `lookup` selects `n`.
fn selects(n: &IndexedNote, lookup: &Lookup) -> (r: bool)
    ensures
        r == lookup_selects(n@, *lookup),
{
    match lookup {
        Lookup::IdPrefix(q) => {
            let text = n.id().to_string();
            let t = chars_of(text.as_str());
            chars_ascii_ci_starts_with(t.as_slice(), q)
        },
        Lookup::Title(q) => chars_ascii_ci_eq(chars_of(n.title()).as_slice(), q),
        Lookup::TitlePrefix(q) => q.len() > 0 && chars_ascii_ci_starts_with(
            chars_of(n.title()).as_slice(),
            q,
        ),
        Lookup::Alias(q) => note_has_alias(n, q),
        Lookup::InTopic(t, descendants) => note_matches_topic(n, t, *descendants),
        Lookup::WithTag(t) => note_has_tag(n, t),
        Lookup::LinksTo(id, rel) => note_links_to(n, id, *rel),
    }
}

} // verus!
