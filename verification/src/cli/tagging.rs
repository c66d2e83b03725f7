//! Adding and removing a tag on a note, and archiving (the `archived` tag).

use vstd::prelude::*;
use vstd::string::StringExecFns;
use crate::cli::links::{clone_links, links_view};
use crate::cli::output::OutputFormat;
use crate::domain::note::{
    clone_tags, clone_topics, dedup_aliases_spec, dedup_first, description_spec,
    lemma_dedup_first_of_distinct, no_duplicates, rebuild_note, tags_view, Note, ParseNoteError,
};
use crate::domain::tag::{tag_accepts, tag_normal_form, Tag};
use crate::domain::timestamp::Timestamp;
use crate::text::trim;

verus! {

/// The tag that marks archived notes.
pub const ARCHIVED_TAG: &'static str = "archived";

/// Arguments of `archive`.
#[derive(Debug)]
pub struct ArchiveArgs {
    pub note: String,
    pub format: OutputFormat,
}

/// Arguments of `unarchive`.
#[derive(Debug)]
pub struct UnarchiveArgs {
    pub note: String,
    pub format: OutputFormat,
}

/// What archiving or unarchiving reports.
#[derive(Debug)]
pub struct ArchiveResult {
    pub id: String,
    pub title: String,
    pub archived: bool,
    pub path: String,
}

/// The tags of a note after adding `t` (the builder removes duplicates).
pub open spec fn tags_after_add(tags: Seq<Seq<char>>, t: Seq<char>) -> Seq<Seq<char>> {
    dedup_first(tags.push(t))
}

/// The tags of a note after removing `t`.
pub open spec fn tags_after_remove(tags: Seq<Seq<char>>, t: Seq<char>) -> Seq<Seq<char>> {
    dedup_first(tags.filter(other_than(t)))
}

/// The predicate "differs from `t`".
pub open spec fn other_than(t: Seq<char>) -> spec_fn(Seq<char>) -> bool {
    |x: Seq<char>| x != t
}

/// The note rebuilt at `now` with other tags and everything else kept.
pub open spec fn retagged(n: Note, note: Note, tags: Seq<Seq<char>>, now: Timestamp) -> bool {
    &&& n.spec_id() == note.spec_id()
    &&& n.spec_title() == note.spec_title()
    &&& n.spec_created() == note.spec_created()
    &&& n.spec_modified() == now
    &&& n.spec_description() == note.spec_description()
    &&& n.spec_topics() == note.spec_topics()
    &&& n.spec_aliases() == note.spec_aliases()
    &&& n.spec_tags() == tags
    &&& links_view(n.spec_links()) == links_view(note.spec_links())
}

/// Whether a list of tags holds `tag`.
pub fn tags_contain(tags: &[Tag], tag: &Tag) -> (r: bool)
    ensures
        r == tags_view(tags@).contains(tag@),
{
    let mut i: usize = 0;
    while i < tags.len()
        invariant
            i <= tags@.len(),
            forall|j: int| 0 <= j < i ==> tags@[j]@ != tag@,
        decreases tags@.len() - i,
    {
        if tags[i] == *tag {
            assert(tags_view(tags@)[i as int] == tag@);
            return true;
        }
        i = i + 1;
    }
    assert forall|k: int| 0 <= k < tags_view(tags@).len() implies tags_view(tags@)[k] != tag@ by {
        assert(tags_view(tags@)[k] == tags@[k]@);
    }
    false
}

/// The note with `tag` added at `now`; `None` when it already carries the tag.
pub fn add_tag(note: &Note, tag: &Tag, now: Timestamp) -> (r: Result<Option<Note>, ParseNoteError>)
    ensures
        note.spec_tags().contains(tag@) ==> r matches Ok(None),
        !note.spec_tags().contains(tag@) ==> (r matches Ok(Some(n)) && n.spec_tags() == note.spec_tags().push(
            tag@,
        )),
        r matches Ok(None) ==> note.spec_tags().contains(tag@),
        r matches Ok(Some(n)) ==> !note.spec_tags().contains(tag@) && retagged(
            n,
            *note,
            tags_after_add(note.spec_tags(), tag@),
            now,
        ),
{
    proof {
        use_type_invariant(note);
        lemma_dedup_first_of_distinct(note.spec_topics());
        if !note.spec_tags().contains(tag@) {
            let t = note.spec_tags().push(tag@);
            assert forall|i: int, j: int| 0 <= i < j < t.len() implies t[i] != t[j] by {
                if j == t.len() - 1 {
                    assert(note.spec_tags()[i] == t[i]);
                }
            }
            lemma_dedup_first_of_distinct(t);
        }
    }
    if tags_contain(note.tags(), tag) {
        return Ok(None);
    }
    let mut tags = clone_tags(note.tags());
    let ghost before = tags@;
    tags.push(tag.clone());
    assert(tags_view(tags@) =~= tags_view(before).push(tag@));
    match rebuild_note(
        note,
        note.title(),
        now,
        clone_topics(note.topics()),
        tags,
        clone_links(note.links()),
    ) {
        Ok(n) => Ok(Some(n)),
        Err(e) => Err(e),
    }
}

/// The note with `tag` removed at `now`; `None` when it does not carry the tag.
pub fn remove_tag(note: &Note, tag: &Tag, now: Timestamp) -> (r: Result<Option<Note>, ParseNoteError>)
    ensures
        !note.spec_tags().contains(tag@) ==> r matches Ok(None),
        note.spec_tags().contains(tag@) ==> r matches Ok(Some(_)),
        r matches Ok(None) ==> !note.spec_tags().contains(tag@),
        r matches Ok(Some(n)) ==> note.spec_tags().contains(tag@) && retagged(
            n,
            *note,
            tags_after_remove(note.spec_tags(), tag@),
            now,
        ),
{
    proof {
        use_type_invariant(note);
        lemma_dedup_first_of_distinct(note.spec_topics());
    }
    if !tags_contain(note.tags(), tag) {
        return Ok(None);
    }
    let old_tags = note.tags();
    let ghost tv = tags_view(old_tags@);
    let ghost keep = other_than(tag@);
    let mut tags: Vec<Tag> = Vec::new();
    let mut i: usize = 0;
    assert(tv.take(0).filter(keep) =~= Seq::<Seq<char>>::empty());
    assert(tags_view(tags@) =~= Seq::<Seq<char>>::empty());
    while i < old_tags.len()
        invariant
            i <= old_tags@.len(),
            tv == tags_view(old_tags@),
            keep == other_than(tag@),
            tags_view(tags@) == tv.take(i as int).filter(keep),
        decreases old_tags@.len() - i,
    {
        assert(tv.take(i + 1) =~= tv.take(i as int).push(old_tags@[i as int]@));
        proof {
            tv.take(i as int).lemma_filter_push(old_tags@[i as int]@, keep);
        }
        if old_tags[i] != *tag {
            let ghost before = tags@;
            tags.push(old_tags[i].clone());
            assert(tags_view(tags@) =~= tags_view(before).push(old_tags@[i as int]@));
        }
        i = i + 1;
    }
    assert(tv.take(tv.len() as int) =~= tv);
    match rebuild_note(
        note,
        note.title(),
        now,
        clone_topics(note.topics()),
        tags,
        clone_links(note.links()),
    ) {
        Ok(n) => Ok(Some(n)),
        Err(e) => Err(e),
    }
}

/// The `archived` tag.
pub fn archived_tag() -> (r: Tag)
    ensures
        r@ == "archived"@,
{
    proof {
        reveal_strlit("archived");
        assert(trim("archived"@) =~= "archived"@);
        assert(tag_accepts("archived"@));
        assert(tag_normal_form("archived"@) =~= "archived"@);
    }
    Tag::new(ARCHIVED_TAG).unwrap()
}

/// The note archived at `now`: the `archived` tag added; `None` when it is
/// already archived; an error when the note's title is blank.
pub fn archive_note(note: &Note, now: Timestamp) -> (r: Result<Option<Note>, ParseNoteError>)
    ensures
        note.spec_tags().contains("archived"@) ==> r matches Ok(None),
        !note.spec_tags().contains("archived"@) ==> (r matches Ok(Some(n)) && n.spec_tags() == note.spec_tags().push(
            "archived"@,
        )),
        r matches Ok(None) ==> note.spec_tags().contains("archived"@),
        r matches Ok(Some(n)) ==> retagged(
            n,
            *note,
            tags_after_add(note.spec_tags(), "archived"@),
            now,
        ),
{
    let tag = archived_tag();
    add_tag(note, &tag, now)
}

/// The note unarchived at `now`: the `archived` tag removed; `None` when it
/// is not archived; an error when the note's title is blank.
pub fn unarchive_note(note: &Note, now: Timestamp) -> (r: Result<Option<Note>, ParseNoteError>)
    ensures
        !note.spec_tags().contains("archived"@) ==> r matches Ok(None),
        note.spec_tags().contains("archived"@) ==> r matches Ok(Some(_)),
        r matches Ok(None) ==> !note.spec_tags().contains("archived"@),
        r matches Ok(Some(n)) ==> retagged(
            n,
            *note,
            tags_after_remove(note.spec_tags(), "archived"@),
            now,
        ),
{
    let tag = archived_tag();
    remove_tag(note, &tag, now)
}

/// Unarchiving undoes archiving: archiving a note that is not archived and
/// then unarchiving it gives back its tags (a built note's tags hold no
/// duplicates).
pub proof fn lemma_unarchive_undoes_archive(tags: Seq<Seq<char>>)
    requires
        no_duplicates(tags),
        !tags.contains("archived"@),
    ensures
        tags_after_remove(tags_after_add(tags, "archived"@), "archived"@) == tags,
{
    lemma_remove_undoes_add(tags, "archived"@);
}

/// Why `tag` or `untag` was refused.
#[derive(Debug)]
pub struct TagCommandError(String);

impl View for TagCommandError {
    type V = Seq<char>;

    closed spec fn view(&self) -> Seq<char> {
        self.0@
    }
}

impl TagCommandError {
    pub fn to_string(&self) -> (r: String)
        ensures
            r@ == self@,
    {
        self.0.clone()
    }
}

/// The tag of `tag`/`untag`, checked before anything is read: `invalid
/// tag '<text>': <reason>` when it is not a valid tag.
pub fn parse_tag_arg(text: &str) -> (r: Result<Tag, TagCommandError>)
    ensures
        tag_accepts(text@) ==> (r matches Ok(t) && t@ == tag_normal_form(text@)),
        !tag_accepts(text@) ==> (r matches Err(e) && e@ == "invalid tag '"@ + text@ + "': "@
            + crate::domain::tag::tag_error_message(text@)),
{
    match Tag::new(text) {
        Ok(t) => Ok(t),
        Err(e) => {
            let mut s = String::from_str("invalid tag '");
            s.append(text);
            s.append("': ");
            let m = e.to_string();
            s.append(m.as_str());
            Err(TagCommandError(s))
        },
    }
}

/// The decisions of `tag` once the note is read: the note with the tag
/// added at `now`, or `None` when it already carries it.
pub fn handle_tag(args: &crate::cli::args::TagArgs, note: &Note, now: Timestamp) -> (r: Result<
    Option<Note>,
    TagCommandError,
>)
    ensures
        !tag_accepts(args.tag@) ==> (r matches Err(e) && e@ == "invalid tag '"@ + args.tag@ + "': "@
            + crate::domain::tag::tag_error_message(args.tag@)),
        tag_accepts(args.tag@) && note.spec_tags().contains(tag_normal_form(args.tag@)) ==> r matches Ok(None),
        r matches Ok(Some(n)) ==> tag_accepts(args.tag@) && retagged(
            n,
            *note,
            tags_after_add(note.spec_tags(), tag_normal_form(args.tag@)),
            now,
        ),
        tag_accepts(args.tag@) && !note.spec_tags().contains(tag_normal_form(args.tag@)) ==> (r matches Ok(
            Some(n),
        ) && n.spec_tags() == note.spec_tags().push(tag_normal_form(args.tag@))),
{
    let tag = match parse_tag_arg(args.tag.as_str()) {
        Ok(t) => t,
        Err(e) => {
            return Err(e);
        },
    };
    match add_tag(note, &tag, now) {
        Ok(o) => Ok(o),
        Err(_) => Err(TagCommandError(String::from_str("failed to rebuild note"))),
    }
}

/// The decisions of `untag` once the note is read: the note with the tag
/// removed at `now`, or `None` when it does not carry it.
pub fn handle_untag(args: &crate::cli::args::UntagArgs, note: &Note, now: Timestamp) -> (r: Result<
    Option<Note>,
    TagCommandError,
>)
    ensures
        !tag_accepts(args.tag@) ==> (r matches Err(e) && e@ == "invalid tag '"@ + args.tag@ + "': "@
            + crate::domain::tag::tag_error_message(args.tag@)),
        tag_accepts(args.tag@) && !note.spec_tags().contains(tag_normal_form(args.tag@)) ==> r matches Ok(None),
        r matches Ok(Some(n)) ==> tag_accepts(args.tag@) && retagged(
            n,
            *note,
            tags_after_remove(note.spec_tags(), tag_normal_form(args.tag@)),
            now,
        ),
        tag_accepts(args.tag@) && note.spec_tags().contains(tag_normal_form(args.tag@)) ==> r matches Ok(
            Some(_),
        ),
{
    let tag = match parse_tag_arg(args.tag.as_str()) {
        Ok(t) => t,
        Err(e) => {
            return Err(e);
        },
    };
    match remove_tag(note, &tag, now) {
        Ok(o) => Ok(o),
        Err(_) => Err(TagCommandError(String::from_str("failed to rebuild note"))),
    }
}

/// Tagging twice is tagging once: after adding a tag, the note carries it,
/// so adding it again changes nothing.
pub proof fn lemma_add_tag_then_present(tags: Seq<Seq<char>>, t: Seq<char>)
    ensures
        tags_after_add(tags, t).contains(t),
{
    crate::domain::note::lemma_dedup_first_props(tags.push(t));
    assert(tags.push(t)[tags.len() as int] == t);
    assert(tags.push(t).contains(t));
}

/// Untagging undoes tagging: adding a tag a note did not carry and then
/// removing it gives back the note's tags (a built note's tags hold no
/// duplicates).
pub proof fn lemma_remove_undoes_add(tags: Seq<Seq<char>>, t: Seq<char>)
    requires
        no_duplicates(tags),
        !tags.contains(t),
    ensures
        tags_after_remove(tags_after_add(tags, t), t) == tags,
{
    let pushed = tags.push(t);
    assert(no_duplicates(pushed)) by {
        assert forall|i: int, j: int| 0 <= i < j < pushed.len() implies pushed[i] != pushed[j] by {
            if j == tags.len() {
                assert(pushed[i] == tags[i]);
            } else {
                assert(pushed[i] == tags[i] && pushed[j] == tags[j]);
            }
        }
    }
    lemma_dedup_first_of_distinct(pushed);
    assert(tags_after_add(tags, t) == pushed);
    let keep = other_than(t);
    tags.lemma_filter_push(t, keep);
    assert(pushed.filter(keep) == tags.filter(keep));
    lemma_filter_keeps_all(tags, t);
    assert(tags.filter(keep) == tags);
    lemma_dedup_first_of_distinct(tags);

}

proof fn lemma_filter_keeps_all(tags: Seq<Seq<char>>, t: Seq<char>)
    requires
        !tags.contains(t),
    ensures
        tags.filter(other_than(t)) == tags,
    decreases tags.len(),
{
    let keep = other_than(t);
    if tags.len() > 0 {
        let d = tags.drop_last();
        assert(!d.contains(t)) by {
            if d.contains(t) {
                let k = choose|k: int| 0 <= k < d.len() && d[k] == t;
                assert(tags[k] == t);
            }
        }
        lemma_filter_keeps_all(d, t);
        assert(tags[tags.len() - 1] != t);
        d.lemma_filter_push(tags.last(), keep);
        assert(d.push(tags.last()) =~= tags);
    } else {
        assert(tags.filter(keep) =~= tags);
    }
}

} // verus!
