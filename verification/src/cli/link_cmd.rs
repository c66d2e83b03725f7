//! The `link` and `unlink` commands: checking the arguments, resolving both
//! ends, and the source note after the change.

use vstd::prelude::*;
use vstd::string::StringExecFns;
use crate::cli::args::{BacklinksArgs, LinkArgs, UnlinkArgs};
use crate::cli::index::{links_to, notes_view, IndexedNote, IndexedNoteView, NoteIndex};
use crate::cli::list::{newest_first, sort_newest_first};
use crate::cli::show_edit::{resolve_unique, NoteLookupError};
use crate::cli::links::{
    clone_links, link_view, links_view, merge_or_add_link, merge_spec, remove_link, remove_spec,
};
use crate::cli::resolve::{resolve_note, resolves_to, ResolveResult};
use crate::domain::link::{clone_rels, rel_accepts, rel_error_message, rel_normal_form, rels_view, Link, Rel};
use crate::domain::note::{
    clone_tags, clone_topics, dedup_aliases_spec, dedup_first, description_spec, rebuild_note,
    strings_view, Note, ParseNoteError,
};
use crate::domain::note_id::{ulid_text_ok, ulid_decoded, NoteId};
use crate::domain::timestamp::Timestamp;
use crate::text::{trim};

verus! {

/// Why `link` or `unlink` was refused.
#[derive(Debug)]
pub struct LinkCommandError(String);

impl View for LinkCommandError {
    type V = Seq<char>;

    closed spec fn view(&self) -> Seq<char> {
        self.0@
    }
}

impl LinkCommandError {
    pub fn to_string(&self) -> (r: String)
        ensures
            r@ == self@,
    {
        self.0.clone()
    }
}

fn error3(a: &str, b: &str, c: &str) -> (r: LinkCommandError)
    ensures
        r@ == a@ + b@ + c@,
{
    let mut s = String::from_str(a);
    s.append(b);
    s.append(c);
    LinkCommandError(s)
}

/// The relationship types of `link`, parsed in order: at least one is
/// needed, and the first invalid one is reported.
pub open spec fn rels_fold(rs: Seq<Seq<char>>) -> Result<Seq<Seq<char>>, Seq<char>>
    decreases rs.len(),
{
    if rs.len() == 0 {
        Ok(Seq::empty())
    } else {
        match rels_fold(rs.drop_last()) {
            Ok(acc) => if rel_accepts(rs.last()) {
                Ok(acc.push(rel_normal_form(rs.last())))
            } else {
                Err("invalid rel '"@ + rs.last() + "': "@ + rel_error_message(rs.last()))
            },
            Err(m) => Err(m),
        }
    }
}

pub open spec fn link_rels_spec(rs: Seq<Seq<char>>) -> Result<Seq<Seq<char>>, Seq<char>> {
    if rs.len() == 0 {
        Err("link requires at least one --rel"@)
    } else {
        rels_fold(rs)
    }
}

proof fn lemma_rels_fold_err(rs: Seq<Seq<char>>, n: int, m: Seq<char>)
    requires
        0 <= n <= rs.len(),
        rels_fold(rs.take(n)) == Err::<Seq<Seq<char>>, Seq<char>>(m),
    ensures
        rels_fold(rs) == Err::<Seq<Seq<char>>, Seq<char>>(m),
    decreases rs.len() - n,
{
    if n == rs.len() {
        assert(rs.take(n) =~= rs);
    } else {
        assert(rs.take(n + 1).drop_last() =~= rs.take(n));
        lemma_rels_fold_err(rs, n + 1, m);
    }
}

/// Parses the relationship types of `link` (see `link_rels_spec`).
pub fn parse_link_rels(rels: &[String]) -> (r: Result<Vec<Rel>, LinkCommandError>)
    ensures
        match link_rels_spec(strings_view(rels@)) {
            Ok(v) => r matches Ok(rs) && rels_view(rs@) == v,
            Err(m) => r matches Err(e) && e@ == m,
        },
{
    if rels.len() == 0 {
        return Err(LinkCommandError(String::from_str("link requires at least one --rel")));
    }
    let ghost sv = strings_view(rels@);
    let mut out: Vec<Rel> = Vec::new();
    let mut i: usize = 0;
    assert(sv.take(0) =~= Seq::<Seq<char>>::empty());
    assert(rels_view(out@) =~= Seq::<Seq<char>>::empty());
    while i < rels.len()
        invariant
            i <= rels@.len(),
            sv == strings_view(rels@),
            rels_fold(sv.take(i as int)) == Ok::<Seq<Seq<char>>, Seq<char>>(rels_view(out@)),
        decreases rels@.len() - i,
    {
        assert(sv.take(i + 1).drop_last() =~= sv.take(i as int));
        assert(sv.take(i + 1).last() == rels@[i as int]@);
        match Rel::new(rels[i].as_str()) {
            Ok(r) => {
                let ghost before = out@;
                out.push(r);
                assert(rels_view(out@) =~= rels_view(before).push(r@));
            },
            Err(e) => {
                let msg = e.to_string();
                let err = error3("invalid rel '", rels[i].as_str(), "': ");
                let mut s = err.0;
                s.append(msg.as_str());
                proof {
                    lemma_rels_fold_err(sv, i + 1, s@);
                }
                return Err(LinkCommandError(s));
            },
        }
        i = i + 1;
    }
    assert(sv.take(sv.len() as int) =~= sv);
    Ok(out)
}

/// What resolving the source of a link gives: the note, or the message.
pub open spec fn source_outcome(res: ResolveResult, reference: Seq<char>, r: Result<IndexedNote, LinkCommandError>) -> bool {
    match res {
        ResolveResult::Unique(n) => r matches Ok(m) && m@ == n@,
        ResolveResult::Ambiguous(_) => r matches Err(e) && e@ == "ambiguous source note identifier"@,
        ResolveResult::NotFound => r matches Err(e) && e@ == "source note not found: '"@ + reference
            + "'"@,
    }
}

/// What resolving the target of a link gives: the identifier (a reference
/// that matches no note may itself be an identifier), or the message.
pub open spec fn target_outcome(
    res: ResolveResult,
    reference: Seq<char>,
    not_found: Seq<char>,
    r: Result<NoteId, LinkCommandError>,
) -> bool {
    match res {
        ResolveResult::Unique(n) => r == Ok::<NoteId, LinkCommandError>(n@.id),
        ResolveResult::Ambiguous(_) => r matches Err(e) && e@ == "ambiguous target note identifier"@,
        ResolveResult::NotFound => if ulid_text_ok(reference) {
            r matches Ok(id) && id.spec_value() == ulid_decoded(reference)
        } else {
            r matches Err(e) && e@ == not_found + reference + "'"@
        },
    }
}

fn resolve_source(index: &NoteIndex, reference: &str) -> (r: Result<IndexedNote, LinkCommandError>)
    ensures
        exists|res: ResolveResult|
            #[trigger] resolves_to(index@, trim(reference@), res) && source_outcome(
                res,
                reference@,
                r,
            ),
{
    let res = resolve_note(index, reference);
    let ghost g = res;
    match res {
        ResolveResult::Unique(n) => {
            let r: Result<IndexedNote, LinkCommandError> = Ok(n);
            assert(resolves_to(index@, trim(reference@), g) && source_outcome(g, reference@, r));
            r
        },
        ResolveResult::Ambiguous(_) => Err(
            LinkCommandError(String::from_str("ambiguous source note identifier")),
        ),
        ResolveResult::NotFound => Err(error3("source note not found: '", reference, "'")),
    }
}

fn resolve_target(index: &NoteIndex, reference: &str, not_found: &str) -> (r: Result<
    NoteId,
    LinkCommandError,
>)
    ensures
        exists|res: ResolveResult|
            resolves_to(index@, trim(reference@), res) && target_outcome(
                res,
                reference@,
                not_found@,
                r,
            ),
{
    let res = resolve_note(index, reference);
    match res {
        ResolveResult::Unique(n) => Ok(*n.id()),
        ResolveResult::Ambiguous(_) => Err(
            LinkCommandError(String::from_str("ambiguous target note identifier")),
        ),
        ResolveResult::NotFound => match NoteId::parse(reference) {
            Ok(id) => Ok(id),
            Err(_) => Err(error3(not_found, reference, "'")),
        },
    }
}

/// The two ends of a link and its relationship types.
pub struct LinkPlan {
    pub source: IndexedNote,
    pub target: NoteId,
    pub rels: Vec<Rel>,
}

/// The decisions of `link` before the source note is read: the
/// relationship types are checked first, then the source is resolved (it
/// must exist), then the target (which may be a bare identifier).
pub fn plan_link(index: &NoteIndex, args: &LinkArgs) -> (r: Result<LinkPlan, LinkCommandError>)
    ensures
        match link_rels_spec(strings_view(args.rels@)) {
            Err(m) => r matches Err(e) && e@ == m,
            Ok(rs) => exists|src: Result<IndexedNote, LinkCommandError>, res: ResolveResult|
                resolves_to(index@, trim(args.source@), res) && source_outcome(
                    res,
                    args.source@,
                    src,
                ) && match src {
                    Err(e) => r matches Err(f) && f@ == e@,
                    Ok(s) => exists|tgt: Result<NoteId, LinkCommandError>, res2: ResolveResult|
                        resolves_to(index@, trim(args.target@), res2) && target_outcome(
                            res2,
                            args.target@,
                            "target not found and not a valid note ID: '"@,
                            tgt,
                        ) && match tgt {
                            Err(e) => r matches Err(f) && f@ == e@,
                            Ok(t) => r matches Ok(p) && p.source@ == s@ && p.target == t
                                && rels_view(p.rels@) == rs,
                        },
                },
        },
{
    let rels = match parse_link_rels(args.rels.as_slice()) {
        Ok(r) => r,
        Err(e) => {
            return Err(e);
        },
    };
    let source = resolve_source(index, args.source.as_str());
    let ghost src = source;
    let source = match source {
        Ok(s) => s,
        Err(e) => {
            return Err(e);
        },
    };
    let target = resolve_target(
        index,
        args.target.as_str(),
        "target not found and not a valid note ID: '",
    );
    let ghost tgt = target;
    match target {
        Ok(t) => Ok(LinkPlan { source, target: t, rels }),
        Err(e) => Err(e),
    }
}

/// The link that `link` adds: to `target`, with the relationship types and
/// the optional context.
pub fn new_link(target: NoteId, rels: &[Rel], context: Option<&str>) -> (r: Link)
    ensures
        link_view(r) == (target, rels_view(rels@), match context {
            Some(c) => Some(c@),
            None => None::<Seq<char>>,
        }),
{
    let ctx = match context {
        Some(c) => Some(String::from_str(c)),
        None => None,
    };
    Link::from_parts(target, clone_rels(rels), ctx)
}

/// The source note after linking at `now`, or `None` when the link (with
/// the same relationship types and context) is already there.
pub fn linked_note(note: &Note, link: &Link, now: Timestamp) -> (r: Result<Option<Note>, ParseNoteError>)
    ensures
        !merge_spec(links_view(note.spec_links()), link_view(*link)).1 ==> r matches Ok(None),
        merge_spec(links_view(note.spec_links()), link_view(*link)).1 ==> r matches Ok(Some(_)),
        r matches Ok(Some(n)) ==> {
            &&& n.spec_id() == note.spec_id()
            &&& n.spec_title() == note.spec_title()
            &&& n.spec_created() == note.spec_created()
            &&& n.spec_modified() == now
            &&& n.spec_description() == note.spec_description()
            &&& n.spec_topics() == note.spec_topics()
            &&& n.spec_aliases() == note.spec_aliases()
            &&& n.spec_tags() == note.spec_tags()
            &&& links_view(n.spec_links()) == merge_spec(
                links_view(note.spec_links()),
                link_view(*link),
            ).0
        },
{
    proof {
        use_type_invariant(note);
        crate::domain::note::lemma_dedup_first_of_distinct(note.spec_topics());
        crate::domain::note::lemma_dedup_first_of_distinct(note.spec_tags());
    }
    let (links, changed) = merge_or_add_link(note.links(), link);
    if !changed {
        return Ok(None);
    }
    match rebuild_note(
        note,
        note.title(),
        now,
        clone_topics(note.topics()),
        clone_tags(note.tags()),
        links,
    ) {
        Ok(n) => Ok(Some(n)),
        Err(e) => Err(e),
    }
}

/// The two ends of a link to remove.
pub struct UnlinkPlan {
    pub source: IndexedNote,
    pub target: NoteId,
}

/// The decisions of `unlink` before the source note is read: the source is
/// resolved (it must exist), then the target (which may be a bare identifier).
pub fn plan_unlink(index: &NoteIndex, args: &UnlinkArgs) -> (r: Result<UnlinkPlan, LinkCommandError>)
    ensures
        exists|src: Result<IndexedNote, LinkCommandError>, res: ResolveResult|
            resolves_to(index@, trim(args.source@), res) && source_outcome(res, args.source@, src)
                && match src {
                Err(e) => r matches Err(f) && f@ == e@,
                Ok(s) => exists|tgt: Result<NoteId, LinkCommandError>, res2: ResolveResult|
                    resolves_to(index@, trim(args.target@), res2) && target_outcome(
                        res2,
                        args.target@,
                        "target note not found and not a valid note ID: '"@,
                        tgt,
                    ) && match tgt {
                        Err(e) => r matches Err(f) && f@ == e@,
                        Ok(t) => r matches Ok(p) && p.source@ == s@ && p.target == t,
                    },
            },
{
    let source = resolve_source(index, args.source.as_str());
    let ghost src = source;
    let source = match source {
        Ok(s) => s,
        Err(e) => {
            return Err(e);
        },
    };
    let target = resolve_target(
        index,
        args.target.as_str(),
        "target note not found and not a valid note ID: '",
    );
    let ghost tgt = target;
    match target {
        Ok(t) => Ok(UnlinkPlan { source, target: t }),
        Err(e) => Err(e),
    }
}

/// The source note after unlinking `target` at `now`, or `None` when it
/// has no link to `target`.
pub fn unlinked_note(note: &Note, target: &NoteId, now: Timestamp) -> (r: Result<Option<Note>, ParseNoteError>)
    ensures
        !remove_spec(links_view(note.spec_links()), *target).1 ==> r matches Ok(None),
        remove_spec(links_view(note.spec_links()), *target).1 ==> r matches Ok(Some(_)),
        r matches Ok(Some(n)) ==> {
            &&& n.spec_id() == note.spec_id()
            &&& n.spec_title() == note.spec_title()
            &&& n.spec_created() == note.spec_created()
            &&& n.spec_modified() == now
            &&& n.spec_description() == note.spec_description()
            &&& n.spec_topics() == note.spec_topics()
            &&& n.spec_aliases() == note.spec_aliases()
            &&& n.spec_tags() == note.spec_tags()
            &&& links_view(n.spec_links()) == remove_spec(links_view(note.spec_links()), *target).0
        },
{
    proof {
        use_type_invariant(note);
        crate::domain::note::lemma_dedup_first_of_distinct(note.spec_topics());
        crate::domain::note::lemma_dedup_first_of_distinct(note.spec_tags());
    }
    let (links, changed) = remove_link(note.links(), target);
    if !changed {
        return Ok(None);
    }
    match rebuild_note(
        note,
        note.title(),
        now,
        clone_topics(note.topics()),
        clone_tags(note.tags()),
        links,
    ) {
        Ok(n) => Ok(Some(n)),
        Err(e) => Err(e),
    }
}


/// Why `backlinks` was refused.
#[derive(Debug)]
pub enum BacklinksError {
    /// The reference does not designate exactly one note.
    Lookup(NoteLookupError),
    /// The relationship type filter is not a valid relationship type.
    InvalidRel(String),
}

impl BacklinksError {
    /// The message: the lookup's, or `invalid relationship type '<rel>': <reason>`.
    pub fn to_string(&self) -> (r: String)
        ensures
            match self {
                BacklinksError::Lookup(NoteLookupError::Ambiguous(_)) => r@
                    == "ambiguous note identifier"@,
                BacklinksError::Lookup(NoteLookupError::NotFound(q)) => r@ == "note not found: '"@
                    + q@ + "'"@,
                BacklinksError::InvalidRel(m) => r@ == m@,
            },
    {
        match self {
            BacklinksError::Lookup(e) => e.to_string(),
            BacklinksError::InvalidRel(m) => m.clone(),
        }
    }
}

/// The notes linking to `id` (by a link with relationship type `rel`, when
/// given), most recently modified first.
pub open spec fn backlinks_of(idx: Seq<IndexedNoteView>, id: NoteId, rel: Option<Seq<char>>) -> Seq<
    IndexedNoteView,
> {
    newest_first(idx.filter(|m: IndexedNoteView| links_to(m, id, rel)))
}

/// The decisions of `backlinks`: the note is resolved first, then the
/// relationship type filter is checked, and the notes linking to it come
/// back most recently modified first.
pub fn handle_backlinks(index: &NoteIndex, args: &BacklinksArgs) -> (r: Result<
    Vec<IndexedNote>,
    BacklinksError,
>)
    ensures
        exists|res: ResolveResult|
            resolves_to(index@, trim(args.note@), res) && match res {
                ResolveResult::Unique(n) => match args.rel {
                    None => r matches Ok(v) && notes_view(v@) == backlinks_of(index@, n@.id, None),
                    Some(rs) => if rel_accepts(rs@) {
                        r matches Ok(v) && notes_view(v@) == backlinks_of(
                            index@,
                            n@.id,
                            Some(rel_normal_form(rs@)),
                        )
                    } else {
                        r matches Err(BacklinksError::InvalidRel(m)) && m@
                            == "invalid relationship type '"@ + rs@ + "': "@ + rel_error_message(
                            rs@,
                        )
                    },
                },
                ResolveResult::Ambiguous(v) => r matches Err(
                    BacklinksError::Lookup(NoteLookupError::Ambiguous(w)),
                ) && notes_view(w@) == notes_view(v@),
                ResolveResult::NotFound => r matches Err(
                    BacklinksError::Lookup(NoteLookupError::NotFound(q)),
                ) && q@ == args.note@,
            },
{
    let note = match resolve_unique(index, args.note.as_str()) {
        Ok(n) => n,
        Err(e) => {
            return Err(BacklinksError::Lookup(e));
        },
    };
    let rel = match &args.rel {
        Some(rs) => match Rel::new(rs.as_str()) {
            Ok(r) => Some(r),
            Err(e) => {
                let err = error3("invalid relationship type '", rs.as_str(), "': ");
                let mut m = err.0;
                let reason = e.to_string();
                m.append(reason.as_str());
                return Err(BacklinksError::InvalidRel(m));
            },
        },
        None => None,
    };
    let found = match &rel {
        Some(r) => index.backlinks(note.id(), Some(r)),
        None => index.backlinks(note.id(), None),
    };
    Ok(sort_newest_first(found))
}

} // verus!
