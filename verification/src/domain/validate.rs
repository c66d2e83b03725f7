//! Checks over a collection of notes: duplicate identifiers, broken links, orphans.

use vstd::prelude::*;
use crate::domain::link::Link;
use crate::domain::note::Note;
use crate::domain::note_id::NoteId;
use crate::domain::validation::{
    issues_view, severity_of, with_severity, IssueKindView, Severity, ValidationIssue,
    ValidationSummary,
};

verus! {

pub type IssueView = (Seq<char>, IssueKindView);

pub open spec fn ids_of(v: Seq<(String, &Note)>) -> Seq<NoteId> {
    v.map_values(|e: (String, &Note)| e.1.spec_id())
}

/// Position of the first occurrence of `id` (meaningful when it occurs).
pub open spec fn first_index(ids: Seq<NoteId>, id: NoteId) -> int {
    choose|j: int| 0 <= j < ids.len() && ids[j] == id && forall|k: int| 0 <= k < j ==> ids[k] != id
}

/// One issue per note whose identifier occurred earlier, naming the path of the first occurrence.
pub open spec fn duplicate_issues(v: Seq<(String, &Note)>) -> Seq<IssueView>
    decreases v.len(),
{
    if v.len() == 0 {
        Seq::empty()
    } else {
        let p = v.drop_last();
        let e = v.last();
        let rest = duplicate_issues(p);
        if ids_of(p).contains(e.1.spec_id()) {
            rest.push(
                (
                    e.0@,
                    IssueKindView::DuplicateId(
                        e.1.spec_id(),
                        p[first_index(ids_of(p), e.1.spec_id())].0@,
                    ),
                ),
            )
        } else {
            rest
        }
    }
}

/// One issue per link whose target is not among `known`.
pub open spec fn link_issues(path: Seq<char>, links: Seq<Link>, known: Seq<NoteId>) -> Seq<IssueView>
    decreases links.len(),
{
    if links.len() == 0 {
        Seq::empty()
    } else {
        let rest = link_issues(path, links.drop_last(), known);
        let t = links.last().spec_target();
        if known.contains(t) {
            rest
        } else {
            rest.push((path, IssueKindView::BrokenLink(t)))
        }
    }
}

pub open spec fn broken_link_issues(v: Seq<(String, &Note)>, known: Seq<NoteId>) -> Seq<IssueView>
    decreases v.len(),
{
    if v.len() == 0 {
        Seq::empty()
    } else {
        broken_link_issues(v.drop_last(), known) + link_issues(
            v.last().0@,
            v.last().1.spec_links(),
            known,
        )
    }
}

pub open spec fn orphan_issues(v: Seq<(String, &Note)>) -> Seq<IssueView>
    decreases v.len(),
{
    if v.len() == 0 {
        Seq::empty()
    } else {
        let rest = orphan_issues(v.drop_last());
        if v.last().1.spec_topics().len() == 0 {
            rest.push((v.last().0@, IssueKindView::Orphaned))
        } else {
            rest
        }
    }
}

/// Everything `validate_notes` reports, in order.
pub open spec fn all_issues(v: Seq<(String, &Note)>) -> Seq<IssueView> {
    duplicate_issues(v) + broken_link_issues(v, ids_of(v)) + orphan_issues(v)
}

proof fn lemma_filter_all<A>(s: Seq<A>, p: spec_fn(A) -> bool)
    requires
        forall|i: int| 0 <= i < s.len() ==> p(#[trigger] s[i]),
    ensures
        s.filter(p) == s,
    decreases s.len(),
{
    reveal_with_fuel(Seq::filter, 1);
    if s.len() > 0 {
        lemma_filter_all(s.drop_last(), p);
        assert(s.drop_last().push(s.last()) =~= s);
    } else {
        assert(s.filter(p) =~= s);
    }
}

proof fn lemma_filter_none<A>(s: Seq<A>, p: spec_fn(A) -> bool)
    requires
        forall|i: int| 0 <= i < s.len() ==> !p(#[trigger] s[i]),
    ensures
        s.filter(p) == Seq::<A>::empty(),
    decreases s.len(),
{
    reveal_with_fuel(Seq::filter, 1);
    if s.len() > 0 {
        lemma_filter_none(s.drop_last(), p);
    } else {
        assert(s.filter(p) =~= Seq::<A>::empty());
    }
}

proof fn lemma_duplicate_kinds(v: Seq<(String, &Note)>)
    ensures
        forall|i: int| 0 <= i < duplicate_issues(v).len() ==> (#[trigger] duplicate_issues(v)[i]).1 is DuplicateId,
    decreases v.len(),
{
    if v.len() > 0 {
        lemma_duplicate_kinds(v.drop_last());
    }
}

proof fn lemma_link_kinds(path: Seq<char>, links: Seq<Link>, known: Seq<NoteId>)
    ensures
        forall|i: int| 0 <= i < link_issues(path, links, known).len() ==> (#[trigger] link_issues(path, links, known)[i]).1 is BrokenLink,
    decreases links.len(),
{
    if links.len() > 0 {
        lemma_link_kinds(path, links.drop_last(), known);
    }
}

proof fn lemma_broken_kinds(v: Seq<(String, &Note)>, known: Seq<NoteId>)
    ensures
        forall|i: int| 0 <= i < broken_link_issues(v, known).len() ==> (#[trigger] broken_link_issues(v, known)[i]).1 is BrokenLink,
    decreases v.len(),
{
    if v.len() > 0 {
        lemma_broken_kinds(v.drop_last(), known);
        lemma_link_kinds(v.last().0@, v.last().1.spec_links(), known);
        let a = broken_link_issues(v.drop_last(), known);
        let b = link_issues(v.last().0@, v.last().1.spec_links(), known);
        assert forall|i: int| 0 <= i < (a + b).len() implies (#[trigger] (a + b)[i]).1 is BrokenLink by {
            if i < a.len() {
                assert((a + b)[i] == a[i]);
            } else {
                assert((a + b)[i] == b[i - a.len()]);
            }
        }
    }
}

proof fn lemma_orphan_kinds(v: Seq<(String, &Note)>)
    ensures
        forall|i: int| 0 <= i < orphan_issues(v).len() ==> (#[trigger] orphan_issues(v)[i]).1 is Orphaned,
    decreases v.len(),
{
    if v.len() > 0 {
        lemma_orphan_kinds(v.drop_last());
    }
}

/// The errors `validate_notes` reports are exactly the duplicate identifiers
/// and broken links, and the warnings exactly the orphaned notes.
pub proof fn lemma_validate_severities(v: Seq<(String, &Note)>)
    ensures
        with_severity(all_issues(v), Severity::Error) == duplicate_issues(v) + broken_link_issues(
            v,
            ids_of(v),
        ),
        with_severity(all_issues(v), Severity::Warning) == orphan_issues(v),
{
    let d = duplicate_issues(v);
    let b = broken_link_issues(v, ids_of(v));
    let o = orphan_issues(v);
    lemma_duplicate_kinds(v);
    lemma_broken_kinds(v, ids_of(v));
    lemma_orphan_kinds(v);
    let pe = |i: IssueView| severity_of(i.1) == Severity::Error;
    let pw = |i: IssueView| severity_of(i.1) == Severity::Warning;
    assert((d + b + o).filter(pe) == (d + b).filter(pe) + o.filter(pe)) by {
        Seq::filter_distributes_over_add(d + b, o, pe);
    }
    assert((d + b).filter(pe) == d.filter(pe) + b.filter(pe)) by {
        Seq::filter_distributes_over_add(d, b, pe);
    }
    assert((d + b + o).filter(pw) == (d + b).filter(pw) + o.filter(pw)) by {
        Seq::filter_distributes_over_add(d + b, o, pw);
    }
    assert((d + b).filter(pw) == d.filter(pw) + b.filter(pw)) by {
        Seq::filter_distributes_over_add(d, b, pw);
    }
    lemma_filter_all(d, pe);
    lemma_filter_all(b, pe);
    lemma_filter_none(o, pe);
    lemma_filter_none(d, pw);
    lemma_filter_none(b, pw);
    lemma_filter_all(o, pw);
    assert(d + b + Seq::<IssueView>::empty() =~= d + b);
    assert(Seq::<IssueView>::empty() + Seq::<IssueView>::empty() + o =~= o);
    assert(with_severity(all_issues(v), Severity::Error) == (d + b + o).filter(pe));
    assert(with_severity(all_issues(v), Severity::Warning) == (d + b + o).filter(pw));
}

/// Reports each note whose identifier was already seen, naming the first file with it.
pub fn find_duplicate_ids(notes: &[(String, &Note)]) -> (r: Vec<ValidationIssue>)
    ensures
        issues_view(r@) == duplicate_issues(notes@),
{
    let mut issues: Vec<ValidationIssue> = Vec::new();
    let mut i: usize = 0;
    assert(notes@.take(0) =~= Seq::<(String, &Note)>::empty());
    assert(issues_view(issues@) =~= Seq::<IssueView>::empty());
    while i < notes.len()
        invariant
            i <= notes@.len(),
            issues_view(issues@) == duplicate_issues(notes@.take(i as int)),
        decreases notes@.len() - i,
    {
        let ghost p = notes@.take(i as int);
        let ghost next = notes@.take(i + 1);
        assert(next.drop_last() =~= p);
        let id = *notes[i].1.id();
        let mut j: usize = 0;
        let mut found = false;
        while j < i && !found
            invariant
                j <= i < notes@.len(),
                p == notes@.take(i as int),
                id == notes@[i as int].1.spec_id(),
                forall|k: int| 0 <= k < j ==> (k < j - 1 || !found) ==> ids_of(p)[k] != id,
                found ==> j >= 1 && ids_of(p)[j - 1] == id,
            decreases i - j + (if found { 0int } else { 1int }),
        {
            if *notes[j].1.id() == id {
                found = true;
            }
            j = j + 1;
        }
        proof {
            if found {
                let k0 = (j - 1) as int;
                assert(ids_of(p)[k0] == id);
                assert(ids_of(p).contains(id));
                let f = first_index(ids_of(p), id);
                assert(0 <= f < ids_of(p).len() && ids_of(p)[f] == id && forall|k: int|
                    0 <= k < f ==> ids_of(p)[k] != id);
                assert(f == k0) by {
                    if f < k0 {
                        assert(ids_of(p)[f] != id);
                    }
                    if f > k0 {
                        assert(ids_of(p)[k0] != id);
                    }
                }
            } else {
                assert forall|k: int| 0 <= k < ids_of(p).len() implies ids_of(p)[k] != id by {}
            }
        }
        if found {
            let first = j - 1;
            let ghost before = issues@;
            let issue = ValidationIssue::duplicate_id(notes[i].0.as_str(), id, notes[first].0.as_str());
            issues.push(issue);
            assert(issues_view(issues@) =~= issues_view(before).push(
                (notes@[i as int].0@, IssueKindView::DuplicateId(id, p[first as int].0@)),
            ));
        }
        i = i + 1;
    }
    assert(notes@.take(notes@.len() as int) =~= notes@);
    issues
}

pub(crate) fn contains_id(known: &[NoteId], id: NoteId) -> (r: bool)
    ensures
        r == known@.contains(id),
{
    let mut k: usize = 0;
    while k < known.len()
        invariant
            k <= known@.len(),
            forall|m: int| 0 <= m < k ==> known@[m] != id,
        decreases known@.len() - k,
    {
        if known[k] == id {
            assert(known@[k as int] == id);
            return true;
        }
        k = k + 1;
    }
    false
}

/// Reports each link whose target is not among the known identifiers.
pub fn find_broken_links(notes: &[(String, &Note)], known_ids: &[NoteId]) -> (r: Vec<ValidationIssue>)
    ensures
        issues_view(r@) == broken_link_issues(notes@, known_ids@),
{
    let mut issues: Vec<ValidationIssue> = Vec::new();
    let mut i: usize = 0;
    assert(notes@.take(0) =~= Seq::<(String, &Note)>::empty());
    assert(issues_view(issues@) =~= Seq::<IssueView>::empty());
    while i < notes.len()
        invariant
            i <= notes@.len(),
            issues_view(issues@) == broken_link_issues(notes@.take(i as int), known_ids@),
        decreases notes@.len() - i,
    {
        let ghost next = notes@.take(i + 1);
        assert(next.drop_last() =~= notes@.take(i as int));
        let links = notes[i].1.links();
        let path = notes[i].0.as_str();
        let ghost base = issues_view(issues@);
        let mut j: usize = 0;
        assert(links@.take(0) =~= Seq::<Link>::empty());
        assert(base + link_issues(path@, links@.take(0), known_ids@) =~= base);
        while j < links.len()
            invariant
                j <= links@.len(),
                issues_view(issues@) == base + link_issues(path@, links@.take(j as int), known_ids@),
            decreases links@.len() - j,
        {
            let ghost lp = links@.take(j + 1);
            assert(lp.drop_last() =~= links@.take(j as int));
            let target = *links[j].target();
            if !contains_id(known_ids, target) {
                let ghost before = issues@;
                issues.push(ValidationIssue::broken_link(path, target));
                assert(issues_view(issues@) =~= issues_view(before).push(
                    (path@, IssueKindView::BrokenLink(target)),
                ));
            }
            j = j + 1;
        }
        assert(links@.take(links@.len() as int) =~= links@);
        i = i + 1;
    }
    assert(notes@.take(notes@.len() as int) =~= notes@);
    issues
}

/// Reports each note without topics (a warning).
pub fn find_orphaned_notes(notes: &[(String, &Note)]) -> (r: Vec<ValidationIssue>)
    ensures
        issues_view(r@) == orphan_issues(notes@),
{
    let mut issues: Vec<ValidationIssue> = Vec::new();
    let mut i: usize = 0;
    assert(notes@.take(0) =~= Seq::<(String, &Note)>::empty());
    assert(issues_view(issues@) =~= Seq::<IssueView>::empty());
    while i < notes.len()
        invariant
            i <= notes@.len(),
            issues_view(issues@) == orphan_issues(notes@.take(i as int)),
        decreases notes@.len() - i,
    {
        let ghost next = notes@.take(i + 1);
        assert(next.drop_last() =~= notes@.take(i as int));
        if notes[i].1.topics().len() == 0 {
            let ghost before = issues@;
            issues.push(ValidationIssue::orphaned(notes[i].0.as_str()));
            assert(issues_view(issues@) =~= issues_view(before).push(
                (notes@[i as int].0@, IssueKindView::Orphaned),
            ));
        }
        i = i + 1;
    }
    assert(notes@.take(notes@.len() as int) =~= notes@);
    issues
}

/// Runs all checks; the known identifiers are those of the notes given.
pub fn validate_notes(notes: &[(String, &Note)]) -> (r: ValidationSummary)
    ensures
        r.spec_issues() == all_issues(notes@),
{
    let mut known: Vec<NoteId> = Vec::new();
    let mut i: usize = 0;
    while i < notes.len()
        invariant
            i <= notes@.len(),
            known@ == ids_of(notes@).take(i as int),
        decreases notes@.len() - i,
    {
        known.push(*notes[i].1.id());
        i = i + 1;
        assert(known@ =~= ids_of(notes@).take(i as int));
    }
    assert(ids_of(notes@).take(notes@.len() as int) =~= ids_of(notes@));
    let mut summary = ValidationSummary::new();
    let dups = find_duplicate_ids(notes);
    let broken = find_broken_links(notes, known.as_slice());
    let orphans = find_orphaned_notes(notes);
    let groups = [dups, broken, orphans];
    let ghost targets = seq![
        duplicate_issues(notes@),
        broken_link_issues(notes@, ids_of(notes@)),
        orphan_issues(notes@),
    ];
    assert(summary.spec_issues() =~= Seq::<IssueView>::empty());
    for g in 0..3usize
        invariant
            targets == seq![
                duplicate_issues(notes@),
                broken_link_issues(notes@, ids_of(notes@)),
                orphan_issues(notes@),
            ],
            issues_view(groups@[0]@) == targets[0],
            issues_view(groups@[1]@) == targets[1],
            issues_view(groups@[2]@) == targets[2],
            summary.spec_issues() == (if g == 0 {
                Seq::<IssueView>::empty()
            } else if g == 1 {
                targets[0]
            } else if g == 2 {
                targets[0] + targets[1]
            } else {
                targets[0] + targets[1] + targets[2]
            }),
    {
        let group = &groups[g];
        let ghost start = summary.spec_issues();
        let mut k: usize = 0;
        while k < group.len()
            invariant
                k <= group@.len(),
                summary.spec_issues() == start + issues_view(group@).take(k as int),
            decreases group@.len() - k,
        {
            summary.add(group[k].clone());
            k = k + 1;
            assert(issues_view(group@).take(k as int) =~= issues_view(group@).take(k - 1).push(
                issues_view(group@)[k - 1],
            ));
        }
        assert(issues_view(group@).take(group@.len() as int) =~= issues_view(group@));
    }
    summary
}

} // verus!
