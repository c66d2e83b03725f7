//! The check command: validating the loaded notes, repairing broken links
//! on request, and reporting what was found.

use vstd::prelude::*;
use vstd::string::StringExecFns;
use crate::cli::args::CheckArgs;
use crate::cli::links::{link_view, links_view};
use crate::domain::link::Link;
use crate::domain::note::{same_but_links, strings_view, Note};
use crate::domain::note_id::NoteId;
use crate::domain::validate::{
    all_issues, broken_link_issues, contains_id, duplicate_issues, find_duplicate_ids,
    find_orphaned_notes, first_index, ids_of, link_issues, orphan_issues, validate_notes,
    IssueView,
};
use crate::domain::validation::{
    issue_text, issue_view, issues_view, severity_of, severity_text, with_severity, Severity,
    ValidationIssue, ValidationSummary,
};
use crate::text::{decimal, usize_to_string};

verus! {

/// A link as plain values: target, relationship types, context.
pub type LinkView = (NoteId, Seq<Seq<char>>, Option<Seq<char>>);

/// The issues in the order they are reported: errors, then warnings.
pub open spec fn report_order(issues: Seq<IssueView>) -> Seq<IssueView> {
    with_severity(issues, Severity::Error) + with_severity(issues, Severity::Warning)
}

/// One report line: `<severity>: <path>: <message>`.
pub open spec fn issue_line(i: IssueView) -> Seq<char> {
    severity_text(severity_of(i.1)) + ": "@ + issue_text(i)
}

/// The closing line with the counts.
pub open spec fn totals_line(issues: Seq<IssueView>) -> Seq<char> {
    "\nFound "@ + decimal(issues.len()) + " issue(s): "@ + decimal(
        with_severity(issues, Severity::Error).len(),
    ) + " error(s), "@ + decimal(with_severity(issues, Severity::Warning).len())
        + " warning(s)"@
}

/// What the check prints for a non-empty list of issues.
pub open spec fn report_lines(issues: Seq<IssueView>) -> Seq<Seq<char>> {
    let ordered = report_order(issues);
    Seq::new(ordered.len(), |k: int| issue_line(ordered[k])).push(totals_line(issues))
}

/// Whether a link points at a note among `known`.
pub open spec fn to_known(known: Seq<NoteId>) -> spec_fn(LinkView) -> bool {
    |l: LinkView| known.contains(l.0)
}

/// Whether some link of `links` points at a note outside `known`.
pub open spec fn has_unknown_target(links: Seq<LinkView>, known: Seq<NoteId>) -> bool {
    exists|j: int| 0 <= j < links.len() && !known.contains(#[trigger] links[j].0)
}

/// The positions, in order, of the notes of `v` that link to a note
/// outside `known`.
pub open spec fn notes_to_repair(v: Seq<(String, &Note)>, known: Seq<NoteId>) -> Seq<int>
    decreases v.len(),
{
    if v.len() == 0 {
        Seq::empty()
    } else {
        let rest = notes_to_repair(v.drop_last(), known);
        if has_unknown_target(links_view(v.last().1.spec_links()), known) {
            rest.push(v.len() - 1)
        } else {
            rest
        }
    }
}

/// `n` is `orig` without its links to notes outside `known`.
pub open spec fn repaired(n: &Note, orig: &Note, known: Seq<NoteId>) -> bool {
    &&& same_but_links(n, orig)
    &&& links_view(n.spec_links()) == links_view(orig.spec_links()).filter(to_known(known))
}

/// `r` holds, in order, one entry per note of `v` that links to a note
/// outside `v`: its path and the note without those links.
pub open spec fn repairs_of(r: Seq<(String, Note)>, v: Seq<(String, &Note)>) -> bool {
    let pos = notes_to_repair(v, ids_of(v));
    &&& r.len() == pos.len()
    &&& forall|k: int|
        0 <= k < r.len() ==> {
            let i = #[trigger] pos[k];
            &&& 0 <= i < v.len()
            &&& r[k].0@ == v[i].0@
            &&& repaired(&r[k].1, v[i].1, ids_of(v))
        }
}

/// What the checks report: with `fix`, broken links have been repaired
/// and only duplicate identifiers and orphans remain to be found.
pub open spec fn checked_issues(v: Seq<(String, &Note)>, fix: bool) -> Seq<IssueView> {
    if fix {
        duplicate_issues(v) + orphan_issues(v)
    } else {
        all_issues(v)
    }
}

/// The links of `links` that point at a note among `known`, in order, and
/// whether any link was dropped.
fn keep_known_links(links: &[Link], known: &[NoteId]) -> (r: (Vec<Link>, bool))
    ensures
        links_view(r.0@) == links_view(links@).filter(to_known(known@)),
        r.1 == has_unknown_target(links_view(links@), known@),
{
    let ghost lv = links_view(links@);
    let ghost p = to_known(known@);
    let mut out: Vec<Link> = Vec::new();
    let mut dropped = false;
    let mut j: usize = 0;
    assert(lv.take(0) =~= Seq::<LinkView>::empty());
    assert(links_view(out@) =~= lv.take(0).filter(p)) by {
        reveal(Seq::filter);
    }
    while j < links.len()
        invariant
            j <= links@.len(),
            lv == links_view(links@),
            p == to_known(known@),
            links_view(out@) == lv.take(j as int).filter(p),
            dropped == (exists|m: int| 0 <= m < j && !known@.contains(#[trigger] lv[m].0)),
        decreases links@.len() - j,
    {
        let ghost before = out@;
        assert(lv.take(j + 1) =~= lv.take(j as int).push(lv[j as int]));
        proof {
            lv.take(j as int).lemma_filter_push(lv[j as int], p);
        }
        let target = *links[j].target();
        if contains_id(known, target) {
            out.push(links[j].clone());
            assert(links_view(out@) =~= links_view(before).push(link_view(links@[j as int])));
        } else {
            dropped = true;
            assert(!known@.contains(lv[j as int].0));
        }
        j = j + 1;
    }
    assert(lv.take(links@.len() as int) =~= lv);
    (out, dropped)
}

/// The repairs that `check --fix` writes: for each note that links to a
/// note not among `notes`, in order, its path and the note without those
/// links.
pub fn broken_link_repairs(notes: &[(String, &Note)]) -> (r: Vec<(String, Note)>)
    ensures
        repairs_of(r@, notes@),
{
    let ghost known_ids = ids_of(notes@);
    let mut known: Vec<NoteId> = Vec::new();
    let mut i: usize = 0;
    while i < notes.len()
        invariant
            i <= notes@.len(),
            known_ids == ids_of(notes@),
            known@ == known_ids.take(i as int),
        decreases notes@.len() - i,
    {
        known.push(*notes[i].1.id());
        i = i + 1;
        assert(known@ =~= known_ids.take(i as int));
    }
    assert(known_ids.take(notes@.len() as int) =~= known_ids);
    let mut out: Vec<(String, Note)> = Vec::new();
    let mut i: usize = 0;
    assert(notes@.take(0) =~= Seq::<(String, &Note)>::empty());
    while i < notes.len()
        invariant
            i <= notes@.len(),
            known@ == known_ids,
            known_ids == ids_of(notes@),
            out@.len() == notes_to_repair(notes@.take(i as int), known_ids).len(),
            forall|k: int|
                0 <= k < out@.len() ==> {
                    let m = #[trigger] notes_to_repair(notes@.take(i as int), known_ids)[k];
                    &&& 0 <= m < i
                    &&& out@[k].0@ == notes@[m].0@
                    &&& repaired(&out@[k].1, notes@[m].1, known_ids)
                },
        decreases notes@.len() - i,
    {
        let ghost prev = notes_to_repair(notes@.take(i as int), known_ids);
        let ghost next = notes@.take(i + 1);
        assert(next.drop_last() =~= notes@.take(i as int));
        assert(next.last() == notes@[i as int]);
        let note = notes[i].1;
        let (kept, dropped) = keep_known_links(note.links(), known.as_slice());
        if dropped {
            let fixed = note.with_links(kept);
            out.push((notes[i].0.clone(), fixed));
            assert(notes_to_repair(next, known_ids) == prev.push(i as int));
        } else {
            assert(notes_to_repair(next, known_ids) == prev);
        }
        i = i + 1;
    }
    assert(notes@.take(notes@.len() as int) =~= notes@);
    out
}

/// Appends `issues` to the summary.
fn add_all(summary: &mut ValidationSummary, issues: &Vec<ValidationIssue>)
    ensures
        final(summary).spec_issues() == old(summary).spec_issues() + issues_view(issues@),
{
    let ghost start = summary.spec_issues();
    let mut k: usize = 0;
    while k < issues.len()
        invariant
            k <= issues@.len(),
            summary.spec_issues() == start + issues_view(issues@).take(k as int),
        decreases issues@.len() - k,
    {
        summary.add(issues[k].clone());
        k = k + 1;
        assert(issues_view(issues@).take(k as int) =~= issues_view(issues@).take(k - 1).push(
            issues_view(issues@)[k - 1],
        ));
    }
    assert(issues_view(issues@).take(issues@.len() as int) =~= issues_view(issues@));
}

/// Some position of `ids` holds `id` with none before it.
proof fn lemma_first_occurrence(ids: Seq<NoteId>, id: NoteId, j: int)
    requires
        0 <= j < ids.len(),
        ids[j] == id,
    ensures
        exists|m: int| 0 <= m < ids.len() && ids[m] == id && forall|k: int| 0 <= k < m ==> ids[k] != id,
    decreases j,
{
    if exists|k: int| 0 <= k < j && ids[k] == id {
        let k = choose|k: int| 0 <= k < j && ids[k] == id;
        lemma_first_occurrence(ids, id, k);
    } else {
        assert(forall|k: int| 0 <= k < j ==> ids[k] != id);
    }
}

/// Collections with the same paths and identifiers, position by position,
/// have the same identifiers and the same duplicate issues.
proof fn lemma_same_duplicates(a: Seq<(String, &Note)>, b: Seq<(String, &Note)>)
    requires
        a.len() == b.len(),
        forall|i: int| 0 <= i < a.len() ==> a[i].0@ == b[i].0@ && a[i].1.spec_id() == b[i].1.spec_id(),
    ensures
        ids_of(a) == ids_of(b),
        duplicate_issues(a) == duplicate_issues(b),
    decreases a.len(),
{
    assert(ids_of(a) =~= ids_of(b));
    if a.len() > 0 {
        let pa = a.drop_last();
        let pb = b.drop_last();
        lemma_same_duplicates(pa, pb);
        let id = a.last().1.spec_id();
        if ids_of(pa).contains(id) {
            let j = choose|j: int| 0 <= j < ids_of(pa).len() && ids_of(pa)[j] == id;
            lemma_first_occurrence(ids_of(pa), id, j);
            let f = first_index(ids_of(pa), id);
            assert(0 <= f < pa.len());
            assert(pa[f].0@ == pb[f].0@);
        }
    }
}

/// Collections with the same paths and topics, position by position, have
/// the same orphan issues.
proof fn lemma_same_orphans(a: Seq<(String, &Note)>, b: Seq<(String, &Note)>)
    requires
        a.len() == b.len(),
        forall|i: int|
            0 <= i < a.len() ==> a[i].0@ == b[i].0@ && a[i].1.spec_topics() == b[i].1.spec_topics(),
    ensures
        orphan_issues(a) == orphan_issues(b),
    decreases a.len(),
{
    if a.len() > 0 {
        lemma_same_orphans(a.drop_last(), b.drop_last());
    }
}

/// Links that all point among `known` give no issue.
proof fn lemma_known_links_no_issue(path: Seq<char>, links: Seq<Link>, known: Seq<NoteId>)
    requires
        forall|j: int| 0 <= j < links.len() ==> known.contains(#[trigger] links[j].spec_target()),
    ensures
        link_issues(path, links, known) == Seq::<IssueView>::empty(),
    decreases links.len(),
{
    if links.len() > 0 {
        lemma_known_links_no_issue(path, links.drop_last(), known);
    }
}

/// The links of a repaired note all point among `known`.
proof fn lemma_repaired_links_known(n: &Note, orig: &Note, known: Seq<NoteId>)
    requires
        repaired(n, orig, known),
    ensures
        forall|j: int|
            0 <= j < n.spec_links().len() ==> known.contains(#[trigger] n.spec_links()[j].spec_target()),
{
    let lv = links_view(orig.spec_links());
    assert forall|j: int| 0 <= j < n.spec_links().len() implies known.contains(
        #[trigger] n.spec_links()[j].spec_target(),
    ) by {
        assert(links_view(n.spec_links())[j] == link_view(n.spec_links()[j]));
        lv.lemma_filter_pred(to_known(known), j);
    }
}

/// A collection whose notes all link among `known` has no broken link.
proof fn lemma_no_broken_links(v: Seq<(String, &Note)>, known: Seq<NoteId>)
    requires
        forall|i: int, j: int|
            0 <= i < v.len() && 0 <= j < v[i].1.spec_links().len() ==> known.contains(
                #[trigger] v[i].1.spec_links()[j].spec_target(),
            ),
    ensures
        broken_link_issues(v, known) == Seq::<IssueView>::empty(),
    decreases v.len(),
{
    if v.len() > 0 {
        let last = v.len() - 1;
        assert forall|j: int| 0 <= j < v.last().1.spec_links().len() implies known.contains(
            #[trigger] v.last().1.spec_links()[j].spec_target(),
        ) by {
            assert(v[last].1.spec_links()[j].spec_target() == v.last().1.spec_links()[j].spec_target());
        }
        lemma_known_links_no_issue(v.last().0@, v.last().1.spec_links(), known);
        assert forall|i: int, j: int|
            0 <= i < v.drop_last().len() && 0 <= j < v.drop_last()[i].1.spec_links().len() implies known.contains(
            #[trigger] v.drop_last()[i].1.spec_links()[j].spec_target(),
        ) by {
            assert(v.drop_last()[i] == v[i]);
        }
        lemma_no_broken_links(v.drop_last(), known);
    }
}

/// Law of `check --fix`: once every link to a note outside the collection
/// has been dropped, checking the repaired collection finds no broken link,
/// and exactly the duplicate identifiers and orphans found before.
pub proof fn lemma_repair_leaves_no_broken_link(before: Seq<(String, &Note)>, after: Seq<(String, &Note)>)
    requires
        after.len() == before.len(),
        forall|i: int|
            0 <= i < before.len() ==> after[i].0@ == before[i].0@ && repaired(
                #[trigger] after[i].1,
                before[i].1,
                ids_of(before),
            ),
    ensures
        broken_link_issues(after, ids_of(after)) == Seq::<IssueView>::empty(),
        all_issues(after) == checked_issues(before, true),
{
    assert forall|i: int| 0 <= i < after.len() implies after[i].0@ == before[i].0@ && after[i].1.spec_id()
        == before[i].1.spec_id() && after[i].1.spec_topics() == before[i].1.spec_topics() by {
        assert(repaired(after[i].1, before[i].1, ids_of(before)));
    }
    lemma_same_duplicates(after, before);
    lemma_same_orphans(after, before);
    assert forall|i: int, j: int|
        0 <= i < after.len() && 0 <= j < after[i].1.spec_links().len() implies ids_of(before).contains(
        #[trigger] after[i].1.spec_links()[j].spec_target(),
    ) by {
        lemma_repaired_links_known(after[i].1, before[i].1, ids_of(before));
    }
    lemma_no_broken_links(after, ids_of(before));
    assert(all_issues(after) =~= duplicate_issues(before) + orphan_issues(before));
}

/// What the check command prints, the notes it rewrites, and whether it
/// fails.
#[derive(Debug)]
pub struct CheckReport {
    /// Lines for standard output.
    pub stdout: Vec<String>,
    /// Notes to write back (with `--fix`): path and repaired note.
    pub repaired: Vec<(String, Note)>,
    /// True when an error was found (the command then exits with failure).
    pub failed: bool,
}

/// The check over `files_found` note files, of which `notes` were read and
/// `parse_issues` could not be.  With `--fix`, links to notes that are not
/// among those read are dropped from the notes that hold them (these notes
/// come back to be written), so that no broken link remains.  The issues of
/// the read notes, then the read failures, are reported errors first; the
/// check fails only on errors.
pub fn handle_check(
    args: &CheckArgs,
    files_found: usize,
    notes: &[(String, &Note)],
    parse_issues: Vec<ValidationIssue>,
) -> (r: CheckReport)
    ensures
        args.fix ==> repairs_of(r.repaired@, notes@),
        !args.fix ==> r.repaired@.len() == 0,
        files_found == 0 ==> strings_view(r.stdout@) == seq!["No notes found."@] && !r.failed,
        files_found > 0 ==> {
            let issues = checked_issues(notes@, args.fix) + issues_view(parse_issues@);
            &&& issues.len() == 0 ==> strings_view(r.stdout@) == seq!["All notes OK."@]
            &&& issues.len() > 0 ==> strings_view(r.stdout@) == report_lines(issues)
            &&& r.failed == (with_severity(issues, Severity::Error).len() > 0)
        },
{
    let repaired = if args.fix {
        broken_link_repairs(notes)
    } else {
        Vec::new()
    };
    let mut stdout: Vec<String> = Vec::new();
    if files_found == 0 {
        stdout.push(String::from_str("No notes found."));
        assert(strings_view(stdout@) =~= seq!["No notes found."@]);
        return CheckReport { stdout, repaired, failed: false };
    }
    let mut summary = if args.fix {
        let mut s = ValidationSummary::new();
        assert(s.spec_issues() =~= Seq::<IssueView>::empty());
        add_all(&mut s, &find_duplicate_ids(notes));
        add_all(&mut s, &find_orphaned_notes(notes));
        assert(s.spec_issues() =~= duplicate_issues(notes@) + orphan_issues(notes@));
        s
    } else {
        validate_notes(notes)
    };
    assert(summary.spec_issues() == checked_issues(notes@, args.fix));
    let ghost base = summary.spec_issues();
    let ghost pv = issues_view(parse_issues@);
    let mut j: usize = 0;
    while j < parse_issues.len()
        invariant
            j <= parse_issues@.len(),
            pv == issues_view(parse_issues@),
            summary.spec_issues() == base + pv.take(j as int),
        decreases parse_issues@.len() - j,
    {
        summary.add(parse_issues[j].clone());
        j = j + 1;
        assert(pv.take(j as int) =~= pv.take(j - 1).push(pv[j - 1]));
    }
    let n = parse_issues.len();
    assert(pv.take(n as int) =~= pv);
    let ghost issues = summary.spec_issues();
    if summary.is_ok() {
        stdout.push(String::from_str("All notes OK."));
        assert(strings_view(stdout@) =~= seq!["All notes OK."@]);
        return CheckReport { stdout, repaired, failed: false };
    }
    let ordered = summary.issues_by_severity();
    let ghost ov = issues_view(ordered@);
    let mut i: usize = 0;
    while i < ordered.len()
        invariant
            i <= ordered@.len(),
            ov == issues_view(ordered@),
            ov == report_order(issues),
            strings_view(stdout@) == Seq::new(i as nat, |k: int| issue_line(ov[k])),
        decreases ordered@.len() - i,
    {
        let issue = &ordered[i];
        let mut line = issue.severity().to_string();
        line.append(": ");
        let t = issue.to_string();
        line.append(t.as_str());
        assert(ov[i as int] == issue_view(*issue));
        assert(line@ == issue_line(ov[i as int]));
        let ghost before = stdout@;
        stdout.push(line);
        assert(strings_view(stdout@) =~= strings_view(before).push(line@));
        i = i + 1;
        assert(strings_view(stdout@) =~= Seq::new(i as nat, |k: int| issue_line(ov[k])));
    }
    let total = summary.total();
    let errors = summary.error_count();
    let warnings = summary.warning_count();
    let mut last = String::from_str("\nFound ");
    last.append(usize_to_string(total).as_str());
    last.append(" issue(s): ");
    last.append(usize_to_string(errors).as_str());
    last.append(" error(s), ");
    last.append(usize_to_string(warnings).as_str());
    last.append(" warning(s)");
    stdout.push(last);
    assert(strings_view(stdout@) =~= report_lines(issues));
    CheckReport { stdout, repaired, failed: errors > 0 }
}

} // verus!
