//! Validation issues found when checking a collection of notes.

use vstd::prelude::*;
use vstd::string::StringExecFns;
use crate::domain::note_id::NoteId;

verus! {

/// Severity of an issue; warnings order before errors.
#[derive(Debug, Clone, Copy, PartialEq, Eq, Structural, PartialOrd, Ord, Hash)]
pub enum Severity {
    Warning,
    Error,
}

/// `warning` or `error`.
pub open spec fn severity_text(s: Severity) -> Seq<char> {
    match s {
        Severity::Warning => "warning"@,
        Severity::Error => "error"@,
    }
}

impl Severity {
    /// `warning` or `error` (what `Display` shows).
    pub fn to_string(&self) -> (r: String)
        ensures
            r@ == severity_text(*self),
    {
        match self {
            Severity::Warning => String::from_str("warning"),
            Severity::Error => String::from_str("error"),
        }
    }
}

/// The kind of a validation issue.
#[derive(Debug)]
pub enum ValidationKind {
    /// The file could not be parsed.
    ParseError(String),
    /// Another file already has this identifier.
    DuplicateId { id: NoteId, first_path: String },
    /// A link names an identifier that no note has.
    BrokenLink { target_id: NoteId },
    /// The note has no topics.
    Orphaned,
}

/// The mathematical form of an issue kind.
pub enum IssueKindView {
    ParseError(Seq<char>),
    DuplicateId(NoteId, Seq<char>),
    BrokenLink(NoteId),
    Orphaned,
}

pub open spec fn kind_view(k: ValidationKind) -> IssueKindView {
    match k {
        ValidationKind::ParseError(m) => IssueKindView::ParseError(m@),
        ValidationKind::DuplicateId { id, first_path } => IssueKindView::DuplicateId(id, first_path@),
        ValidationKind::BrokenLink { target_id } => IssueKindView::BrokenLink(target_id),
        ValidationKind::Orphaned => IssueKindView::Orphaned,
    }
}

/// Orphaned notes are warnings; everything else is an error.
pub open spec fn severity_of(k: IssueKindView) -> Severity {
    match k {
        IssueKindView::Orphaned => Severity::Warning,
        _ => Severity::Error,
    }
}

impl ValidationKind {
    /// Returns the severity of this kind of issue.
    pub fn severity(&self) -> (r: Severity)
        ensures
            r == severity_of(kind_view(*self)),
    {
        match self {
            ValidationKind::ParseError(_) => Severity::Error,
            ValidationKind::DuplicateId { .. } => Severity::Error,
            ValidationKind::BrokenLink { .. } => Severity::Error,
            ValidationKind::Orphaned => Severity::Warning,
        }
    }
}

/// What `Display` shows for an issue kind.
pub open spec fn kind_text(k: IssueKindView) -> Seq<char> {
    match k {
        IssueKindView::ParseError(m) => "parse error: "@ + m,
        IssueKindView::DuplicateId(id, first) => "duplicate ID '"@ + id.spec_text().take(10)
            + "' (first seen in "@ + first + ")"@,
        IssueKindView::BrokenLink(id) => "broken link to '"@ + id.spec_text().take(10) + "'"@,
        IssueKindView::Orphaned => "orphaned note (no topics)"@,
    }
}

impl ValidationKind {
    /// The message for this kind of issue, naming identifiers by their prefix.
    pub fn to_string(&self) -> (r: String)
        ensures
            r@ == kind_text(kind_view(*self)),
    {
        match self {
            ValidationKind::ParseError(m) => {
                let mut s = String::from_str("parse error: ");
                s.append(m.as_str());
                s
            },
            ValidationKind::DuplicateId { id, first_path } => {
                let mut s = String::from_str("duplicate ID '");
                let p = id.prefix();
                s.append(p.as_str());
                s.append("' (first seen in ");
                s.append(first_path.as_str());
                s.append(")");
                s
            },
            ValidationKind::BrokenLink { target_id } => {
                let mut s = String::from_str("broken link to '");
                let p = target_id.prefix();
                s.append(p.as_str());
                s.append("'");
                s
            },
            ValidationKind::Orphaned => String::from_str("orphaned note (no topics)"),
        }
    }
}

impl Clone for ValidationKind {
    fn clone(&self) -> (r: ValidationKind)
        ensures
            kind_view(r) == kind_view(*self),
    {
        match self {
            ValidationKind::ParseError(m) => ValidationKind::ParseError(m.clone()),
            ValidationKind::DuplicateId { id, first_path } => ValidationKind::DuplicateId {
                id: *id,
                first_path: first_path.clone(),
            },
            ValidationKind::BrokenLink { target_id } => ValidationKind::BrokenLink {
                target_id: *target_id,
            },
            ValidationKind::Orphaned => ValidationKind::Orphaned,
        }
    }
}

/// A validation issue: the file it was found in, and what it is.
#[derive(Debug)]
pub struct ValidationIssue {
    pub path: String,
    pub kind: ValidationKind,
}

/// An issue as a path and a kind.
pub open spec fn issue_view(i: ValidationIssue) -> (Seq<char>, IssueKindView) {
    (i.path@, kind_view(i.kind))
}

pub open spec fn issues_view(v: Seq<ValidationIssue>) -> Seq<(Seq<char>, IssueKindView)> {
    v.map_values(|i: ValidationIssue| issue_view(i))
}

/// What `Display` shows for an issue: its path, a colon, and its message.
pub open spec fn issue_text(i: (Seq<char>, IssueKindView)) -> Seq<char> {
    i.0 + ": "@ + kind_text(i.1)
}

impl ValidationIssue {
    /// Creates an issue.
    pub fn new(path: &str, kind: ValidationKind) -> (r: ValidationIssue)
        ensures
            issue_view(r) == (path@, kind_view(kind)),
    {
        ValidationIssue { path: String::from_str(path), kind }
    }

    /// `<path>: <message>`, as the check command prints it.
    pub fn to_string(&self) -> (r: String)
        ensures
            r@ == issue_text(issue_view(*self)),
    {
        let mut s = String::new();
        s.append(self.path.as_str());
        s.append(": ");
        let k = self.kind.to_string();
        s.append(k.as_str());
        s
    }

    /// A parse error in `path`, with the parser's message.
    pub fn parse_error(path: &str, message: &str) -> (r: ValidationIssue)
        ensures
            issue_view(r) == (path@, IssueKindView::ParseError(message@)),
    {
        Self::new(path, ValidationKind::ParseError(String::from_str(message)))
    }

    /// `path` repeats `id`, first seen in `first_path`.
    pub fn duplicate_id(path: &str, id: NoteId, first_path: &str) -> (r: ValidationIssue)
        ensures
            issue_view(r) == (path@, IssueKindView::DuplicateId(id, first_path@)),
    {
        Self::new(path, ValidationKind::DuplicateId { id, first_path: String::from_str(first_path) })
    }

    /// `path` links to `target_id`, which no note has.
    pub fn broken_link(path: &str, target_id: NoteId) -> (r: ValidationIssue)
        ensures
            issue_view(r) == (path@, IssueKindView::BrokenLink(target_id)),
    {
        Self::new(path, ValidationKind::BrokenLink { target_id })
    }

    /// The note in `path` has no topics.
    pub fn orphaned(path: &str) -> (r: ValidationIssue)
        ensures
            issue_view(r) == (path@, IssueKindView::Orphaned),
    {
        Self::new(path, ValidationKind::Orphaned)
    }

    pub fn is_parse_error(&self) -> (r: bool)
        ensures
            r == (kind_view(self.kind) is ParseError),
    {
        match self.kind {
            ValidationKind::ParseError(_) => true,
            _ => false,
        }
    }

    pub fn is_duplicate_id(&self) -> (r: bool)
        ensures
            r == (kind_view(self.kind) is DuplicateId),
    {
        match self.kind {
            ValidationKind::DuplicateId { .. } => true,
            _ => false,
        }
    }

    pub fn is_broken_link(&self) -> (r: bool)
        ensures
            r == (kind_view(self.kind) is BrokenLink),
    {
        match self.kind {
            ValidationKind::BrokenLink { .. } => true,
            _ => false,
        }
    }

    pub fn is_orphaned(&self) -> (r: bool)
        ensures
            r == (kind_view(self.kind) is Orphaned),
    {
        match self.kind {
            ValidationKind::Orphaned => true,
            _ => false,
        }
    }

    /// Returns the severity of this issue.
    pub fn severity(&self) -> (r: Severity)
        ensures
            r == severity_of(kind_view(self.kind)),
    {
        self.kind.severity()
    }
}

impl Clone for ValidationIssue {
    fn clone(&self) -> (r: ValidationIssue)
        ensures
            issue_view(r) == issue_view(*self),
    {
        ValidationIssue { path: self.path.clone(), kind: self.kind.clone() }
    }
}

/// Issues of the given severity, in order.
pub open spec fn with_severity(v: Seq<(Seq<char>, IssueKindView)>, s: Severity) -> Seq<(Seq<char>, IssueKindView)> {
    v.filter(|i: (Seq<char>, IssueKindView)| severity_of(i.1) == s)
}

/// Summary of validation results.
#[derive(Debug)]
pub struct ValidationSummary {
    pub issues: Vec<ValidationIssue>,
}

impl ValidationSummary {
    pub open spec fn spec_issues(&self) -> Seq<(Seq<char>, IssueKindView)> {
        issues_view(self.issues@)
    }

    /// An empty summary.
    pub fn new() -> (r: ValidationSummary)
        ensures
            r.spec_issues().len() == 0,
    {
        ValidationSummary { issues: Vec::new() }
    }

    /// Adds an issue at the end.
    pub fn add(&mut self, issue: ValidationIssue)
        ensures
            final(self).spec_issues() == old(self).spec_issues().push(issue_view(issue)),
    {
        self.issues.push(issue);
        assert(issues_view(self.issues@) =~= issues_view(old(self).issues@).push(issue_view(issue)));
    }

    /// The number of issues.
    pub fn total(&self) -> (r: usize)
        ensures
            r == self.spec_issues().len(),
    {
        self.issues.len()
    }

    fn count_severity(&self, sev: Severity) -> (r: usize)
        ensures
            r == with_severity(self.spec_issues(), sev).len(),
    {
        let mut n: usize = 0;
        let mut i: usize = 0;
        let ghost all = self.spec_issues();
        assert(all.take(0) =~= Seq::<(Seq<char>, IssueKindView)>::empty());
        while i < self.issues.len()
            invariant
                i <= self.issues@.len(),
                all == self.spec_issues(),
                n == with_severity(all.take(i as int), sev).len(),
                n <= i,
            decreases self.issues@.len() - i,
        {
            let ghost next = all.take(i + 1);
            assert(next.drop_last() =~= all.take(i as int));
            assert(next.last() == issue_view(self.issues@[i as int]));
            proof {
                reveal_with_fuel(Seq::filter, 1);
            }
            if self.issues[i].severity() == sev {
                n = n + 1;
            }
            i = i + 1;
        }
        assert(all.take(self.issues@.len() as int) =~= all);
        n
    }

    /// The number of errors.
    pub fn error_count(&self) -> (r: usize)
        ensures
            r == with_severity(self.spec_issues(), Severity::Error).len(),
    {
        self.count_severity(Severity::Error)
    }

    /// The number of warnings.
    pub fn warning_count(&self) -> (r: usize)
        ensures
            r == with_severity(self.spec_issues(), Severity::Warning).len(),
    {
        self.count_severity(Severity::Warning)
    }

    /// True when there are no issues at all.
    pub fn is_ok(&self) -> (r: bool)
        ensures
            r == (self.spec_issues().len() == 0),
    {
        self.issues.len() == 0
    }

    /// True when there is at least one error.
    pub fn has_errors(&self) -> (r: bool)
        ensures
            r == (with_severity(self.spec_issues(), Severity::Error).len() > 0),
    {
        self.error_count() > 0
    }

    fn select(&self, which: u8) -> (r: Vec<ValidationIssue>)
        requires
            which < 6,
        ensures
            issues_view(r@) == self.spec_issues().filter(|i: (Seq<char>, IssueKindView)| selected(which, i.1)),
    {
        let mut out: Vec<ValidationIssue> = Vec::new();
        let mut i: usize = 0;
        let ghost all = self.spec_issues();
        let ghost f = |i: (Seq<char>, IssueKindView)| selected(which, i.1);
        assert(all.take(0) =~= Seq::<(Seq<char>, IssueKindView)>::empty());
        assert(issues_view(out@) =~= Seq::<(Seq<char>, IssueKindView)>::empty());
        while i < self.issues.len()
            invariant
                i <= self.issues@.len(),
                all == self.spec_issues(),
                which < 6,
                f == (|i: (Seq<char>, IssueKindView)| selected(which, i.1)),
                issues_view(out@) == all.take(i as int).filter(f),
            decreases self.issues@.len() - i,
        {
            let ghost next = all.take(i + 1);
            assert(next.drop_last() =~= all.take(i as int));
            assert(next.last() == issue_view(self.issues@[i as int]));
            proof {
                reveal_with_fuel(Seq::filter, 1);
            }
            let issue = &self.issues[i];
            let keep = match which {
                0 => issue.is_parse_error(),
                1 => issue.is_duplicate_id(),
                2 => issue.is_broken_link(),
                3 => issue.is_orphaned(),
                4 => issue.severity() == Severity::Error,
                _ => issue.severity() == Severity::Warning,
            };
            if keep {
                let ghost before = out@;
                out.push(issue.clone());
                assert(issues_view(out@) =~= issues_view(before).push(issue_view(*issue)));
            }
            i = i + 1;
        }
        assert(all.take(self.issues@.len() as int) =~= all);
        out
    }

    /// Issues grouped by severity, errors first, each group in the original order.
    pub fn issues_by_severity(&self) -> (r: Vec<ValidationIssue>)
        ensures
            issues_view(r@) == with_severity(self.spec_issues(), Severity::Error) + with_severity(
                self.spec_issues(),
                Severity::Warning,
            ),
    {
        let mut errors = self.select(4);
        let warnings = self.select(5);
        let ghost e = issues_view(errors@);
        let ghost w = issues_view(warnings@);
        let mut j: usize = 0;
        let ghost e0 = errors@;
        while j < warnings.len()
            invariant
                j <= warnings@.len(),
                issues_view(errors@) == e + w.take(j as int),
                w == issues_view(warnings@),
            decreases warnings@.len() - j,
        {
            let ghost before = errors@;
            errors.push(warnings[j].clone());
            j = j + 1;
            assert(issues_view(errors@) =~= issues_view(before).push(w[j - 1]));
            assert(w.take(j as int) =~= w.take(j - 1).push(w[j - 1]));
        }
        assert(w.take(warnings@.len() as int) =~= w);
        proof {
            assert((|i: (Seq<char>, IssueKindView)| selected(4, i.1)) =~= (|i: (Seq<char>, IssueKindView)| severity_of(i.1) == Severity::Error));
            assert((|i: (Seq<char>, IssueKindView)| selected(5, i.1)) =~= (|i: (Seq<char>, IssueKindView)| severity_of(i.1) == Severity::Warning));
        }
        errors
    }

    /// All parse errors, in order.
    pub fn parse_errors(&self) -> (r: Vec<ValidationIssue>)
        ensures
            issues_view(r@) == self.spec_issues().filter(|i: (Seq<char>, IssueKindView)| i.1 is ParseError),
    {
        let r = self.select(0);
        assert((|i: (Seq<char>, IssueKindView)| selected(0, i.1)) =~= (|i: (Seq<char>, IssueKindView)| i.1 is ParseError));
        assert(self.spec_issues().filter(|i: (Seq<char>, IssueKindView)| selected(0, i.1)) == self.spec_issues().filter(|i: (Seq<char>, IssueKindView)| i.1 is ParseError));
        r
    }

    /// All duplicate-identifier issues, in order.
    pub fn duplicate_ids(&self) -> (r: Vec<ValidationIssue>)
        ensures
            issues_view(r@) == self.spec_issues().filter(|i: (Seq<char>, IssueKindView)| i.1 is DuplicateId),
    {
        let r = self.select(1);
        assert((|i: (Seq<char>, IssueKindView)| selected(1, i.1)) =~= (|i: (Seq<char>, IssueKindView)| i.1 is DuplicateId));
        assert(self.spec_issues().filter(|i: (Seq<char>, IssueKindView)| selected(1, i.1)) == self.spec_issues().filter(|i: (Seq<char>, IssueKindView)| i.1 is DuplicateId));
        r
    }

    /// All broken-link issues, in order.
    pub fn broken_links(&self) -> (r: Vec<ValidationIssue>)
        ensures
            issues_view(r@) == self.spec_issues().filter(|i: (Seq<char>, IssueKindView)| i.1 is BrokenLink),
    {
        let r = self.select(2);
        assert((|i: (Seq<char>, IssueKindView)| selected(2, i.1)) =~= (|i: (Seq<char>, IssueKindView)| i.1 is BrokenLink));
        assert(self.spec_issues().filter(|i: (Seq<char>, IssueKindView)| selected(2, i.1)) == self.spec_issues().filter(|i: (Seq<char>, IssueKindView)| i.1 is BrokenLink));
        r
    }

    /// All orphaned-note warnings, in order.
    pub fn orphaned_notes(&self) -> (r: Vec<ValidationIssue>)
        ensures
            issues_view(r@) == self.spec_issues().filter(|i: (Seq<char>, IssueKindView)| i.1 is Orphaned),
    {
        let r = self.select(3);
        assert((|i: (Seq<char>, IssueKindView)| selected(3, i.1)) =~= (|i: (Seq<char>, IssueKindView)| i.1 is Orphaned));
        assert(self.spec_issues().filter(|i: (Seq<char>, IssueKindView)| selected(3, i.1)) == self.spec_issues().filter(|i: (Seq<char>, IssueKindView)| i.1 is Orphaned));
        r
    }
}

/// Which issues a selection keeps: by kind (0 to 3) or by severity (4 errors, 5 warnings).
pub open spec fn selected(which: u8, k: IssueKindView) -> bool {
    if which == 0 {
        k is ParseError
    } else if which == 1 {
        k is DuplicateId
    } else if which == 2 {
        k is BrokenLink
    } else if which == 3 {
        k is Orphaned
    } else if which == 4 {
        severity_of(k) == Severity::Error
    } else {
        severity_of(k) == Severity::Warning
    }
}

} // verus!
