//! Relationship types and links between notes.

use vstd::prelude::*;
use vstd::string::StringExecFns;
use crate::domain::note_id::NoteId;
use crate::text::{
    chars_of, is_ascii_alnum, is_ascii_alnum_char, is_ws, lower_char, lower_chars, lower_seq, lowercase_of,
    string_from_chars, to_lowercase, trim, trim_chars, trim_end, trim_start,
};

verus! {

/// Characters a normalized relationship type may hold.
pub open spec fn is_rel_char(c: char) -> bool {
    is_ascii_alnum(c) || c == '-'
}

/// Whether `Rel::new` accepts the input.
pub open spec fn rel_accepts(s: Seq<char>) -> bool {
    &&& trim(s).len() > 0
    &&& forall|i: int| 0 <= i < trim(s).len() ==> is_rel_char(#[trigger] lower_char(trim(s)[i]))
}

/// The stored value of a relationship type built from `s`: trimmed and lowercased.
pub open spec fn rel_normal_form(s: Seq<char>) -> Seq<char> {
    lower_seq(trim(s))
}

/// The message of the error `Rel::new` returns on `s`.
pub open spec fn rel_error_message(s: Seq<char>) -> Seq<char> {
    if trim(s).len() == 0 {
        "relationship type cannot be empty"@
    } else {
        "invalid relationship type '"@ + lowercase_of(trim(s))
            + "': must contain only alphanumeric characters and hyphens"@
    }
}

proof fn lemma_lower_rel_char(c: char)
    requires
        is_rel_char(c),
    ensures
        is_rel_char(lower_char(c)),
        lower_char(lower_char(c)) == lower_char(c),
        !is_ws(c),
{
}

/// Normalization is idempotent: a relationship type's stored value is
/// accepted by `Rel::new` and normalizes to itself, so
/// `Rel::new(rel.as_str())` gives back the same relationship type.
pub proof fn lemma_rel_normal_form_idempotent(s: Seq<char>)
    requires
        rel_accepts(s),
    ensures
        rel_accepts(rel_normal_form(s)),
        rel_normal_form(rel_normal_form(s)) == rel_normal_form(s),
{
    let t = trim(s);
    let n = rel_normal_form(s);
    assert forall|i: int| 0 <= i < n.len() implies is_rel_char(#[trigger] n[i]) && !is_ws(n[i])
        && lower_char(n[i]) == n[i] by {
        assert(n[i] == lower_char(t[i]));
        assert(is_rel_char(lower_char(t[i])));
        lemma_lower_rel_char(lower_char(t[i]));
    }
    assert(trim_start(n) == n);
    assert(trim_end(n) == n);
    assert(trim(n) == n);
    assert(lower_seq(n) =~= n);
}

/// A relationship type for links between notes, such as `parent` or `see-also`.
///
/// Stored trimmed and lowercased; holds only ASCII letters, digits and hyphens
/// (no underscores, which distinguishes it from a tag).
#[derive(Debug, Hash)]
pub struct Rel(String);

/// Error returned when parsing an invalid relationship type.
#[derive(Debug, Clone)]
pub struct ParseRelError(String);

impl View for Rel {
    type V = Seq<char>;

    open spec fn view(&self) -> Seq<char> {
        self.spec_value()
    }
}

impl Rel {
    /// The stored, normalized value.
    pub closed spec fn spec_value(&self) -> Seq<char> {
        self.0@
    }

    /// Well-formedness: non-empty, only relationship-type characters.
    pub open spec fn wf(self) -> bool {
        &&& self@.len() > 0
        &&& forall|i: int| 0 <= i < self@.len() ==> is_rel_char(#[trigger] self@[i])
    }

    /// Creates a relationship type: trims, lowercases and checks the characters.
    pub fn new(s: &str) -> (res: Result<Rel, ParseRelError>)
        ensures
            res is Ok <==> rel_accepts(s@),
            res matches Ok(r) ==> r@ == rel_normal_form(s@) && r.wf(),
            res matches Err(e) ==> e@ == rel_error_message(s@),
    {
        let chars = chars_of(s);
        let trimmed = trim_chars(chars.as_slice());
        if trimmed.len() == 0 {
            return Err(ParseRelError(String::from_str("relationship type cannot be empty")));
        }
        let lowered = lower_chars(trimmed.as_slice());
        let mut i: usize = 0;
        while i < lowered.len()
            invariant
                i <= lowered@.len(),
                lowered@ == lower_seq(trimmed@),
                trimmed@ == trim(s@),
                forall|j: int| 0 <= j < i ==> is_rel_char(#[trigger] lowered@[j]),
            decreases lowered@.len() - i,
        {
            let c = lowered[i];
            if !(is_ascii_alnum_char(c) || c == '-') {
                assert(is_rel_char(lower_char(trim(s@)[i as int])) == false);
                let trimmed_text = string_from_chars(trimmed.as_slice());
                let lower_text = to_lowercase(trimmed_text.as_str());
                let mut msg = String::from_str("invalid relationship type '");
                msg.append(lower_text.as_str());
                msg.append("': must contain only alphanumeric characters and hyphens");
                return Err(ParseRelError(msg));
            }
            i = i + 1;
        }
        assert forall|j: int| 0 <= j < trim(s@).len() implies is_rel_char(
            #[trigger] lower_char(trim(s@)[j]),
        ) by {
            assert(lowered@[j] == lower_char(trim(s@)[j]));
        }
        Ok(Rel(string_from_chars(lowered.as_slice())))
    }

    /// Returns the normalized relationship type.
    pub fn as_str(&self) -> (r: &str)
        ensures
            r@ == self@,
    {
        self.0.as_str()
    }

    /// The relationship type's text (what `Display` shows).
    pub fn to_string(&self) -> (r: String)
        ensures
            r@ == self@,
    {
        self.0.clone()
    }
}

impl PartialEq for Rel {
    fn eq(&self, other: &Rel) -> (r: bool) {
        self.0 == other.0
    }
}

impl Eq for Rel {}

impl vstd::std_specs::cmp::PartialEqSpecImpl for Rel {
    open spec fn obeys_eq_spec() -> bool {
        true
    }

    open spec fn eq_spec(&self, other: &Rel) -> bool {
        self@ == other@
    }
}

impl Clone for Rel {
    fn clone(&self) -> (r: Rel)
        ensures
            r@ == self@,
    {
        Rel(self.0.clone())
    }
}

impl View for ParseRelError {
    type V = Seq<char>;

    closed spec fn view(&self) -> Seq<char> {
        self.0@
    }
}

impl ParseRelError {
    /// The error message.
    pub fn to_string(&self) -> (r: String)
        ensures
            r@ == self@,
    {
        self.0.clone()
    }
}

/// Views of a sequence of relationship types.
pub open spec fn rels_view(v: Seq<Rel>) -> Seq<Seq<char>> {
    v.map_values(|r: Rel| r@)
}

/// `Link::new` on relationship texts: each is parsed in turn; the first
/// invalid one decides the error.
pub open spec fn rels_parse(rs: Seq<Seq<char>>) -> Result<Seq<Seq<char>>, Seq<char>>
    decreases rs.len(),
{
    if rs.len() == 0 {
        Ok(Seq::<Seq<char>>::empty())
    } else {
        match rels_parse(rs.drop_last()) {
            Ok(acc) => if rel_accepts(rs.last()) {
                Ok(acc.push(rel_normal_form(rs.last())))
            } else {
                Err(rel_error_message(rs.last()))
            },
            Err(m) => Err(m),
        }
    }
}

pub open spec fn empty_rels_message() -> Seq<char> {
    "link must have at least one relationship type"@
}

/// What `Link::new` makes of a list of relationship texts.
pub open spec fn link_rels_parse(rs: Seq<Seq<char>>) -> Result<Seq<Seq<char>>, Seq<char>> {
    if rs.len() == 0 {
        Err(empty_rels_message())
    } else {
        rels_parse(rs)
    }
}

pub open spec fn strs_view(v: Seq<&str>) -> Seq<Seq<char>> {
    v.map_values(|s: &str| s@)
}

/// A link from one note to another: the target's identifier, one or more
/// relationship types, and optional context text.
#[derive(Debug)]
pub struct Link {
    target: NoteId,
    rel: Vec<Rel>,
    context: Option<String>,
}

/// Error returned when constructing an invalid link.
#[derive(Debug, Clone)]
pub struct ParseLinkError(String);

impl Link {
    pub closed spec fn spec_target(&self) -> NoteId {
        self.target
    }

    pub closed spec fn spec_rels(&self) -> Seq<Seq<char>> {
        rels_view(self.rel@)
    }

    pub closed spec fn spec_context(&self) -> Option<Seq<char>> {
        match self.context {
            Some(c) => Some(c@),
            None => None,
        }
    }

    /// Links are equal when target and relationship types are (context is ignored).
    pub open spec fn same_link(&self, other: &Link) -> bool {
        self.spec_target() == other.spec_target() && self.spec_rels() == other.spec_rels()
    }

    fn parse_rels(rel: &Vec<&str>) -> (res: Result<Vec<Rel>, ParseLinkError>)
        ensures
            rels_parse(strs_view(rel@)) matches Ok(v) ==> (res matches Ok(r) && rels_view(r@) == v),
            rels_parse(strs_view(rel@)) matches Err(m) ==> (res matches Err(e) && e@ == m),
    {
        let mut rels: Vec<Rel> = Vec::new();
        let mut i: usize = 0;
        assert(strs_view(rel@).take(0) =~= Seq::<Seq<char>>::empty());
        assert(rels_view(rels@) =~= Seq::<Seq<char>>::empty());
        while i < rel.len()
            invariant
                i <= rel@.len(),
                rels_parse(strs_view(rel@).take(i as int)) == Ok::<Seq<Seq<char>>, Seq<char>>(
                    rels_view(rels@),
                ),
            decreases rel@.len() - i,
        {
            let ghost prev = strs_view(rel@).take(i as int);
            let ghost next = strs_view(rel@).take(i + 1);
            assert(next.drop_last() =~= prev);
            assert(next.last() == rel@[i as int]@);
            match Rel::new(rel[i]) {
                Ok(r) => {
                    let ghost before = rels@;
                    rels.push(r);
                    assert(rels_view(rels@) =~= rels_view(before).push(r@));
                },
                Err(e) => {
                    proof {
                        lemma_rels_err_propagates(strs_view(rel@), i + 1, e@);
                    }
                    return Err(ParseLinkError(e.to_string()));
                },
            }
            i = i + 1;
        }
        assert(strs_view(rel@).take(rel@.len() as int) =~= strs_view(rel@));
        Ok(rels)
    }

    /// Creates a link to `target` with the given relationship types (at least one).
    pub fn new(target: NoteId, rel: Vec<&str>) -> (res: Result<Link, ParseLinkError>)
        ensures
            res is Ok <==> link_rels_parse(strs_view(rel@)) is Ok,
            res matches Ok(l) ==> l.spec_target() == target && link_rels_parse(strs_view(rel@))
                == Ok::<Seq<Seq<char>>, Seq<char>>(l.spec_rels()) && l.spec_context() is None,
            res matches Err(e) ==> link_rels_parse(strs_view(rel@)) == Err::<
                Seq<Seq<char>>,
                Seq<char>,
            >(e@),
    {
        if rel.len() == 0 {
            return Err(
                ParseLinkError(String::from_str("link must have at least one relationship type")),
            );
        }
        match Self::parse_rels(&rel) {
            Ok(rels) => Ok(Link { target, rel: rels, context: None }),
            Err(e) => Err(e),
        }
    }

    /// Creates a link with context text.
    pub fn with_context(target: NoteId, rel: Vec<&str>, context: &str) -> (res: Result<
        Link,
        ParseLinkError,
    >)
        ensures
            res is Ok <==> link_rels_parse(strs_view(rel@)) is Ok,
            res matches Ok(l) ==> l.spec_target() == target && link_rels_parse(strs_view(rel@))
                == Ok::<Seq<Seq<char>>, Seq<char>>(l.spec_rels()) && l.spec_context() == Some(
                context@,
            ),
            res matches Err(e) ==> link_rels_parse(strs_view(rel@)) == Err::<
                Seq<Seq<char>>,
                Seq<char>,
            >(e@),
    {
        match Self::new(target, rel) {
            Ok(link) => {
                let mut link = link;
                link.context = Some(String::from_str(context));
                Ok(link)
            },
            Err(e) => Err(e),
        }
    }

    /// Builds a link from already-valid parts.
    pub fn from_parts(target: NoteId, rels: Vec<Rel>, context: Option<String>) -> (r: Link)
        ensures
            r.spec_target() == target,
            r.spec_rels() == rels_view(rels@),
            r.spec_context() == (match context {
                Some(c) => Some(c@),
                None => None::<Seq<char>>,
            }),
    {
        Link { target, rel: rels, context }
    }

    /// Returns the target note's identifier.
    pub fn target(&self) -> (r: &NoteId)
        ensures
            *r == self.spec_target(),
    {
        &self.target
    }

    /// Returns the relationship types.
    pub fn rel(&self) -> (r: &[Rel])
        ensures
            rels_view(r@) == self.spec_rels(),
    {
        self.rel.as_slice()
    }

    /// Returns the optional context text.
    pub fn context(&self) -> (r: Option<&str>)
        ensures
            match r {
                Some(c) => self.spec_context() == Some(c@),
                None => self.spec_context() is None,
            },
    {
        match &self.context {
            Some(c) => Some(c.as_str()),
            None => None,
        }
    }
}

/// The texts joined with `, ` between them.
pub open spec fn join_comma(v: Seq<Seq<char>>) -> Seq<char>
    decreases v.len(),
{
    if v.len() == 0 {
        Seq::empty()
    } else if v.len() == 1 {
        v[0]
    } else {
        join_comma(v.drop_last()) + ", "@ + v.last()
    }
}

impl Link {
    /// `<target prefix> [<rel>, <rel>, ...]` (what `Display` shows).
    pub fn to_string(&self) -> (r: String)
        ensures
            r@ == self.spec_target().spec_text().take(10) + " ["@ + join_comma(self.spec_rels())
                + "]"@,
    {
        let mut s = self.target.prefix();
        s.append(" [");
        let ghost start = s@;
        let ghost rv = self.spec_rels();
        let mut i: usize = 0;
        while i < self.rel.len()
            invariant
                i <= self.rel@.len(),
                rv == rels_view(self.rel@),
                s@ == start + join_comma(rv.take(i as int)),
            decreases self.rel@.len() - i,
        {
            if i > 0 {
                s.append(", ");
            }
            s.append(self.rel[i].as_str());
            proof {
                let t = rv.take(i + 1);
                assert(t.drop_last() =~= rv.take(i as int));
                assert(t.last() == rv[i as int]);
                if i == 0 {
                    assert(rv.take(0) =~= Seq::<Seq<char>>::empty());
                    assert(join_comma(t) == t[0]);
                }
            }
            i = i + 1;
        }
        assert(rv.take(self.rel@.len() as int) =~= rv);
        s.append("]");
        s
    }
}

proof fn lemma_rels_err_propagates(all: Seq<Seq<char>>, k: int, m: Seq<char>)
    requires
        0 <= k <= all.len(),
        rels_parse(all.take(k)) == Err::<Seq<Seq<char>>, Seq<char>>(m),
    ensures
        rels_parse(all) == Err::<Seq<Seq<char>>, Seq<char>>(m),
    decreases all.len() - k,
{
    if k == all.len() {
        assert(all.take(k) =~= all);
    } else {
        assert(all.take(k + 1).drop_last() =~= all.take(k));
        lemma_rels_err_propagates(all, k + 1, m);
    }
}

/// Equality of relationship-type lists, element by element.
pub fn rels_eq(a: &[Rel], b: &[Rel]) -> (r: bool)
    ensures
        r == (rels_view(a@) == rels_view(b@)),
{
    if a.len() != b.len() {
        return false;
    }
    let mut i: usize = 0;
    while i < a.len()
        invariant
            i <= a@.len() == b@.len(),
            forall|j: int| 0 <= j < i ==> a@[j]@ == b@[j]@,
        decreases a@.len() - i,
    {
        if a[i] != b[i] {
            assert(rels_view(a@)[i as int] != rels_view(b@)[i as int]);
            return false;
        }
        i = i + 1;
    }
    assert(rels_view(a@) =~= rels_view(b@));
    true
}

impl PartialEq for Link {
    fn eq(&self, other: &Link) -> (r: bool) {
        self.target == other.target && rels_eq(self.rel.as_slice(), other.rel.as_slice())
    }
}

impl Eq for Link {}

impl vstd::std_specs::cmp::PartialEqSpecImpl for Link {
    open spec fn obeys_eq_spec() -> bool {
        true
    }

    open spec fn eq_spec(&self, other: &Link) -> bool {
        self.same_link(other)
    }
}

/// A copy of a list of relationship types.
pub fn clone_rels(v: &[Rel]) -> (r: Vec<Rel>)
    ensures
        rels_view(r@) == rels_view(v@),
{
    let mut out: Vec<Rel> = Vec::new();
    let mut i: usize = 0;
    while i < v.len()
        invariant
            i <= v@.len(),
            out@.len() == i,
            forall|j: int| 0 <= j < i ==> (#[trigger] out@[j])@ == v@[j]@,
        decreases v@.len() - i,
    {
        out.push(v[i].clone());
        i = i + 1;
    }
    assert(rels_view(out@) =~= rels_view(v@));
    out
}

impl Clone for Link {
    fn clone(&self) -> (r: Link)
        ensures
            r.spec_target() == self.spec_target(),
            r.spec_rels() == self.spec_rels(),
            r.spec_context() == self.spec_context(),
    {
        Link { target: self.target, rel: clone_rels(self.rel.as_slice()), context: self.context.clone() }
    }
}

impl View for ParseLinkError {
    type V = Seq<char>;

    closed spec fn view(&self) -> Seq<char> {
        self.0@
    }
}

impl ParseLinkError {
    /// The error message.
    pub fn to_string(&self) -> (r: String)
        ensures
            r@ == self@,
    {
        self.0.clone()
    }
}

impl core::str::FromStr for Rel {
    type Err = ParseRelError;

    fn from_str(s: &str) -> (res: Result<Rel, ParseRelError>)
        ensures
            res is Ok <==> rel_accepts(s@),
            res matches Ok(r) ==> r@ == rel_normal_form(s@) && r.wf(),
            res matches Err(e) ==> e@ == rel_error_message(s@),
    {
        Rel::new(s)
    }
}

} // verus!
