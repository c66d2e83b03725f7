//! Case-insensitive tag type for categorizing notes.

use vstd::prelude::*;
use vstd::string::StringExecFns;
use crate::text::{
    chars_of, is_ascii_alnum, is_ascii_alnum_char, is_ascii_upper, is_ws, trim_end, trim_start, lower_char, lower_chars, lower_seq, lowercase_of,
    string_from_chars, to_lowercase, trim, trim_chars,
};

verus! {

/// Characters a normalized tag may hold.
pub open spec fn is_tag_char(c: char) -> bool {
    is_ascii_alnum(c) || c == '-' || c == '_'
}

/// Whether `Tag::new` accepts the input.
pub open spec fn tag_accepts(s: Seq<char>) -> bool {
    &&& trim(s).len() > 0
    &&& forall|i: int| 0 <= i < trim(s).len() ==> is_tag_char(#[trigger] lower_char(trim(s)[i]))
}

/// The stored (normalized) value of a tag built from `s`: trimmed and lowercased.
pub open spec fn tag_normal_form(s: Seq<char>) -> Seq<char> {
    lower_seq(trim(s))
}

/// The message of the error `Tag::new` returns on `s`.
pub open spec fn tag_error_message(s: Seq<char>) -> Seq<char> {
    if trim(s).len() == 0 {
        "tag cannot be empty"@
    } else {
        "invalid tag '"@ + lowercase_of(trim(s))
            + "': tags must contain only alphanumeric characters, hyphens, and underscores"@
    }
}

proof fn lemma_lower_tag_char(c: char)
    requires
        is_tag_char(c),
    ensures
        lower_char(c) == c || is_ascii_upper(c),
        is_tag_char(lower_char(c)),
        lower_char(lower_char(c)) == lower_char(c),
        !is_ws(c),
{
}

/// Normalization is idempotent: a tag's stored value is accepted by
/// `Tag::new` and normalizes to itself, so `Tag::new(tag.as_str())`
/// gives back the same tag.
pub proof fn lemma_tag_normal_form_idempotent(s: Seq<char>)
    requires
        tag_accepts(s),
    ensures
        tag_accepts(tag_normal_form(s)),
        tag_normal_form(tag_normal_form(s)) == tag_normal_form(s),
{
    let t = trim(s);
    let n = tag_normal_form(s);
    assert forall|i: int| 0 <= i < n.len() implies is_tag_char(#[trigger] n[i]) && !is_ws(n[i])
        && lower_char(n[i]) == n[i] by {
        assert(n[i] == lower_char(t[i]));
        assert(is_tag_char(lower_char(t[i])));
        lemma_lower_tag_char(lower_char(t[i]));
    }
    assert(trim_start(n) == n);
    assert(trim_end(n) == n);
    assert(trim(n) == n);
    assert(lower_seq(n) =~= n);
}

/// ASCII upper case of a text (small letters to capitals).
pub open spec fn ascii_upper_seq(s: Seq<char>) -> Seq<char> {
    s.map_values(|c: char| if crate::text::is_ascii_lower(c) { ((c as u32) - 32) as char } else { c })
}

/// Tags compare by their trimmed lowercase text: two accepted texts give
/// the same tag exactly when they agree once trimmed and lowercased; and a
/// tag's text, in lower or in upper case, gives the tag back.
pub proof fn lemma_tag_case_insensitive(a: Seq<char>, b: Seq<char>)
    requires
        tag_accepts(a),
        tag_accepts(b),
    ensures
        (tag_normal_form(a) == tag_normal_form(b)) <==> (lower_seq(trim(a)) == lower_seq(trim(b))),
        tag_accepts(tag_normal_form(a)),
        tag_normal_form(tag_normal_form(a)) == tag_normal_form(a),
        tag_accepts(ascii_upper_seq(tag_normal_form(a))),
        tag_normal_form(ascii_upper_seq(tag_normal_form(a))) == tag_normal_form(a),
{
    lemma_tag_normal_form_idempotent(a);
    let n = tag_normal_form(a);
    let u = ascii_upper_seq(n);
    assert forall|i: int| 0 <= i < n.len() implies is_tag_char(#[trigger] n[i]) && lower_char(n[i]) == n[i] by {
        assert(trim(n) == n);
        assert(is_tag_char(lower_char(trim(n)[i])));
        assert(lower_seq(n)[i] == lower_char(n[i]));
        lemma_lower_tag_char(n[i]);
    }
    assert forall|i: int| 0 <= i < u.len() implies is_tag_char(#[trigger] u[i]) && !is_ws(u[i])
        && lower_char(u[i]) == n[i] by {
        assert(is_tag_char(n[i]));
    }
    assert(trim_start(u) == u);
    assert(trim_end(u) == u);
    assert(trim(u) == u);
    assert forall|i: int| 0 <= i < trim(u).len() implies is_tag_char(#[trigger] lower_char(trim(u)[i])) by {
        assert(lower_char(u[i]) == n[i]);
    }
    assert(lower_seq(u) =~= n);
}

/// A case-insensitive tag for categorizing notes.
///
/// Tags are flat labels, stored trimmed and lowercased, so `Draft`,
/// `draft` and `DRAFT` are the same tag.  A tag holds only ASCII letters,
/// digits, hyphens and underscores.
#[derive(Debug, Hash)]
pub struct Tag(String);

/// Error returned when parsing an invalid tag.
#[derive(Debug, Clone)]
pub struct ParseTagError(String);

impl View for Tag {
    type V = Seq<char>;

    open spec fn view(&self) -> Seq<char> {
        self.spec_value()
    }
}

impl Tag {
    /// The stored, normalized value.
    pub closed spec fn spec_value(&self) -> Seq<char> {
        self.0@
    }

    /// Well-formedness: the value is non-empty and holds only tag characters.
    pub open spec fn wf(self) -> bool {
        &&& self@.len() > 0
        &&& forall|i: int| 0 <= i < self@.len() ==> is_tag_char(#[trigger] self@[i])
    }

    /// Creates a new tag from a string: trims surrounding whitespace,
    /// lowercases, and checks the characters.
    pub fn new(s: &str) -> (res: Result<Tag, ParseTagError>)
        ensures
            res is Ok <==> tag_accepts(s@),
            res matches Ok(t) ==> t@ == tag_normal_form(s@) && t.wf(),
            res matches Err(e) ==> e@ == tag_error_message(s@),
    {
        let chars = chars_of(s);
        let trimmed = trim_chars(chars.as_slice());
        if trimmed.len() == 0 {
            return Err(ParseTagError(String::from_str("tag cannot be empty")));
        }
        let lowered = lower_chars(trimmed.as_slice());
        let mut i: usize = 0;
        while i < lowered.len()
            invariant
                i <= lowered@.len(),
                lowered@ == lower_seq(trimmed@),
                trimmed@ == trim(s@),
                forall|j: int| 0 <= j < i ==> is_tag_char(#[trigger] lowered@[j]),
            decreases lowered@.len() - i,
        {
            let c = lowered[i];
            if !(is_ascii_alnum_char(c) || c == '-' || c == '_') {
                assert(is_tag_char(lower_char(trim(s@)[i as int])) == false);
                let trimmed_text = string_from_chars(trimmed.as_slice());
                let lower_text = to_lowercase(trimmed_text.as_str());
                let mut msg = String::from_str("invalid tag '");
                msg.append(lower_text.as_str());
                msg.append("': tags must contain only alphanumeric characters, hyphens, and underscores");
                return Err(ParseTagError(msg));
            }
            i = i + 1;
        }
        assert forall|j: int| 0 <= j < trim(s@).len() implies is_tag_char(
            #[trigger] lower_char(trim(s@)[j]),
        ) by {
            assert(lowered@[j] == lower_char(trim(s@)[j]));
        }
        Ok(Tag(string_from_chars(lowered.as_slice())))
    }

    /// Returns the normalized tag value.
    pub fn as_str(&self) -> (r: &str)
        ensures
            r@ == self@,
    {
        self.0.as_str()
    }

    /// The tag's text (what `Display` shows).
    pub fn to_string(&self) -> (r: String)
        ensures
            r@ == self@,
    {
        self.0.clone()
    }
}

impl PartialEq for Tag {
    fn eq(&self, other: &Tag) -> (r: bool) {
        self.0 == other.0
    }
}

impl Eq for Tag {}

impl vstd::std_specs::cmp::PartialEqSpecImpl for Tag {
    open spec fn obeys_eq_spec() -> bool {
        true
    }

    open spec fn eq_spec(&self, other: &Tag) -> bool {
        self@ == other@
    }
}

impl Clone for Tag {
    fn clone(&self) -> (r: Tag)
        ensures
            r@ == self@,
    {
        Tag(self.0.clone())
    }
}

impl View for ParseTagError {
    type V = Seq<char>;

    closed spec fn view(&self) -> Seq<char> {
        self.0@
    }
}

impl ParseTagError {
    /// The error message.
    pub fn to_string(&self) -> (r: String)
        ensures
            r@ == self@,
    {
        self.0.clone()
    }
}

impl core::str::FromStr for Tag {
    type Err = ParseTagError;

    fn from_str(s: &str) -> (res: Result<Tag, ParseTagError>)
        ensures
            res is Ok <==> tag_accepts(s@),
            res matches Ok(t) ==> t@ == tag_normal_form(s@) && t.wf(),
            res matches Err(e) ==> e@ == tag_error_message(s@),
    {
        Tag::new(s)
    }
}

} // verus!
