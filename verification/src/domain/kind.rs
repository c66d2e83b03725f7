//! Note kind classification for different content types.

use vstd::prelude::*;
use vstd::string::StringExecFns;
use crate::text::{chars_eq, chars_of, lower_chars, lower_seq};
use crate::domain::tag::ascii_upper_seq;

verus! {

/// The kind of a note: what sort of content it represents.
///
/// `Generic` is the default; `Other` keeps a custom kind name as given.
#[derive(Debug, Hash)]
pub enum NoteKind {
    Generic,
    Book,
    Paper,
    Transcript,
    Article,
    Other(String),
}

/// Error returned when strict parsing meets an unknown kind.
#[derive(Debug)]
pub struct ParseNoteKindError {
    input: String,
}

/// The text of a kind, as `as_str` gives it.
pub open spec fn kind_name(k: NoteKind) -> Seq<char> {
    match k {
        NoteKind::Generic => "generic"@,
        NoteKind::Book => "book"@,
        NoteKind::Paper => "paper"@,
        NoteKind::Transcript => "transcript"@,
        NoteKind::Article => "article"@,
        NoteKind::Other(s) => s@,
    }
}

/// The known kind whose name is `l`, if any.
pub open spec fn known_kind_named(l: Seq<char>) -> Option<NoteKind> {
    if l == "generic"@ {
        Some(NoteKind::Generic)
    } else if l == "book"@ {
        Some(NoteKind::Book)
    } else if l == "paper"@ {
        Some(NoteKind::Paper)
    } else if l == "transcript"@ {
        Some(NoteKind::Transcript)
    } else if l == "article"@ {
        Some(NoteKind::Article)
    } else {
        None
    }
}

pub open spec fn is_known(k: NoteKind) -> bool {
    !(k is Other)
}

/// Equality of kinds: same variant, and the same text for `Other`.
pub open spec fn kind_eq(a: NoteKind, b: NoteKind) -> bool {
    match a {
        NoteKind::Generic => b is Generic,
        NoteKind::Book => b is Book,
        NoteKind::Paper => b is Paper,
        NoteKind::Transcript => b is Transcript,
        NoteKind::Article => b is Article,
        NoteKind::Other(x) => b matches NoteKind::Other(y) && x@ == y@,
    }
}

pub open spec fn unknown_kind_message(input: Seq<char>) -> Seq<char> {
    "unknown kind '"@ + input + "': valid kinds are generic, book, paper, transcript, article"@
}

impl NoteKind {
    /// Returns the string representation of the kind; for `Other`, the custom name.
    pub fn as_str(&self) -> (r: &str)
        ensures
            r@ == kind_name(*self),
    {
        match self {
            NoteKind::Generic => "generic",
            NoteKind::Book => "book",
            NoteKind::Paper => "paper",
            NoteKind::Transcript => "transcript",
            NoteKind::Article => "article",
            NoteKind::Other(s) => s.as_str(),
        }
    }

    /// Returns true if this is the default kind (`Generic`).
    pub fn is_default(&self) -> (r: bool)
        ensures
            r == (*self is Generic),
    {
        match self {
            NoteKind::Generic => true,
            _ => false,
        }
    }

    /// All known kinds (excluding `Other`), in declaration order.
    pub fn all_known() -> (r: Vec<NoteKind>)
        ensures
            r@ == seq![
                NoteKind::Generic,
                NoteKind::Book,
                NoteKind::Paper,
                NoteKind::Transcript,
                NoteKind::Article,
            ],
    {
        let mut v: Vec<NoteKind> = Vec::new();
        v.push(NoteKind::Generic);
        v.push(NoteKind::Book);
        v.push(NoteKind::Paper);
        v.push(NoteKind::Transcript);
        v.push(NoteKind::Article);
        v
    }

    /// The names of all known kinds.
    pub fn known_names() -> (r: Vec<&'static str>)
        ensures
            r@.len() == 5,
            r@[0]@ == "generic"@,
            r@[1]@ == "book"@,
            r@[2]@ == "paper"@,
            r@[3]@ == "transcript"@,
            r@[4]@ == "article"@,
    {
        let mut v: Vec<&'static str> = Vec::new();
        v.push("generic");
        v.push("book");
        v.push("paper");
        v.push("transcript");
        v.push("article");
        v
    }

    fn known_from_lowered(l: &[char]) -> (r: Option<NoteKind>)
        ensures
            r == known_kind_named(l@),
    {
        if chars_eq(l, chars_of("generic").as_slice()) {
            Some(NoteKind::Generic)
        } else if chars_eq(l, chars_of("book").as_slice()) {
            Some(NoteKind::Book)
        } else if chars_eq(l, chars_of("paper").as_slice()) {
            Some(NoteKind::Paper)
        } else if chars_eq(l, chars_of("transcript").as_slice()) {
            Some(NoteKind::Transcript)
        } else if chars_eq(l, chars_of("article").as_slice()) {
            Some(NoteKind::Article)
        } else {
            None
        }
    }

    /// Parses a known kind (case-insensitively), rejecting unknown names.
    pub fn parse_strict(s: &str) -> (res: Result<NoteKind, ParseNoteKindError>)
        ensures
            known_kind_named(lower_seq(s@)) matches Some(k) ==> res == Ok::<NoteKind, ParseNoteKindError>(k),
            known_kind_named(lower_seq(s@)) is None ==> (res matches Err(e) && e.spec_input() == s@),
    {
        let lowered = lower_chars(chars_of(s).as_slice());
        match Self::known_from_lowered(lowered.as_slice()) {
            Some(k) => Ok(k),
            None => Err(ParseNoteKindError { input: String::from_str(s) }),
        }
    }

    /// Parses a kind: known names case-insensitively, anything else as `Other` (kept as given).
    pub fn from_text(s: &str) -> (r: NoteKind)
        ensures
            known_kind_named(lower_seq(s@)) matches Some(k) ==> r == k,
            known_kind_named(lower_seq(s@)) is None ==> (r matches NoteKind::Other(t) && t@ == s@),
    {
        let lowered = lower_chars(chars_of(s).as_slice());
        match Self::known_from_lowered(lowered.as_slice()) {
            Some(k) => k,
            None => NoteKind::Other(String::from_str(s)),
        }
    }

    /// The kind's text (what `Display` shows).
    pub fn to_string(&self) -> (r: String)
        ensures
            r@ == kind_name(*self),
    {
        String::from_str(self.as_str())
    }
}

impl Default for NoteKind {
    fn default() -> (r: NoteKind)
        ensures
            r is Generic,
    {
        NoteKind::Generic
    }
}

impl PartialEq for NoteKind {
    fn eq(&self, other: &NoteKind) -> (r: bool) {
        match (self, other) {
            (NoteKind::Generic, NoteKind::Generic) => true,
            (NoteKind::Book, NoteKind::Book) => true,
            (NoteKind::Paper, NoteKind::Paper) => true,
            (NoteKind::Transcript, NoteKind::Transcript) => true,
            (NoteKind::Article, NoteKind::Article) => true,
            (NoteKind::Other(x), NoteKind::Other(y)) => *x == *y,
            _ => false,
        }
    }
}

impl Eq for NoteKind {}

impl vstd::std_specs::cmp::PartialEqSpecImpl for NoteKind {
    open spec fn obeys_eq_spec() -> bool {
        true
    }

    open spec fn eq_spec(&self, other: &NoteKind) -> bool {
        kind_eq(*self, *other)
    }
}

impl Clone for NoteKind {
    fn clone(&self) -> (r: NoteKind)
        ensures
            kind_eq(r, *self),
            is_known(*self) ==> r == *self,
    {
        match self {
            NoteKind::Generic => NoteKind::Generic,
            NoteKind::Book => NoteKind::Book,
            NoteKind::Paper => NoteKind::Paper,
            NoteKind::Transcript => NoteKind::Transcript,
            NoteKind::Article => NoteKind::Article,
            NoteKind::Other(s) => NoteKind::Other(s.clone()),
        }
    }
}

impl ParseNoteKindError {
    pub closed spec fn spec_input(&self) -> Seq<char> {
        self.input@
    }

    /// Returns the input that was rejected.
    pub fn input(&self) -> (r: &str)
        ensures
            r@ == self.spec_input(),
    {
        self.input.as_str()
    }

    /// The error message.
    pub fn to_string(&self) -> (r: String)
        ensures
            r@ == unknown_kind_message(self.spec_input()),
    {
        let mut msg = String::from_str("unknown kind '");
        msg.append(self.input.as_str());
        msg.append("': valid kinds are generic, book, paper, transcript, article");
        msg
    }
}

/// Strict parsing accepts every known kind's name: `parse_strict(k.as_str())` is `k`.
pub proof fn lemma_parse_strict_roundtrip(k: NoteKind)
    requires
        is_known(k),
    ensures
        known_kind_named(lower_seq(kind_name(k))) == Some(k),
{
    reveal_strlit("generic");
    reveal_strlit("book");
    reveal_strlit("paper");
    reveal_strlit("transcript");
    reveal_strlit("article");
    let n = kind_name(k);
    assert(lower_seq(n) =~= n);
    match k {
        NoteKind::Generic => {},
        NoteKind::Book => {
            assert(n[0] != "generic"@[0] || n.len() != "generic"@.len());
        },
        NoteKind::Paper => {
            assert(n[0] != "generic"@[0] || n.len() != "generic"@.len());
            assert(n[0] != "book"@[0] || n.len() != "book"@.len());
        },
        NoteKind::Transcript => {
            assert(n[0] != "generic"@[0] || n.len() != "generic"@.len());
            assert(n[0] != "book"@[0] || n.len() != "book"@.len());
            assert(n[0] != "paper"@[0] || n.len() != "paper"@.len());
        },
        NoteKind::Article => {
            assert(n[0] != "generic"@[0] || n.len() != "generic"@.len());
            assert(n[0] != "book"@[0] || n.len() != "book"@.len());
            assert(n[0] != "paper"@[0] || n.len() != "paper"@.len());
            assert(n[0] != "transcript"@[0] || n.len() != "transcript"@.len());
        },
        NoteKind::Other(_) => {},
    }
}

/// Kind names are read without regard to case: a text that lowercases to
/// a known kind's name parses (strictly or leniently) to that kind, and
/// strict parsing only ever gives a known kind.
pub proof fn lemma_kind_parse_ignores_case(k: NoteKind, s: Seq<char>)
    requires
        is_known(k),
        lower_seq(s) == kind_name(k),
    ensures
        known_kind_named(lower_seq(s)) == Some(k),
        forall|t: Seq<char>| (#[trigger] known_kind_named(t)) matches Some(j) ==> is_known(j),
{
    lemma_parse_strict_roundtrip(k);
    assert(lower_seq(kind_name(k)) =~= kind_name(k)) by {
        reveal_strlit("generic");
        reveal_strlit("book");
        reveal_strlit("paper");
        reveal_strlit("transcript");
        reveal_strlit("article");
    }
}

/// Upper-casing a known kind's name does not change what it parses to:
/// `parse_strict(&k.as_str().to_uppercase())` is `k` (for example `BOOK`).
pub proof fn lemma_kind_parse_upper(k: NoteKind)
    requires
        is_known(k),
    ensures
        known_kind_named(lower_seq(ascii_upper_seq(kind_name(k)))) == Some(k),
{
    reveal_strlit("generic");
    reveal_strlit("book");
    reveal_strlit("paper");
    reveal_strlit("transcript");
    reveal_strlit("article");
    let n = kind_name(k);
    assert forall|i: int| 0 <= i < n.len() implies crate::text::is_ascii_lower(#[trigger] n[i]) by {
        match k {
            NoteKind::Generic => {},
            NoteKind::Book => {},
            NoteKind::Paper => {},
            NoteKind::Transcript => {},
            NoteKind::Article => {},
            NoteKind::Other(_) => {},
        }
    }
    let u = ascii_upper_seq(n);
    assert forall|i: int| 0 <= i < n.len() implies crate::text::lower_char(#[trigger] u[i]) == n[i] by {
        assert(crate::text::is_ascii_lower(n[i]));
        assert(u[i] == ((n[i] as u32) - 32) as char);
    }
    assert(lower_seq(u) =~= n);
    lemma_kind_parse_ignores_case(k, u);
}

/// Lenient parsing of any kind's name gives the kind back, unless it is a
/// custom kind whose name is, up to case, a known name.
pub proof fn lemma_from_text_roundtrip(k: NoteKind)
    requires
        is_known(k) || known_kind_named(lower_seq(kind_name(k))) is None,
    ensures
        known_kind_named(lower_seq(kind_name(k))) matches Some(j) ==> j == k,
        known_kind_named(lower_seq(kind_name(k))) is None ==> (k matches NoteKind::Other(t) && t@
            == kind_name(k)),
{
    if is_known(k) {
        lemma_parse_strict_roundtrip(k);
    }
}

impl core::str::FromStr for NoteKind {
    type Err = core::convert::Infallible;

    /// Known kinds by name, case ignored; any other text is an `Other` kind.
    fn from_str(s: &str) -> (r: Result<NoteKind, core::convert::Infallible>)
        ensures
            known_kind_named(lower_seq(s@)) matches Some(k) ==> r == Ok::<NoteKind, core::convert::Infallible>(k),
            known_kind_named(lower_seq(s@)) is None ==> (r matches Ok(NoteKind::Other(t)) && t@ == s@),
    {
        Ok(NoteKind::from_text(s))
    }
}

} // verus!
