//! Hierarchical topic path type for organizing notes.

use vstd::prelude::*;
use vstd::string::StringExecFns;
use crate::text::{chars_of, is_ascii_alnum, is_ascii_alnum_char, is_ws, push_char, string_from_chars, trim, trim_chars, trim_end, trim_start};

verus! {

/// Characters a topic segment may hold.
pub open spec fn is_segment_char(c: char) -> bool {
    is_ascii_alnum(c) || c == '-' || c == '_'
}

/// A valid segment: non-empty, only segment characters.
pub open spec fn valid_segment(s: Seq<char>) -> bool {
    &&& s.len() > 0
    &&& forall|i: int| 0 <= i < s.len() ==> is_segment_char(#[trigger] s[i])
}

pub open spec fn valid_segments(segs: Seq<Seq<char>>) -> bool {
    &&& segs.len() > 0
    &&& forall|i: int| 0 <= i < segs.len() ==> valid_segment(#[trigger] segs[i])
}

/// `str::split('/')`: the pieces between slashes (always at least one piece).
pub open spec fn split_on_slash(s: Seq<char>) -> Seq<Seq<char>>
    decreases s.len(),
{
    if s.len() == 0 {
        seq![Seq::<char>::empty()]
    } else {
        let p = split_on_slash(s.drop_last());
        if s.last() == '/' {
            p.push(Seq::<char>::empty())
        } else {
            p.update(p.len() - 1, p.last().push(s.last()))
        }
    }
}

/// Segments joined with `/`.
pub open spec fn join_slash(segs: Seq<Seq<char>>) -> Seq<char>
    decreases segs.len(),
{
    if segs.len() == 0 {
        Seq::<char>::empty()
    } else if segs.len() == 1 {
        segs[0]
    } else {
        join_slash(segs.drop_last()) + seq!['/'] + segs.last()
    }
}

pub open spec fn whitespace_segment_message() -> Seq<char> {
    "invalid segment: segments cannot be whitespace-only"@
}

pub open spec fn invalid_segment_message(seg: Seq<char>) -> Seq<char> {
    "invalid segment '"@ + seg
        + "': segments must contain only alphanumeric characters, hyphens, and underscores"@
}

pub open spec fn empty_topic_message() -> Seq<char> {
    "topic path cannot be empty"@
}

/// One piece between slashes, added to the segments read so far:
/// empty pieces are skipped; other pieces are trimmed and must be valid.
pub open spec fn topic_step(acc: Seq<Seq<char>>, raw: Seq<char>) -> Result<Seq<Seq<char>>, Seq<char>> {
    if raw.len() == 0 {
        Ok(acc)
    } else if trim(raw).len() == 0 {
        Err(whitespace_segment_message())
    } else if !valid_segment(trim(raw)) {
        Err(invalid_segment_message(trim(raw)))
    } else {
        Ok(acc.push(trim(raw)))
    }
}

/// The pieces read from left to right; the first fault wins.
pub open spec fn topic_fold(raws: Seq<Seq<char>>) -> Result<Seq<Seq<char>>, Seq<char>>
    decreases raws.len(),
{
    if raws.len() == 0 {
        Ok(Seq::<Seq<char>>::empty())
    } else {
        match topic_fold(raws.drop_last()) {
            Ok(acc) => topic_step(acc, raws.last()),
            Err(m) => Err(m),
        }
    }
}

/// What `Topic::new` does with a path: the segments of the topic, or the error message.
pub open spec fn topic_parse(s: Seq<char>) -> Result<Seq<Seq<char>>, Seq<char>> {
    match topic_fold(split_on_slash(trim(s))) {
        Ok(segs) => if segs.len() == 0 {
            Err(empty_topic_message())
        } else {
            Ok(segs)
        },
        Err(m) => Err(m),
    }
}

pub open spec fn strings_view(v: Seq<String>) -> Seq<Seq<char>> {
    v.map_values(|s: String| s@)
}

/// A hierarchical topic path such as `software/architecture/patterns`.
///
/// Leading, trailing and repeated slashes and surrounding whitespace are
/// dropped; each segment holds ASCII letters, digits, hyphens and
/// underscores.  Topics are case-sensitive.
#[derive(Debug, Hash)]
pub struct Topic {
    path: String,
    segments: Vec<String>,
}

/// Error returned when parsing an invalid topic path.
#[derive(Debug, Clone)]
pub struct ParseTopicError(String);

impl View for Topic {
    type V = Seq<Seq<char>>;

    open spec fn view(&self) -> Seq<Seq<char>> {
        self.spec_segments()
    }
}

pub proof fn lemma_split_nonempty(s: Seq<char>)
    ensures
        split_on_slash(s).len() >= 1,
    decreases s.len(),
{
    if s.len() > 0 {
        lemma_split_nonempty(s.drop_last());
    }
}

impl Topic {
    /// The segments of the path.
    pub closed spec fn spec_segments(&self) -> Seq<Seq<char>> {
        strings_view(self.segments@)
    }

    #[verifier::type_invariant]
    closed spec fn inv(self) -> bool {
        &&& valid_segments(strings_view(self.segments@))
        &&& self.path@ == join_slash(strings_view(self.segments@))
    }

    /// Whether a segment holds only valid characters.
    pub fn is_valid_segment(segment: &[char]) -> (r: bool)
        ensures
            r == valid_segment(segment@),
    {
        if segment.len() == 0 {
            return false;
        }
        let mut i: usize = 0;
        while i < segment.len()
            invariant
                i <= segment@.len(),
                forall|j: int| 0 <= j < i ==> is_segment_char(#[trigger] segment@[j]),
            decreases segment@.len() - i,
        {
            let c = segment[i];
            if !(is_ascii_alnum_char(c) || c == '-' || c == '_') {
                return false;
            }
            i = i + 1;
        }
        true
    }

    fn add_piece(raw: &[char], segs: &mut Vec<String>) -> (res: Result<(), ParseTopicError>)
        ensures
            topic_step(strings_view(old(segs)@), raw@) matches Ok(acc) ==> res is Ok
                && strings_view(final(segs)@) == acc,
            topic_step(strings_view(old(segs)@), raw@) matches Err(m) ==> res matches Err(e)
                && e@ == m,
    {
        if raw.len() == 0 {
            return Ok(());
        }
        let seg = trim_chars(raw);
        if seg.len() == 0 {
            return Err(
                ParseTopicError(
                    String::from_str("invalid segment: segments cannot be whitespace-only"),
                ),
            );
        }
        if !Self::is_valid_segment(seg.as_slice()) {
            let mut msg = String::from_str("invalid segment '");
            let seg_text = string_from_chars(seg.as_slice());
            msg.append(seg_text.as_str());
            msg.append("': segments must contain only alphanumeric characters, hyphens, and underscores");
            return Err(ParseTopicError(msg));
        }
        let ghost before = segs@;
        segs.push(string_from_chars(seg.as_slice()));
        assert(strings_view(segs@) =~= strings_view(before).push(seg@));
        Ok(())
    }

    fn join_segments(segs: &Vec<String>) -> (r: String)
        requires
            segs@.len() > 0,
        ensures
            r@ == join_slash(strings_view(segs@)),
    {
        let mut out = segs[0].clone();
        let mut i: usize = 1;
        assert(strings_view(segs@).take(1) =~= seq![segs@[0]@]);
        while i < segs.len()
            invariant
                1 <= i <= segs@.len(),
                out@ == join_slash(strings_view(segs@).take(i as int)),
            decreases segs@.len() - i,
        {
            let ghost prev = strings_view(segs@).take(i as int);
            push_char(&mut out, '/');
            out.append(segs[i].as_str());
            i = i + 1;
            let ghost cur = strings_view(segs@).take(i as int);
            assert(cur.drop_last() =~= prev);
            assert(cur.last() == segs@[i - 1]@);
        }
        assert(strings_view(segs@).take(segs@.len() as int) =~= strings_view(segs@));
        out
    }

    /// Creates a topic from a path string: trims it, splits it at `/`,
    /// drops empty pieces, trims and checks each segment.
    pub fn new(path: &str) -> (res: Result<Topic, ParseTopicError>)
        ensures
            res is Ok <==> topic_parse(path@) is Ok,
            res matches Ok(t) ==> topic_parse(path@) == Ok::<Seq<Seq<char>>, Seq<char>>(t@),
            res matches Err(e) ==> topic_parse(path@) == Err::<Seq<Seq<char>>, Seq<char>>(e@),
    {
        let chars = chars_of(path);
        let t = trim_chars(chars.as_slice());
        let mut segs: Vec<String> = Vec::new();
        let mut cur: Vec<char> = Vec::new();
        let mut i: usize = 0;
        proof {
            assert(t@.take(0) =~= Seq::<char>::empty());
            assert(split_on_slash(t@.take(0)).drop_last() =~= Seq::<Seq<char>>::empty());
            assert(strings_view(segs@) =~= Seq::<Seq<char>>::empty());
        }
        while i < t.len()
            invariant
                i <= t@.len(),
                t@ == trim(path@),
                split_on_slash(t@.take(i as int)).len() >= 1,
                split_on_slash(t@.take(i as int)).last() == cur@,
                topic_fold(split_on_slash(t@.take(i as int)).drop_last()) == Ok::<
                    Seq<Seq<char>>,
                    Seq<char>,
                >(strings_view(segs@)),
            decreases t@.len() - i,
        {
            let c = t[i];
            let ghost p = split_on_slash(t@.take(i as int));
            proof {
                assert(t@.take(i + 1).drop_last() =~= t@.take(i as int));
                assert(t@.take(i + 1).last() == c);
            }
            if c == '/' {
                let r = Self::add_piece(cur.as_slice(), &mut segs);
                proof {
                    assert(p.drop_last().push(p.last()) =~= p);
                }
                if r.is_err() {
                    proof {
                        let q = split_on_slash(t@.take(i + 1));
                        assert(q == p.push(Seq::<char>::empty()));
                        assert(q.drop_last() =~= p);
                        lemma_fold_err_propagates(t@, i + 1, r->Err_0@);
                    }
                    return Err(r.unwrap_err());
                }
                cur = Vec::new();
                proof {
                    let q = split_on_slash(t@.take(i + 1));
                    assert(q == p.push(Seq::<char>::empty()));
                    assert(q.drop_last() =~= p);
                }
            } else {
                cur.push(c);
                proof {
                    let q = split_on_slash(t@.take(i + 1));
                    assert(q.drop_last() =~= p.drop_last());
                }
            }
            i = i + 1;
        }
        assert(t@.take(t@.len() as int) =~= t@);
        let ghost p = split_on_slash(t@);
        assert(p.drop_last().push(p.last()) =~= p);
        let r = Self::add_piece(cur.as_slice(), &mut segs);
        if r.is_err() {
            return Err(r.unwrap_err());
        }
        if segs.len() == 0 {
            return Err(ParseTopicError(String::from_str("topic path cannot be empty")));
        }
        proof {
            lemma_fold_valid(split_on_slash(t@));
        }
        let joined = Self::join_segments(&segs);
        Ok(Topic { path: joined, segments: segs })
    }

    /// Returns the path components.
    pub fn segments(&self) -> (r: &[String])
        ensures
            strings_view(r@) == self@,
    {
        self.segments.as_slice()
    }

    /// Returns the number of segments in the path.
    pub fn depth(&self) -> (r: usize)
        ensures
            r == self@.len(),
    {
        self.segments.len()
    }

    /// The path text (what `Display` shows).
    pub fn to_string(&self) -> (r: String)
        ensures
            r@ == join_slash(self@),
    {
        proof {
            use_type_invariant(self);
        }
        self.path.clone()
    }

    /// The path text.
    pub fn as_str(&self) -> (r: &str)
        ensures
            r@ == join_slash(self@),
    {
        proof {
            use_type_invariant(self);
        }
        self.path.as_str()
    }

    fn from_prefix(&self, n: usize) -> (r: Topic)
        requires
            1 <= n <= self@.len(),
        ensures
            r@ == self@.take(n as int),
    {
        proof {
            use_type_invariant(self);
        }
        let mut segs: Vec<String> = Vec::new();
        let mut i: usize = 0;
        while i < n
            invariant
                i <= n <= self.segments@.len(),
                segs@.len() == i,
                strings_view(segs@) == strings_view(self.segments@).take(i as int),
            decreases n - i,
        {
            let ghost before = segs@;
            let seg = self.segments[i].clone();
            segs.push(seg);
            i = i + 1;
            assert(segs@ == before.push(self.segments@[i - 1]));
            assert forall|j: int| 0 <= j < i implies #[trigger] strings_view(segs@)[j]
                == strings_view(self.segments@).take(i as int)[j] by {
                if j < i - 1 {
                    assert(strings_view(before)[j] == strings_view(self.segments@).take(
                        (i - 1) as int,
                    )[j]);
                    assert(segs@[j] == before[j]);
                }
            }
            assert(strings_view(segs@) =~= strings_view(self.segments@).take(i as int));
        }
        let path = Self::join_segments(&segs);
        proof {
            assert forall|j: int| 0 <= j < strings_view(segs@).len() implies valid_segment(
                #[trigger] strings_view(segs@)[j],
            ) by {
                assert(strings_view(segs@)[j] == strings_view(self.segments@)[j]);
            }
        }
        Topic { path, segments: segs }
    }

    /// Returns the parent topic, or `None` for a root-level topic.
    pub fn parent(&self) -> (r: Option<Topic>)
        ensures
            r is None <==> self@.len() <= 1,
            r matches Some(p) ==> p@ == self@.drop_last(),
    {
        if self.segments.len() <= 1 {
            return None;
        }
        let p = self.from_prefix(self.segments.len() - 1);
        assert(p@ =~= self@.drop_last());
        Some(p)
    }

    /// Returns all ancestor topics, from the root to the immediate parent.
    pub fn ancestors(&self) -> (r: Vec<Topic>)
        ensures
            r@.len() == self@.len() - 1,
            forall|i: int| 0 <= i < r@.len() ==> (#[trigger] r@[i])@ == self@.take(i + 1),
    {
        proof {
            use_type_invariant(self);
        }
        let mut result: Vec<Topic> = Vec::new();
        let mut i: usize = 1;
        while i < self.segments.len()
            invariant
                1 <= i <= self@.len(),
                result@.len() == i - 1,
                forall|k: int| 0 <= k < result@.len() ==> (#[trigger] result@[k])@ == self@.take(k + 1),
            decreases self@.len() - i,
        {
            result.push(self.from_prefix(i));
            i = i + 1;
        }
        result
    }

    /// Whether this topic is a proper prefix of `other`, segment by segment.
    pub fn is_ancestor_of(&self, other: &Topic) -> (r: bool)
        ensures
            r == is_ancestor(self@, other@),
    {
        if self.segments.len() >= other.segments.len() {
            return false;
        }
        let mut i: usize = 0;
        while i < self.segments.len()
            invariant
                i <= self@.len() < other@.len(),
                forall|j: int| 0 <= j < i ==> self@[j] == other@[j],
            decreases self@.len() - i,
        {
            if self.segments[i] != other.segments[i] {
                assert(self@[i as int] != other@[i as int]);
                return false;
            }
            i = i + 1;
        }
        assert(other@.take(self@.len() as int) =~= self@);
        true
    }
}

/// `a` is a proper prefix of `b`.
pub open spec fn is_ancestor(a: Seq<Seq<char>>, b: Seq<Seq<char>>) -> bool {
    a.len() < b.len() && b.take(a.len() as int) == a
}

/// Every segment that the fold produces is valid.
pub proof fn lemma_fold_valid(raws: Seq<Seq<char>>)
    ensures
        topic_fold(raws) matches Ok(acc) ==> forall|i: int|
            0 <= i < acc.len() ==> valid_segment(#[trigger] acc[i]),
    decreases raws.len(),
{
    if raws.len() > 0 {
        lemma_fold_valid(raws.drop_last());
    }
}

proof fn lemma_fold_err_propagates(t: Seq<char>, k: int, m: Seq<char>)
    requires
        0 <= k <= t.len(),
        topic_fold(split_on_slash(t.take(k)).drop_last()) == Err::<Seq<Seq<char>>, Seq<char>>(m),
    ensures
        topic_fold(split_on_slash(t)) == Err::<Seq<Seq<char>>, Seq<char>>(m),
    decreases t.len() - k,
{
    lemma_split_nonempty(t.take(k));
    if k == t.len() {
        assert(t.take(k) =~= t);
        lemma_split_nonempty(t);
    } else {
        let p = split_on_slash(t.take(k));
        let q = split_on_slash(t.take(k + 1));
        assert(t.take(k + 1).drop_last() =~= t.take(k));
        if t[k] == '/' {
            assert(q.drop_last() =~= p);
        } else {
            assert(q.drop_last() =~= p.drop_last());
        }
        lemma_fold_err_propagates(t, k + 1, m);
    }
}

proof fn lemma_segment_char_not_ws(c: char)
    requires
        is_segment_char(c),
    ensures
        !is_ws(c),
{
}

proof fn lemma_trim_identity(s: Seq<char>)
    requires
        s.len() > 0 ==> !is_ws(s[0]) && !is_ws(s.last()),
    ensures
        trim(s) == s,
{
    assert(trim_start(s) == s);
    assert(trim_end(s) == s);
}

proof fn lemma_split_extend(a: Seq<char>, b: Seq<char>)
    requires
        forall|k: int| 0 <= k < b.len() ==> b[k] != '/',
    ensures
        split_on_slash(a).len() >= 1,
        split_on_slash(a + b) == split_on_slash(a).update(
            split_on_slash(a).len() - 1,
            split_on_slash(a).last() + b,
        ),
    decreases b.len(),
{
    lemma_split_nonempty(a);
    let sa = split_on_slash(a);
    if b.len() == 0 {
        assert(a + b =~= a);
        assert(sa.last() + b =~= sa.last());
        assert(sa.update(sa.len() - 1, sa.last() + b) =~= sa);
    } else {
        let b0 = b.drop_last();
        lemma_split_extend(a, b0);
        assert((a + b).drop_last() =~= a + b0);
        assert((a + b).last() == b.last());
        let p = split_on_slash(a + b0);
        assert(p.last() == sa.last() + b0);
        assert(p.last().push(b.last()) =~= sa.last() + b);
        assert(p.update(p.len() - 1, p.last().push(b.last())) =~= sa.update(
            sa.len() - 1,
            sa.last() + b,
        ));
    }
}

proof fn lemma_join_shape(segs: Seq<Seq<char>>)
    requires
        valid_segments(segs),
    ensures
        join_slash(segs).len() > 0,
        join_slash(segs)[0] == segs[0][0],
        join_slash(segs).last() == segs.last().last(),
        forall|k: int| 0 <= k < join_slash(segs).len() ==> (#[trigger] join_slash(segs)[k] == '/'
            || is_segment_char(join_slash(segs)[k])),
    decreases segs.len(),
{
    if segs.len() > 1 {
        let d = segs.drop_last();
        assert(valid_segments(d)) by {
            assert forall|i: int| 0 <= i < d.len() implies valid_segment(#[trigger] d[i]) by {
                assert(d[i] == segs[i]);
            }
        }
        lemma_join_shape(d);
        let j = join_slash(segs);
        assert(j == join_slash(d) + seq!['/'] + segs.last());
        assert(valid_segment(segs.last()));
        assert forall|k: int| 0 <= k < j.len() implies (#[trigger] j[k] == '/' || is_segment_char(
            j[k],
        )) by {
            if k < join_slash(d).len() {
                assert(j[k] == join_slash(d)[k]);
            } else if k > join_slash(d).len() {
                assert(j[k] == segs.last()[k - join_slash(d).len() - 1]);
            }
        }
    } else {
        assert(valid_segment(segs[0]));
    }
}

pub proof fn lemma_split_join(segs: Seq<Seq<char>>)
    requires
        valid_segments(segs),
    ensures
        split_on_slash(join_slash(segs)) == segs,
    decreases segs.len(),
{
    assert(valid_segment(segs.last()));
    let last = segs.last();
    assert forall|k: int| 0 <= k < last.len() implies last[k] != '/' by {
        assert(is_segment_char(last[k]));
    }
    if segs.len() == 1 {
        let e = Seq::<char>::empty();
        lemma_split_extend(e, last);
        assert(e + last =~= last);
        assert(split_on_slash(e) == seq![e]);
        assert(seq![e].update(0, e + last) =~= segs);
    } else {
        let d = segs.drop_last();
        assert(valid_segments(d)) by {
            assert forall|i: int| 0 <= i < d.len() implies valid_segment(#[trigger] d[i]) by {
                assert(d[i] == segs[i]);
            }
        }
        lemma_split_join(d);
        let x = join_slash(d) + seq!['/'];
        assert(x.drop_last() =~= join_slash(d));
        assert(split_on_slash(x) == split_on_slash(join_slash(d)).push(Seq::<char>::empty()));
        lemma_split_extend(x, last);
        assert(join_slash(segs) == x + last);
        assert(Seq::<char>::empty() + last =~= last);
        assert(d.push(Seq::<char>::empty()).update(d.len() as int, Seq::<char>::empty() + last)
            =~= segs);
    }
}

proof fn lemma_fold_of_valid(segs: Seq<Seq<char>>)
    requires
        forall|i: int| 0 <= i < segs.len() ==> valid_segment(#[trigger] segs[i]),
    ensures
        topic_fold(segs) == Ok::<Seq<Seq<char>>, Seq<char>>(segs),
    decreases segs.len(),
{
    if segs.len() > 0 {
        let d = segs.drop_last();
        assert forall|i: int| 0 <= i < d.len() implies valid_segment(#[trigger] d[i]) by {
            assert(d[i] == segs[i]);
        }
        lemma_fold_of_valid(d);
        let last = segs.last();
        assert(valid_segment(last));
        lemma_segment_char_not_ws(last[0]);
        lemma_segment_char_not_ws(last.last());
        lemma_trim_identity(last);
        assert(d.push(last) =~= segs);
        assert(topic_step(d, last) == Ok::<Seq<Seq<char>>, Seq<char>>(d.push(last)));
    } else {
        assert(segs =~= Seq::<Seq<char>>::empty());
    }
}

/// What `Topic::new` returns always has valid segments.
pub proof fn lemma_topic_parse_valid(s: Seq<char>)
    ensures
        topic_parse(s) matches Ok(segs) ==> valid_segments(segs),
{
    lemma_fold_valid(split_on_slash(trim(s)));
}

/// Normalization round trip: parsing the path of a topic (its segments
/// joined with `/`) gives back exactly those segments.  Hence
/// `Topic::new(&t.to_string())` equals `t`, and normalizing twice is the
/// same as normalizing once.
pub proof fn lemma_topic_path_roundtrip(segs: Seq<Seq<char>>)
    requires
        valid_segments(segs),
    ensures
        topic_parse(join_slash(segs)) == Ok::<Seq<Seq<char>>, Seq<char>>(segs),
{
    lemma_join_shape(segs);
    let j = join_slash(segs);
    assert(valid_segment(segs[0]));
    assert(valid_segment(segs.last()));
    lemma_segment_char_not_ws(j[0]);
    lemma_segment_char_not_ws(j.last());
    lemma_trim_identity(j);
    lemma_split_join(segs);
    lemma_fold_of_valid(segs);
}

/// Leading whitespace in front of a text that starts with a non-whitespace
/// character is what `trim_start` removes.
proof fn lemma_trim_start_pad(w: Seq<char>, s: Seq<char>)
    requires
        forall|i: int| 0 <= i < w.len() ==> is_ws(#[trigger] w[i]),
        s.len() > 0 && !is_ws(s[0]),
    ensures
        trim_start(w + s) == s,
    decreases w.len(),
{
    if w.len() == 0 {
        assert(w + s =~= s);
    } else {
        assert((w + s).drop_first() =~= w.drop_first() + s);
        assert((w + s)[0] == w[0]);
        lemma_trim_start_pad(w.drop_first(), s);
    }
}

/// Trailing whitespace after a text that ends with a non-whitespace
/// character is what `trim_end` removes.
proof fn lemma_trim_end_pad(s: Seq<char>, w: Seq<char>)
    requires
        forall|i: int| 0 <= i < w.len() ==> is_ws(#[trigger] w[i]),
        s.len() > 0 && !is_ws(s.last()),
    ensures
        trim_end(s + w) == s,
    decreases w.len(),
{
    if w.len() == 0 {
        assert(s + w =~= s);
    } else {
        assert((s + w).drop_last() =~= s + w.drop_last());
        assert((s + w).last() == w.last());
        lemma_trim_end_pad(s, w.drop_last());
    }
}

/// Splitting the path of a topic with one `/` in front gives an empty piece,
/// then the segments.
proof fn lemma_split_slash_join(segs: Seq<Seq<char>>)
    requires
        valid_segments(segs),
    ensures
        split_on_slash(seq!['/'] + join_slash(segs)) == seq![Seq::<char>::empty()] + segs,
    decreases segs.len(),
{
    let e = Seq::<char>::empty();
    assert(valid_segment(segs.last()));
    let last = segs.last();
    assert forall|k: int| 0 <= k < last.len() implies last[k] != '/' by {
        assert(is_segment_char(last[k]));
    }
    let slash = seq!['/'];
    assert(slash.drop_last() =~= e);
    assert(split_on_slash(e) == seq![e]);
    assert(slash.last() == '/');
    assert(split_on_slash(slash) == split_on_slash(slash.drop_last()).push(e));
    assert(split_on_slash(slash) == seq![e].push(e));
    if segs.len() == 1 {
        lemma_split_extend(slash, last);
        assert(join_slash(segs) == last);
        assert(seq![e].push(e).update(1, e + last) =~= seq![e] + segs);
    } else {
        let d = segs.drop_last();
        assert(valid_segments(d)) by {
            assert forall|i: int| 0 <= i < d.len() implies valid_segment(#[trigger] d[i]) by {
                assert(d[i] == segs[i]);
            }
        }
        lemma_split_slash_join(d);
        let x = slash + join_slash(d) + seq!['/'];
        assert(x.drop_last() =~= slash + join_slash(d));
        assert(split_on_slash(x) == (seq![e] + d).push(e));
        lemma_split_extend(x, last);
        assert(slash + join_slash(segs) =~= x + last);
        assert(e + last =~= last);
        assert((seq![e] + d).push(e).update(d.len() as int + 1, e + last) =~= seq![e] + segs);
    }
}

/// Empty pieces in front change nothing when the rest are valid segments.
proof fn lemma_fold_leading_empty(segs: Seq<Seq<char>>)
    requires
        forall|i: int| 0 <= i < segs.len() ==> valid_segment(#[trigger] segs[i]),
    ensures
        topic_fold(seq![Seq::<char>::empty()] + segs) == Ok::<Seq<Seq<char>>, Seq<char>>(segs),
    decreases segs.len(),
{
    let e = Seq::<char>::empty();
    if segs.len() == 0 {
        assert(seq![e] + segs =~= seq![e]);
        assert(seq![e].drop_last() =~= Seq::<Seq<char>>::empty());
        assert(segs =~= Seq::<Seq<char>>::empty());
        assert(topic_fold(Seq::<Seq<char>>::empty()) == Ok::<Seq<Seq<char>>, Seq<char>>(Seq::<Seq<char>>::empty()));
        assert(seq![e].last() == e);
        assert(topic_fold(seq![e]) == topic_step(Seq::<Seq<char>>::empty(), e));
    } else {
        let d = segs.drop_last();
        assert forall|i: int| 0 <= i < d.len() implies valid_segment(#[trigger] d[i]) by {
            assert(d[i] == segs[i]);
        }
        lemma_fold_leading_empty(d);
        assert((seq![e] + segs).drop_last() =~= seq![e] + d);
        assert((seq![e] + segs).last() == segs.last());
        let last = segs.last();
        assert(valid_segment(last));
        lemma_segment_char_not_ws(last[0]);
        lemma_segment_char_not_ws(last.last());
        lemma_trim_identity(last);
        assert(d.push(last) =~= segs);
    }
}

/// Surrounding whitespace and surrounding slashes do not change a topic:
/// the path of a topic padded with whitespace parses back to the same
/// segments (`Topic::new(&format!("  {}  ", t)) == t`), and so does the path
/// wrapped in slashes (`Topic::new(&format!("/{}/", t)) == t`, the second
/// clause).
pub proof fn lemma_topic_padded_and_wrapped(segs: Seq<Seq<char>>, pad_front: Seq<char>, pad_back: Seq<char>)
    requires
        valid_segments(segs),
        forall|i: int| 0 <= i < pad_front.len() ==> is_ws(#[trigger] pad_front[i]),
        forall|i: int| 0 <= i < pad_back.len() ==> is_ws(#[trigger] pad_back[i]),
    ensures
        topic_parse(pad_front + join_slash(segs) + pad_back) == Ok::<Seq<Seq<char>>, Seq<char>>(segs),
        topic_parse(seq!['/'] + join_slash(segs) + seq!['/']) == Ok::<Seq<Seq<char>>, Seq<char>>(segs),
{
    let j = join_slash(segs);
    lemma_join_shape(segs);
    assert(valid_segment(segs[0]));
    assert(valid_segment(segs.last()));
    lemma_segment_char_not_ws(j[0]);
    lemma_segment_char_not_ws(j.last());
    // padded
    assert(pad_front + j + pad_back =~= pad_front + (j + pad_back));
    assert((j + pad_back)[0] == j[0]);
    lemma_trim_start_pad(pad_front, j + pad_back);
    lemma_trim_end_pad(j, pad_back);
    assert(trim(pad_front + j + pad_back) == j);
    lemma_topic_path_roundtrip(segs);
    // wrapped
    let w = seq!['/'] + j + seq!['/'];
    lemma_trim_identity(w);
    let e = Seq::<char>::empty();
    lemma_split_slash_join(segs);
    assert(w.drop_last() =~= seq!['/'] + j);
    assert(split_on_slash(w) == (seq![e] + segs).push(e));
    assert forall|i: int| 0 <= i < segs.len() implies valid_segment(#[trigger] segs[i]) by {}
    lemma_fold_leading_empty(segs);
    assert((seq![e] + segs).push(e).drop_last() =~= seq![e] + segs);
}

/// Splitting at a `/` splits the two sides apart.
pub proof fn lemma_split_concat(x: Seq<char>, y: Seq<char>)
    ensures
        split_on_slash(x + seq!['/'] + y) == split_on_slash(x) + split_on_slash(y),
    decreases y.len(),
{
    let e = Seq::<char>::empty();
    let xs = x + seq!['/'];
    assert(xs.drop_last() =~= x);
    lemma_split_nonempty(x);
    if y.len() == 0 {
        assert(xs + y =~= xs);
        assert(split_on_slash(y) == seq![e]);
        assert(split_on_slash(x).push(e) =~= split_on_slash(x) + seq![e]);
    } else {
        let yd = y.drop_last();
        lemma_split_concat(x, yd);
        lemma_split_nonempty(yd);
        assert((xs + y).drop_last() =~= xs + yd);
        assert((xs + y).last() == y.last());
        assert(x + seq!['/'] + y =~= xs + y);
        assert(x + seq!['/'] + yd =~= xs + yd);
        let p = split_on_slash(x) + split_on_slash(yd);
        if y.last() == '/' {
            assert(p.push(e) =~= split_on_slash(x) + split_on_slash(yd).push(e));
        } else {
            let q = split_on_slash(yd);
            assert(p.update(p.len() - 1, p.last().push(y.last())) =~= split_on_slash(x) + q.update(
                q.len() - 1,
                q.last().push(y.last()),
            ));
        }
    }
}

/// The path of joined segment lists is the two paths joined by `/`.
pub proof fn lemma_join_concat(x: Seq<Seq<char>>, y: Seq<Seq<char>>)
    requires
        x.len() > 0,
        y.len() > 0,
    ensures
        join_slash(x + y) == join_slash(x) + seq!['/'] + join_slash(y),
    decreases y.len(),
{
    assert((x + y).drop_last() =~= x + y.drop_last());
    assert((x + y).last() == y.last());
    if y.len() == 1 {
        assert(x + y.drop_last() =~= x);
        assert(join_slash(y) == y[0]);
    } else {
        lemma_join_concat(x, y.drop_last());
    }
}

/// Two topics with the same path text have the same segments.
pub proof fn lemma_path_injective(a: Seq<Seq<char>>, b: Seq<Seq<char>>)
    requires
        valid_segments(a),
        valid_segments(b),
        join_slash(a) == join_slash(b),
    ensures
        a == b,
{
    lemma_topic_path_roundtrip(a);
    lemma_topic_path_roundtrip(b);
}

/// No topic is its own ancestor.
pub proof fn lemma_ancestor_irreflexive(a: Seq<Seq<char>>)
    ensures
        !is_ancestor(a, a),
{
}

/// The ancestor relation is transitive.
pub proof fn lemma_ancestor_transitive(a: Seq<Seq<char>>, b: Seq<Seq<char>>, c: Seq<Seq<char>>)
    requires
        is_ancestor(a, b),
        is_ancestor(b, c),
    ensures
        is_ancestor(a, c),
{
    assert(c.take(a.len() as int) =~= c.take(b.len() as int).take(a.len() as int));
}

/// Two topics are never ancestors of each other.
pub proof fn lemma_ancestor_asymmetric(a: Seq<Seq<char>>, b: Seq<Seq<char>>)
    requires
        is_ancestor(a, b),
    ensures
        !is_ancestor(b, a),
{
}

/// The parent of a topic is one of its ancestors, one segment shorter.
pub proof fn lemma_parent_is_ancestor(a: Seq<Seq<char>>)
    requires
        a.len() > 1,
    ensures
        is_ancestor(a.drop_last(), a),
        a.drop_last().len() == a.len() - 1,
{
    assert(a.take(a.len() - 1) =~= a.drop_last());
}

/// Each entry of `ancestors()` is an ancestor, and every ancestor is listed.
pub proof fn lemma_ancestors_complete(a: Seq<Seq<char>>, b: Seq<Seq<char>>)
    requires
        valid_segments(a),
        valid_segments(b),
    ensures
        is_ancestor(b, a) <==> (1 <= b.len() < a.len() && b == a.take(b.len() as int)),
{
}

impl PartialEq for Topic {
    fn eq(&self, other: &Topic) -> (r: bool) {
        proof {
            use_type_invariant(self);
            use_type_invariant(other);
            if self.path@ == other.path@ {
                lemma_path_injective(self@, other@);
            }
        }
        self.path == other.path
    }
}

impl Eq for Topic {}

impl vstd::std_specs::cmp::PartialEqSpecImpl for Topic {
    open spec fn obeys_eq_spec() -> bool {
        true
    }

    open spec fn eq_spec(&self, other: &Topic) -> bool {
        self@ == other@
    }
}

impl Clone for Topic {
    fn clone(&self) -> (r: Topic)
        ensures
            r@ == self@,
    {
        proof {
            use_type_invariant(self);
        }
        self.from_prefix(self.segments.len())
    }
}

impl View for ParseTopicError {
    type V = Seq<char>;

    closed spec fn view(&self) -> Seq<char> {
        self.0@
    }
}

impl ParseTopicError {
    /// The error message.
    pub fn to_string(&self) -> (r: String)
        ensures
            r@ == self@,
    {
        self.0.clone()
    }
}

impl core::str::FromStr for Topic {
    type Err = ParseTopicError;

    fn from_str(s: &str) -> (res: Result<Topic, ParseTopicError>)
        ensures
            res is Ok <==> topic_parse(s@) is Ok,
            res matches Ok(t) ==> topic_parse(s@) == Ok::<Seq<Seq<char>>, Seq<char>>(t@),
            res matches Err(e) ==> topic_parse(s@) == Err::<Seq<Seq<char>>, Seq<char>>(e@),
    {
        Topic::new(s)
    }
}

} // verus!
