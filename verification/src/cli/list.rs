//! Listing and searching: topic filters, tag and date filters, ordering,
//! and the small text helpers of the listings.

use vstd::prelude::*;
use vstd::string::StringExecFns;
use crate::cli::args::{ListArgs, SearchArgs};
use crate::cli::date_filter::{date_filter_spec, relative_in_range, DateFilter};
use crate::cli::index::{
    note_has_tag, note_matches_topic, notes_view, tag_match, topic_match, IndexedNote,
    IndexedNoteView, NoteIndex,
};
use crate::domain::note::strings_view;
use crate::domain::tag::{tag_accepts, tag_normal_form, Tag};
use crate::domain::timestamp::{ts_le, Timestamp};
use crate::domain::topic::{topic_parse, Topic};
use crate::text::{chars_of, push_char, starts_with, string_from_chars};

verus! {

/// `s` without its trailing slashes.
pub open spec fn strip_trailing_slashes(s: Seq<char>) -> Seq<char>
    decreases s.len(),
{
    if s.len() > 0 && s.last() == '/' {
        strip_trailing_slashes(s.drop_last())
    } else {
        s
    }
}

/// A topic filter: a trailing `/` asks for descendants too (all trailing
/// slashes are then dropped from the path).
pub open spec fn topic_filter_spec(s: Seq<char>) -> (Seq<char>, bool) {
    if s.len() > 0 && s.last() == '/' {
        (strip_trailing_slashes(s), true)
    } else {
        (s, false)
    }
}

/// Splits a topic filter into its path and whether descendants are included.
pub fn parse_topic_filter(s: &str) -> (r: (String, bool))
    ensures
        (r.0@, r.1) == topic_filter_spec(s@),
{
    let v = chars_of(s);
    let mut n = v.len();
    if n > 0 && v[n - 1] == '/' {
        assert(v@.take(n as int) =~= v@);
        while n > 0 && v[n - 1] == '/'
            invariant
                n <= v@.len(),
                strip_trailing_slashes(v@.take(n as int)) == strip_trailing_slashes(v@),
            decreases n,
        {
            assert(v@.take(n as int).drop_last() =~= v@.take(n - 1));
            n = n - 1;
        }
        assert(strip_trailing_slashes(v@.take(n as int)) == v@.take(n as int));
        let mut kept: Vec<char> = Vec::new();
        let mut i: usize = 0;
        while i < n
            invariant
                i <= n <= v@.len(),
                kept@ == v@.take(i as int),
            decreases n - i,
        {
            kept.push(v[i]);
            i = i + 1;
            assert(kept@ =~= v@.take(i as int));
        }
        (string_from_chars(kept.as_slice()), true)
    } else {
        (String::from_str(s), false)
    }
}

/// `s` shortened to `max_width` characters: when longer, its first
/// `max_width - 1` characters and an ellipsis.
pub open spec fn truncated(s: Seq<char>, max_width: nat) -> Seq<char> {
    if s.len() <= max_width {
        s
    } else {
        s.take(if max_width >= 1 { max_width - 1 } else { 0 }) + seq!['\u{2026}']
    }
}

/// Truncates a string to a display width, with an ellipsis when shortened.
pub fn truncate_str(s: &str, max_width: usize) -> (r: String)
    ensures
        r@ == truncated(s@, max_width as nat),
{
    let v = chars_of(s);
    if v.len() <= max_width {
        return String::from_str(s);
    }
    let keep = if max_width >= 1 {
        max_width - 1
    } else {
        0
    };
    let mut out = String::new();
    let mut i: usize = 0;
    while i < keep
        invariant
            i <= keep < v@.len(),
            out@ == v@.take(i as int),
        decreases keep - i,
    {
        push_char(&mut out, v[i]);
        i = i + 1;
        assert(out@ =~= v@.take(i as int));
    }
    push_char(&mut out, '\u{2026}');
    out
}

/// `dir` joined with a relative path, as `Path::join` does on Unix.
pub open spec fn path_join(dir: Seq<char>, name: Seq<char>) -> Seq<char> {
    if dir.len() == 0 {
        name
    } else if dir.last() == '/' {
        dir + name
    } else {
        dir + "/"@ + name
    }
}

/// The index database's path: `<notes_dir>/.index/notes.db`.
pub fn index_db_path(notes_dir: &str) -> (r: String)
    ensures
        r@ == path_join(path_join(notes_dir@, ".index"@), "notes.db"@),
{
    let dir = join_path(notes_dir, ".index");
    join_path(dir.as_str(), "notes.db")
}

/// `dir` joined with `name` (see `path_join`).
pub fn join_path(dir: &str, name: &str) -> (r: String)
    ensures
        r@ == path_join(dir@, name@),
{
    let v = chars_of(dir);
    if v.len() == 0 {
        return String::from_str(name);
    }
    let mut out = String::from_str(dir);
    if v[v.len() - 1] != '/' {
        out.append("/");
    }
    out.append(name);
    out
}

/// `s` with every non-overlapping occurrence of `p` removed, scanning from
/// the left (`str::replace(p, "")`).
pub open spec fn remove_all(s: Seq<char>, p: Seq<char>) -> Seq<char>
    decreases s.len(),
{
    if p.len() == 0 || s.len() < p.len() {
        s
    } else if s.take(p.len() as int) == p {
        remove_all(s.skip(p.len() as int), p)
    } else {
        seq![s[0]] + remove_all(s.drop_first(), p)
    }
}

fn remove_all_exec(s: &[char], p: &[char]) -> (r: Vec<char>)
    requires
        p@.len() > 0,
    ensures
        r@ == remove_all(s@, p@),
{
    let mut out: Vec<char> = Vec::new();
    let mut i: usize = 0;
    let slen = s.len();
    assert(s@.skip(0) =~= s@);
    while i < slen
        invariant
            slen == s@.len(),
            i <= s@.len(),
            p@.len() > 0,
            out@ + remove_all(s@.skip(i as int), p@) == remove_all(s@, p@),
        decreases s@.len() - i,
    {
        let ghost rest = s@.skip(i as int);
        let mut matched = p.len() <= s.len() - i;
        let mut j: usize = 0;
        while matched && j < p.len()
            invariant
                slen == s@.len(),
                i < s@.len(),
                j <= p@.len(),
                matched ==> i + p@.len() <= s@.len(),
                matched ==> forall|k: int| 0 <= k < j ==> s@[i + k] == p@[k],
                !matched ==> rest.take(p@.len() as int) != p@ || rest.len() < p@.len(),
                rest == s@.skip(i as int),
            decreases (p@.len() - j) + (if matched {
                1int
            } else {
                0int
            }),
        {
            assert(i + j < i + p@.len() <= s@.len());
            let idx: usize = i + j;
            if s[idx] != p[j] {
                assert(rest.take(p@.len() as int)[j as int] == s@[i + j]);
                matched = false;
            } else {
                j = j + 1;
            }
        }
        if matched {
            assert(rest.take(p@.len() as int) =~= p@);
            assert(rest.skip(p@.len() as int) =~= s@.skip(i + p@.len()));
            i = i + p.len();
        } else {
            assert(rest.drop_first() =~= s@.skip(i + 1));
            assert(rest[0] == s@[i as int]);
            let ghost before = out@;
            out.push(s[i]);
            assert(out@ + remove_all(s@.skip(i + 1), p@) =~= before + (seq![s@[i as int]]
                + remove_all(rest.drop_first(), p@)));
            i = i + 1;
        }
    }
    assert(remove_all(s@.skip(i as int), p@) =~= Seq::<char>::empty());
    assert(out@ + Seq::<char>::empty() =~= out@);
    out
}

/// Removes the bold markers `<b>` and `</b>` that search snippets carry.
pub fn strip_html_tags(s: &str) -> (r: String)
    ensures
        r@ == remove_all(remove_all(s@, "<b>"@), "</b>"@),
{
    proof {
        reveal_strlit("<b>");
        reveal_strlit("</b>");
    }
    let v = chars_of(s);
    let open_tag = chars_of("<b>");
    let close_tag = chars_of("</b>");
    let a = remove_all_exec(v.as_slice(), open_tag.as_slice());
    let b = remove_all_exec(a.as_slice(), close_tag.as_slice());
    string_from_chars(b.as_slice())
}

/// Newest first: `x` is inserted before the first element modified earlier
/// than it, after all that are as recent or more (a stable ordering).
pub open spec fn insert_by_modified(s: Seq<IndexedNoteView>, x: IndexedNoteView) -> Seq<IndexedNoteView>
    decreases s.len(),
{
    if s.len() == 0 {
        seq![x]
    } else if !ts_le(x.modified, s[0].modified) {
        seq![x] + s
    } else {
        seq![s[0]] + insert_by_modified(s.drop_first(), x)
    }
}

/// The notes ordered by modification time, most recent first; notes modified
/// at the same instant keep their order.
pub open spec fn newest_first(s: Seq<IndexedNoteView>) -> Seq<IndexedNoteView>
    decreases s.len(),
{
    if s.len() == 0 {
        s
    } else {
        insert_by_modified(newest_first(s.drop_last()), s.last())
    }
}

pub open spec fn sorted_newest_first(s: Seq<IndexedNoteView>) -> bool {
    forall|i: int, j: int| 0 <= i < j < s.len() ==> ts_le(s[j].modified, s[i].modified)
}

proof fn lemma_insert_by_modified_at(s: Seq<IndexedNoteView>, x: IndexedNoteView, k: int)
    requires
        0 <= k <= s.len(),
        forall|j: int| 0 <= j < k ==> ts_le(x.modified, #[trigger] s[j].modified),
        k < s.len() ==> !ts_le(x.modified, s[k].modified),
    ensures
        insert_by_modified(s, x) == s.insert(k, x),
    decreases s.len(),
{
    if s.len() == 0 {
        assert(s.insert(k, x) =~= seq![x]);
    } else if k == 0 {
        assert(s.insert(0, x) =~= seq![x] + s);
    } else {
        assert(ts_le(x.modified, s[0].modified));
        lemma_insert_by_modified_at(s.drop_first(), x, k - 1);
        assert(seq![s[0]] + s.drop_first().insert(k - 1, x) =~= s.insert(k, x));
    }
}

/// Inserting into a list ordered newest first keeps it ordered.
proof fn lemma_insert_keeps_order(s: Seq<IndexedNoteView>, x: IndexedNoteView)
    requires
        sorted_newest_first(s),
    ensures
        sorted_newest_first(insert_by_modified(s, x)),
        insert_by_modified(s, x).len() == s.len() + 1,
    decreases s.len(),
{
    if s.len() > 0 {
        if !ts_le(x.modified, s[0].modified) {
            let r = seq![x] + s;
            assert forall|i: int, j: int| 0 <= i < j < r.len() implies ts_le(r[j].modified, r[i].modified) by {
                if i == 0 {
                    assert(r[j] == s[j - 1]);
                    assert(ts_le(s[j - 1].modified, s[0].modified));
                } else {
                    assert(r[i] == s[i - 1] && r[j] == s[j - 1]);
                }
            }
        } else {
            let t = s.drop_first();
            assert(sorted_newest_first(t)) by {
                assert forall|i: int, j: int| 0 <= i < j < t.len() implies ts_le(t[j].modified, t[i].modified) by {
                    assert(t[i] == s[i + 1] && t[j] == s[j + 1]);
                }
            }
            lemma_insert_keeps_order(t, x);
            lemma_insert_members(t, x);
            let r = seq![s[0]] + insert_by_modified(t, x);
            assert forall|i: int, j: int| 0 <= i < j < r.len() implies ts_le(r[j].modified, r[i].modified) by {
                if i == 0 {
                    let y = insert_by_modified(t, x)[j - 1];
                    assert(y == x || t.contains(y));
                    if y != x {
                        let m = choose|m: int| 0 <= m < t.len() && t[m] == y;
                        assert(s[m + 1] == y);
                    }
                }
            }
        }
    }
}

proof fn lemma_insert_members(s: Seq<IndexedNoteView>, x: IndexedNoteView)
    ensures
        forall|i: int| 0 <= i < insert_by_modified(s, x).len() ==> (#[trigger] insert_by_modified(s, x)[i] == x
            || s.contains(insert_by_modified(s, x)[i])),
        insert_by_modified(s, x).len() == s.len() + 1,
    decreases s.len(),
{
    if s.len() > 0 {
        if ts_le(x.modified, s[0].modified) {
            let t = s.drop_first();
            lemma_insert_members(t, x);
            let r = insert_by_modified(s, x);
            assert forall|i: int| 0 <= i < r.len() implies (#[trigger] r[i] == x || s.contains(r[i])) by {
                if i == 0 {
                    assert(s[0] == r[0]);
                } else {
                    let y = insert_by_modified(t, x)[i - 1];
                    assert(r[i] == y);
                    if y != x {
                        let m = choose|m: int| 0 <= m < t.len() && t[m] == y;
                        assert(s[m + 1] == y);
                    }
                }
            }
        } else {
            let r = insert_by_modified(s, x);
            assert forall|i: int| 0 <= i < r.len() implies (#[trigger] r[i] == x || s.contains(r[i])) by {
                if i > 0 {
                    assert(r[i] == s[i - 1]);
                }
            }
        }
    }
}

/// The listing order is newest first: the ordered notes are sorted by
/// modification time, most recent first, and none is lost or added.
pub proof fn lemma_newest_first_sorted(s: Seq<IndexedNoteView>)
    ensures
        sorted_newest_first(newest_first(s)),
        newest_first(s).len() == s.len(),
    decreases s.len(),
{
    if s.len() > 0 {
        lemma_newest_first_sorted(s.drop_last());
        lemma_insert_keeps_order(newest_first(s.drop_last()), s.last());
    }
}

proof fn lemma_insert_contains(s: Seq<IndexedNoteView>, x: IndexedNoteView, y: IndexedNoteView)
    ensures
        insert_by_modified(s, x).contains(y) <==> (y == x || s.contains(y)),
    decreases s.len(),
{
    lemma_insert_members(s, x);
    let r = insert_by_modified(s, x);
    if s.len() == 0 {
        assert(r[0] == x);
    } else if !ts_le(x.modified, s[0].modified) {
        assert(r[0] == x);
        if s.contains(y) {
            let m = choose|m: int| 0 <= m < s.len() && s[m] == y;
            assert(r[m + 1] == y);
        }
    } else {
        let t = s.drop_first();
        lemma_insert_contains(t, x, y);
        let q = insert_by_modified(t, x);
        assert(r == seq![s[0]] + q);
        if y == x {
            let m = choose|m: int| 0 <= m < q.len() && q[m] == y;
            assert(r[m + 1] == y);
        } else if s.contains(y) {
            let m = choose|m: int| 0 <= m < s.len() && s[m] == y;
            if m == 0 {
                assert(r[0] == y);
            } else {
                assert(t[m - 1] == y);
                let k = choose|k: int| 0 <= k < q.len() && q[k] == y;
                assert(r[k + 1] == y);
            }
        }
        if r.contains(y) {
            let k = choose|k: int| 0 <= k < r.len() && r[k] == y;
            assert(y == x || s.contains(y));
        }
    }
}

/// Ordering newest first keeps exactly the notes it is given.
pub proof fn lemma_newest_first_contains(s: Seq<IndexedNoteView>, y: IndexedNoteView)
    ensures
        newest_first(s).contains(y) <==> s.contains(y),
    decreases s.len(),
{
    if s.len() > 0 {
        let p = s.drop_last();
        lemma_newest_first_contains(p, y);
        lemma_insert_contains(newest_first(p), s.last(), y);
        if s.contains(y) && y != s.last() {
            let m = choose|m: int| 0 <= m < s.len() && s[m] == y;
            assert(p[m] == y);
        }
        if p.contains(y) {
            let m = choose|m: int| 0 <= m < p.len() && p[m] == y;
            assert(s[m] == y);
        }
        assert(s[s.len() - 1] == s.last());
    }
}

proof fn lemma_filter_membership(
    s: Seq<IndexedNoteView>,
    p: spec_fn(IndexedNoteView) -> bool,
    x: IndexedNoteView,
)
    ensures
        s.filter(p).contains(x) <==> (s.contains(x) && p(x)),
{
    if s.filter(p).contains(x) {
        s.lemma_filter_contains_rev(p, x);
        let k = choose|k: int| 0 <= k < s.filter(p).len() && s.filter(p)[k] == x;
        s.lemma_filter_pred(p, k);
    }
    if s.contains(x) && p(x) {
        let i = choose|i: int| 0 <= i < s.len() && s[i] == x;
        s.lemma_filter_contains(p, i);
    }
}

/// The `--modified` filter keeps exactly the notes modified at or after its
/// threshold: with it, `ls` lists a note exactly when `ls` without it lists
/// the note and the threshold is at or before the note's modification time
/// (its creation time plays no part).
pub proof fn lemma_listing_modified_filter(
    idx: Seq<IndexedNoteView>,
    topic: Option<Seq<char>>,
    tags: Seq<Seq<char>>,
    created: Option<Seq<char>>,
    modified: Seq<char>,
    include_archived: bool,
    now: Timestamp,
    n: IndexedNoteView,
)
    requires
        listing_spec(idx, topic, tags, created, Some(modified), include_archived, now) is Ok,
    ensures
        date_filter_spec(modified, now) is Ok,
        listing_spec(idx, topic, tags, created, None, include_archived, now) is Ok,
        listing_spec(idx, topic, tags, created, Some(modified), include_archived, now)->Ok_0.contains(n) <==> (
        listing_spec(idx, topic, tags, created, None, include_archived, now)->Ok_0.contains(n) && ts_le(
            date_filter_spec(modified, now)->Ok_0,
            n.modified,
        )),
{
    let tf: Option<(Seq<Seq<char>>, bool)> = match topic {
        Some(ta) => Some((topic_parse(topic_filter_spec(ta).0)->Ok_0, topic_filter_spec(ta).1)),
        None => None,
    };
    let ts = parse_all_tags(tags)->Ok_0;
    let ct: Option<Timestamp> = match created {
        Some(cs) => Some(date_filter_spec(cs, now)->Ok_0),
        None => None,
    };
    let t = date_filter_spec(modified, now)->Ok_0;
    let p1 = |x: IndexedNoteView| listing_keeps(x, tf, ts, ct, Some(t), include_archived);
    let p0 = |x: IndexedNoteView| listing_keeps(x, tf, ts, ct, None, include_archived);
    assert(listing_spec(idx, topic, tags, created, Some(modified), include_archived, now) == Ok::<
        Seq<IndexedNoteView>,
        Seq<char>,
    >(newest_first(idx.filter(p1))));
    assert(listing_spec(idx, topic, tags, created, None, include_archived, now) == Ok::<
        Seq<IndexedNoteView>,
        Seq<char>,
    >(newest_first(idx.filter(p0))));
    lemma_newest_first_contains(idx.filter(p1), n);
    lemma_newest_first_contains(idx.filter(p0), n);
    lemma_filter_membership(idx, p1, n);
    lemma_filter_membership(idx, p0, n);
}

/// The `--created` filter keeps exactly the notes created at or after its
/// threshold: with it, `ls` lists a note exactly when `ls` without it lists
/// the note and the threshold is at or before the note's creation time.
pub proof fn lemma_listing_created_filter(
    idx: Seq<IndexedNoteView>,
    topic: Option<Seq<char>>,
    tags: Seq<Seq<char>>,
    created: Seq<char>,
    modified: Option<Seq<char>>,
    include_archived: bool,
    now: Timestamp,
    n: IndexedNoteView,
)
    requires
        listing_spec(idx, topic, tags, Some(created), modified, include_archived, now) is Ok,
    ensures
        date_filter_spec(created, now) is Ok,
        listing_spec(idx, topic, tags, None, modified, include_archived, now) is Ok,
        listing_spec(idx, topic, tags, Some(created), modified, include_archived, now)->Ok_0.contains(n) <==> (
        listing_spec(idx, topic, tags, None, modified, include_archived, now)->Ok_0.contains(n) && ts_le(
            date_filter_spec(created, now)->Ok_0,
            n.created,
        )),
{
    let tf: Option<(Seq<Seq<char>>, bool)> = match topic {
        Some(ta) => Some((topic_parse(topic_filter_spec(ta).0)->Ok_0, topic_filter_spec(ta).1)),
        None => None,
    };
    let ts = parse_all_tags(tags)->Ok_0;
    let mt: Option<Timestamp> = match modified {
        Some(ms) => Some(date_filter_spec(ms, now)->Ok_0),
        None => None,
    };
    let t = date_filter_spec(created, now)->Ok_0;
    let p1 = |x: IndexedNoteView| listing_keeps(x, tf, ts, Some(t), mt, include_archived);
    let p0 = |x: IndexedNoteView| listing_keeps(x, tf, ts, None, mt, include_archived);
    assert(listing_spec(idx, topic, tags, Some(created), modified, include_archived, now) == Ok::<
        Seq<IndexedNoteView>,
        Seq<char>,
    >(newest_first(idx.filter(p1))));
    assert(listing_spec(idx, topic, tags, None, modified, include_archived, now) == Ok::<
        Seq<IndexedNoteView>,
        Seq<char>,
    >(newest_first(idx.filter(p0))));
    lemma_newest_first_contains(idx.filter(p1), n);
    lemma_newest_first_contains(idx.filter(p0), n);
    lemma_filter_membership(idx, p1, n);
    lemma_filter_membership(idx, p0, n);
}

/// Archived notes are hidden unless asked for: without `--include-archived`,
/// `ls` lists a note exactly when it lists it with that option and the note
/// is not tagged `archived`.
pub proof fn lemma_listing_hides_archived(
    idx: Seq<IndexedNoteView>,
    topic: Option<Seq<char>>,
    tags: Seq<Seq<char>>,
    created: Option<Seq<char>>,
    modified: Option<Seq<char>>,
    now: Timestamp,
    n: IndexedNoteView,
)
    requires
        listing_spec(idx, topic, tags, created, modified, true, now) is Ok,
    ensures
        listing_spec(idx, topic, tags, created, modified, false, now) is Ok,
        listing_spec(idx, topic, tags, created, modified, false, now)->Ok_0.contains(n) <==> (
        listing_spec(idx, topic, tags, created, modified, true, now)->Ok_0.contains(n)
            && !n.tags.contains("archived"@)),
{
    let tf: Option<(Seq<Seq<char>>, bool)> = match topic {
        Some(ta) => Some((topic_parse(topic_filter_spec(ta).0)->Ok_0, topic_filter_spec(ta).1)),
        None => None,
    };
    let ts = parse_all_tags(tags)->Ok_0;
    let ct: Option<Timestamp> = match created {
        Some(cs) => Some(date_filter_spec(cs, now)->Ok_0),
        None => None,
    };
    let mt: Option<Timestamp> = match modified {
        Some(ms) => Some(date_filter_spec(ms, now)->Ok_0),
        None => None,
    };
    let p1 = |x: IndexedNoteView| listing_keeps(x, tf, ts, ct, mt, false);
    let p0 = |x: IndexedNoteView| listing_keeps(x, tf, ts, ct, mt, true);
    assert(listing_spec(idx, topic, tags, created, modified, false, now) == Ok::<
        Seq<IndexedNoteView>,
        Seq<char>,
    >(newest_first(idx.filter(p1))));
    assert(listing_spec(idx, topic, tags, created, modified, true, now) == Ok::<
        Seq<IndexedNoteView>,
        Seq<char>,
    >(newest_first(idx.filter(p0))));
    lemma_newest_first_contains(idx.filter(p1), n);
    lemma_newest_first_contains(idx.filter(p0), n);
    lemma_filter_membership(idx, p1, n);
    lemma_filter_membership(idx, p0, n);
}

proof fn lemma_parse_all_tags_ok(strs: Seq<Seq<char>>)
    requires
        parse_all_tags(strs) is Ok,
    ensures
        parse_all_tags(strs)->Ok_0.len() == strs.len(),
        forall|i: int| 0 <= i < strs.len() ==> parse_all_tags(strs)->Ok_0[i] == tag_normal_form(#[trigger] strs[i]),
    decreases strs.len(),
{
    if strs.len() > 0 {
        let p = strs.drop_last();
        lemma_parse_all_tags_ok(p);
        assert forall|i: int| 0 <= i < strs.len() implies parse_all_tags(strs)->Ok_0[i] == tag_normal_form(
            #[trigger] strs[i],
        ) by {
            if i < strs.len() - 1 {
                assert(p[i] == strs[i]);
            }
        }
    }
}

/// The tag filter keeps exactly the notes carrying every given tag: with
/// tags, `ls` lists a note exactly when `ls` without them lists it and the
/// note carries each tag (trimmed and lowercased).
pub proof fn lemma_listing_tag_filter(
    idx: Seq<IndexedNoteView>,
    topic: Option<Seq<char>>,
    tags: Seq<Seq<char>>,
    created: Option<Seq<char>>,
    modified: Option<Seq<char>>,
    include_archived: bool,
    now: Timestamp,
    n: IndexedNoteView,
)
    requires
        listing_spec(idx, topic, tags, created, modified, include_archived, now) is Ok,
    ensures
        listing_spec(idx, topic, Seq::empty(), created, modified, include_archived, now) is Ok,
        listing_spec(idx, topic, tags, created, modified, include_archived, now)->Ok_0.contains(n) <==> (
        listing_spec(idx, topic, Seq::empty(), created, modified, include_archived, now)->Ok_0.contains(n)
            && forall|i: int| 0 <= i < tags.len() ==> n.tags.contains(tag_normal_form(#[trigger] tags[i]))),
{
    let tf: Option<(Seq<Seq<char>>, bool)> = match topic {
        Some(ta) => Some((topic_parse(topic_filter_spec(ta).0)->Ok_0, topic_filter_spec(ta).1)),
        None => None,
    };
    let ts = parse_all_tags(tags)->Ok_0;
    lemma_parse_all_tags_ok(tags);
    let ct: Option<Timestamp> = match created {
        Some(cs) => Some(date_filter_spec(cs, now)->Ok_0),
        None => None,
    };
    let mt: Option<Timestamp> = match modified {
        Some(ms) => Some(date_filter_spec(ms, now)->Ok_0),
        None => None,
    };
    let e = Seq::<Seq<char>>::empty();
    assert(parse_all_tags(e) == Ok::<Seq<Seq<char>>, int>(e));
    let p1 = |x: IndexedNoteView| listing_keeps(x, tf, ts, ct, mt, include_archived);
    let p0 = |x: IndexedNoteView| listing_keeps(x, tf, e, ct, mt, include_archived);
    assert(listing_spec(idx, topic, tags, created, modified, include_archived, now) == Ok::<
        Seq<IndexedNoteView>,
        Seq<char>,
    >(newest_first(idx.filter(p1))));
    assert(listing_spec(idx, topic, e, created, modified, include_archived, now) == Ok::<
        Seq<IndexedNoteView>,
        Seq<char>,
    >(newest_first(idx.filter(p0))));
    lemma_newest_first_contains(idx.filter(p1), n);
    lemma_newest_first_contains(idx.filter(p0), n);
    lemma_filter_membership(idx, p1, n);
    lemma_filter_membership(idx, p0, n);
    assert(has_all_tags(n, ts) <==> forall|i: int| 0 <= i < tags.len() ==> n.tags.contains(
        tag_normal_form(#[trigger] tags[i]),
    )) by {
        if has_all_tags(n, ts) {
            assert forall|i: int| 0 <= i < tags.len() implies n.tags.contains(tag_normal_form(#[trigger] tags[i])) by {
                assert(tag_match(n, ts[i]));
            }
        }
        if forall|i: int| 0 <= i < tags.len() ==> n.tags.contains(tag_normal_form(#[trigger] tags[i])) {
            assert forall|i: int| 0 <= i < ts.len() implies tag_match(n, #[trigger] ts[i]) by {
                assert(n.tags.contains(tag_normal_form(tags[i])));
            }
        }
    }
}

/// The topic filter keeps exactly the notes with a matching topic: with a
/// topic, `ls` lists a note exactly when `ls` without it lists the note and
/// one of the note's topics is the filter's topic (or, for a filter ending
/// in `/`, lies below it).
pub proof fn lemma_listing_topic_filter(
    idx: Seq<IndexedNoteView>,
    topic: Seq<char>,
    tags: Seq<Seq<char>>,
    created: Option<Seq<char>>,
    modified: Option<Seq<char>>,
    include_archived: bool,
    now: Timestamp,
    n: IndexedNoteView,
)
    requires
        listing_spec(idx, Some(topic), tags, created, modified, include_archived, now) is Ok,
    ensures
        topic_parse(topic_filter_spec(topic).0) is Ok,
        listing_spec(idx, None, tags, created, modified, include_archived, now) is Ok,
        listing_spec(idx, Some(topic), tags, created, modified, include_archived, now)->Ok_0.contains(n) <==> (
        listing_spec(idx, None, tags, created, modified, include_archived, now)->Ok_0.contains(n) && topic_match(
            n,
            topic_parse(topic_filter_spec(topic).0)->Ok_0,
            topic_filter_spec(topic).1,
        )),
{
    let tf = Some((topic_parse(topic_filter_spec(topic).0)->Ok_0, topic_filter_spec(topic).1));
    let ts = parse_all_tags(tags)->Ok_0;
    let ct: Option<Timestamp> = match created {
        Some(cs) => Some(date_filter_spec(cs, now)->Ok_0),
        None => None,
    };
    let mt: Option<Timestamp> = match modified {
        Some(ms) => Some(date_filter_spec(ms, now)->Ok_0),
        None => None,
    };
    let p1 = |x: IndexedNoteView| listing_keeps(x, tf, ts, ct, mt, include_archived);
    let p0 = |x: IndexedNoteView| listing_keeps(x, None, ts, ct, mt, include_archived);
    assert(listing_spec(idx, Some(topic), tags, created, modified, include_archived, now) == Ok::<
        Seq<IndexedNoteView>,
        Seq<char>,
    >(newest_first(idx.filter(p1))));
    assert(listing_spec(idx, None, tags, created, modified, include_archived, now) == Ok::<
        Seq<IndexedNoteView>,
        Seq<char>,
    >(newest_first(idx.filter(p0))));
    lemma_newest_first_contains(idx.filter(p1), n);
    lemma_newest_first_contains(idx.filter(p0), n);
    lemma_filter_membership(idx, p1, n);
    lemma_filter_membership(idx, p0, n);
}

/// Without filters, and with archived notes included, `ls` lists every note
/// of the index, each as often as the index holds it.
pub proof fn lemma_listing_unfiltered(idx: Seq<IndexedNoteView>, now: Timestamp, n: IndexedNoteView)
    ensures
        listing_spec(idx, None, Seq::empty(), None, None, true, now) is Ok,
        listing_spec(idx, None, Seq::empty(), None, None, true, now)->Ok_0.contains(n) <==> idx.contains(n),
        listing_spec(idx, None, Seq::empty(), None, None, true, now)->Ok_0.len() == idx.len(),
{
    let e = Seq::<Seq<char>>::empty();
    assert(parse_all_tags(e) == Ok::<Seq<Seq<char>>, int>(e));
    let p = |x: IndexedNoteView| listing_keeps(x, None, e, None, None, true);
    assert(listing_spec(idx, None, e, None, None, true, now) == Ok::<Seq<IndexedNoteView>, Seq<char>>(
        newest_first(idx.filter(p)),
    ));
    assert(idx.filter(p) == idx) by {
        assert forall|x: IndexedNoteView| #[trigger] p(x) by {
            assert(has_all_tags(x, e));
        }
        lemma_filter_all(idx, p);
    }
    lemma_newest_first_contains(idx, n);
    lemma_newest_first_sorted(idx);
}

proof fn lemma_filter_all(s: Seq<IndexedNoteView>, p: spec_fn(IndexedNoteView) -> bool)
    requires
        forall|x: IndexedNoteView| #[trigger] p(x),
    ensures
        s.filter(p) == s,
    decreases s.len(),
{
    reveal(Seq::filter);
    if s.len() > 0 {
        lemma_filter_all(s.drop_last(), p);
        assert(s.drop_last().push(s.last()) =~= s);
    } else {
        assert(s.filter(p) =~= s);
    }
}

/// `ls` lists newest first: the listed notes are ordered by modification
/// time, most recent first.
pub proof fn lemma_listing_newest_first(
    idx: Seq<IndexedNoteView>,
    topic: Option<Seq<char>>,
    tags: Seq<Seq<char>>,
    created: Option<Seq<char>>,
    modified: Option<Seq<char>>,
    include_archived: bool,
    now: Timestamp,
)
    requires
        listing_spec(idx, topic, tags, created, modified, include_archived, now) is Ok,
    ensures
        forall|i: int, j: int|
            0 <= i < j < listing_spec(idx, topic, tags, created, modified, include_archived, now)->Ok_0.len()
                ==> ts_le(
                listing_spec(idx, topic, tags, created, modified, include_archived, now)->Ok_0[j].modified,
                listing_spec(idx, topic, tags, created, modified, include_archived, now)->Ok_0[i].modified,
            ),
{
    let tf: Option<(Seq<Seq<char>>, bool)> = match topic {
        Some(ta) => Some((topic_parse(topic_filter_spec(ta).0)->Ok_0, topic_filter_spec(ta).1)),
        None => None,
    };
    let ts = parse_all_tags(tags)->Ok_0;
    let ct: Option<Timestamp> = match created {
        Some(cs) => Some(date_filter_spec(cs, now)->Ok_0),
        None => None,
    };
    let mt: Option<Timestamp> = match modified {
        Some(ms) => Some(date_filter_spec(ms, now)->Ok_0),
        None => None,
    };
    let p = |x: IndexedNoteView| listing_keeps(x, tf, ts, ct, mt, include_archived);
    assert(listing_spec(idx, topic, tags, created, modified, include_archived, now) == Ok::<
        Seq<IndexedNoteView>,
        Seq<char>,
    >(newest_first(idx.filter(p))));
    lemma_newest_first_sorted(idx.filter(p));
}

/// Orders notes by modification time, most recent first, keeping the order
/// of notes modified at the same instant.
pub fn sort_newest_first(notes: Vec<IndexedNote>) -> (r: Vec<IndexedNote>)
    ensures
        notes_view(r@) == newest_first(notes_view(notes@)),
{
    let ghost nv = notes_view(notes@);
    let mut out: Vec<IndexedNote> = Vec::new();
    let mut rest = notes;
    let mut i: usize = 0;
    let n = rest.len();
    assert(nv.take(0) =~= Seq::<IndexedNoteView>::empty());
    assert(notes_view(out@) =~= newest_first(nv.take(0)));
    while i < n
        invariant
            n == nv.len(),
            i <= n,
            rest@.len() == n,
            notes_view(rest@) == nv,
            notes_view(out@) == newest_first(nv.take(i as int)),
            sorted_newest_first(notes_view(out@)),
        decreases n - i,
    {
        let x = rest[i].clone();
        let ghost ov = notes_view(out@);
        let mut k: usize = 0;
        while k < out.len() && x.modified().is_at_or_before(&out[k].modified())
            invariant
                k <= out@.len(),
                ov == notes_view(out@),
                forall|j: int| 0 <= j < k ==> ts_le(x@.modified, #[trigger] ov[j].modified),
            decreases out@.len() - k,
        {
            assert(ov[k as int] == out@[k as int]@);
            k = k + 1;
        }
        assert(k < ov.len() ==> ov[k as int] == out@[k as int]@);
        proof {
            lemma_insert_by_modified_at(ov, x@, k as int);
            lemma_newest_first_sorted(nv.take(i + 1));
            assert(nv.take(i + 1).drop_last() =~= nv.take(i as int));
            assert(nv.take(i + 1).last() == x@);
        }
        let ghost xv = x@;
        out.insert(k, x);
        assert(notes_view(out@) =~= ov.insert(k as int, xv));
        i = i + 1;
    }
    assert(nv.take(n as int) =~= nv);
    out
}

/// Why a listing or a search was refused.
#[derive(Debug)]
pub struct ListError(String);

impl View for ListError {
    type V = Seq<char>;

    closed spec fn view(&self) -> Seq<char> {
        self.0@
    }
}

impl ListError {
    pub fn to_string(&self) -> (r: String)
        ensures
            r@ == self@,
    {
        self.0.clone()
    }
}

fn list_error(prefix: &str, detail: &str) -> (r: ListError)
    ensures
        r@ == prefix@ + detail@,
{
    let mut s = String::from_str(prefix);
    s.append(detail);
    ListError(s)
}

/// Parsing each tag text in turn: the tags, or the position of the first
/// text that is no valid tag.
pub open spec fn parse_all_tags(strs: Seq<Seq<char>>) -> Result<Seq<Seq<char>>, int>
    decreases strs.len(),
{
    if strs.len() == 0 {
        Ok(Seq::empty())
    } else {
        match parse_all_tags(strs.drop_last()) {
            Ok(acc) => if tag_accepts(strs.last()) {
                Ok(acc.push(tag_normal_form(strs.last())))
            } else {
                Err(strs.len() - 1)
            },
            Err(k) => Err(k),
        }
    }
}

proof fn lemma_parse_all_tags_err_stays(strs: Seq<Seq<char>>, n: int, k: int)
    requires
        0 <= n <= strs.len(),
        parse_all_tags(strs.take(n)) == Err::<Seq<Seq<char>>, int>(k),
    ensures
        parse_all_tags(strs) == Err::<Seq<Seq<char>>, int>(k),
    decreases strs.len() - n,
{
    if n == strs.len() {
        assert(strs.take(n) =~= strs);
    } else {
        assert(strs.take(n + 1).drop_last() =~= strs.take(n));
        lemma_parse_all_tags_err_stays(strs, n + 1, k);
    }
}

pub open spec fn tag_views(v: Seq<Tag>) -> Seq<Seq<char>> {
    v.map_values(|t: Tag| t@)
}

/// Parses tag texts; on failure, the position of the first invalid one.
fn parse_tag_list(strs: &[String]) -> (r: Result<Vec<Tag>, usize>)
    ensures
        match parse_all_tags(strings_view(strs@)) {
            Ok(ts) => r matches Ok(v) && tag_views(v@) == ts,
            Err(k) => r matches Err(p) && p == k && 0 <= k < strs@.len(),
        },
{
    let ghost sv = strings_view(strs@);
    let mut tags: Vec<Tag> = Vec::new();
    let mut i: usize = 0;
    assert(sv.take(0) =~= Seq::<Seq<char>>::empty());
    assert(tag_views(tags@) =~= Seq::<Seq<char>>::empty());
    while i < strs.len()
        invariant
            i <= strs@.len(),
            sv == strings_view(strs@),
            parse_all_tags(sv.take(i as int)) == Ok::<Seq<Seq<char>>, int>(tag_views(tags@)),
        decreases strs@.len() - i,
    {
        assert(sv.take(i + 1).drop_last() =~= sv.take(i as int));
        assert(sv.take(i + 1).last() == strs@[i as int]@);
        match Tag::new(strs[i].as_str()) {
            Ok(t) => {
                let ghost before = tags@;
                tags.push(t);
                assert(tag_views(tags@) =~= tag_views(before).push(t@));
            },
            Err(_) => {
                proof {
                    lemma_parse_all_tags_err_stays(sv, i + 1, i as int);
                }
                return Err(i);
            },
        }
        i = i + 1;
    }
    assert(sv.take(sv.len() as int) =~= sv);
    Ok(tags)
}

/// The note carries every tag of the list.
pub open spec fn has_all_tags(n: IndexedNoteView, tags: Seq<Seq<char>>) -> bool {
    forall|i: int| 0 <= i < tags.len() ==> tag_match(n, #[trigger] tags[i])
}

/// Whether the note carries every one of `tags`.
pub fn note_has_all_tags(n: &IndexedNote, tags: &[Tag]) -> (r: bool)
    ensures
        r == has_all_tags(n@, tag_views(tags@)),
{
    let mut i: usize = 0;
    while i < tags.len()
        invariant
            i <= tags@.len(),
            forall|j: int| 0 <= j < i ==> tag_match(n@, #[trigger] tag_views(tags@)[j]),
        decreases tags@.len() - i,
    {
        if !note_has_tag(n, &tags[i]) {
            assert(!tag_match(n@, tag_views(tags@)[i as int]));
            return false;
        }
        i = i + 1;
    }
    true
}

/// Whether a listed note passes the filters.
pub open spec fn listing_keeps(
    n: IndexedNoteView,
    topic: Option<(Seq<Seq<char>>, bool)>,
    tags: Seq<Seq<char>>,
    created: Option<Timestamp>,
    modified: Option<Timestamp>,
    include_archived: bool,
) -> bool {
    &&& (include_archived || !tag_match(n, "archived"@))
    &&& match topic {
        Some(f) => topic_match(n, f.0, f.1),
        None => true,
    }
    &&& has_all_tags(n, tags)
    &&& match created {
        Some(t) => ts_le(t, n.created),
        None => true,
    }
    &&& match modified {
        Some(t) => ts_le(t, n.modified),
        None => true,
    }
}

/// What `ls` lists, or why it refuses: the topic filter is checked first,
/// then the tags in order, then the `--created` and `--modified` filters;
/// the notes that pass every filter (and, unless asked for, are not
/// archived) are listed newest first.
pub open spec fn listing_spec(
    idx: Seq<IndexedNoteView>,
    topic: Option<Seq<char>>,
    tags: Seq<Seq<char>>,
    created: Option<Seq<char>>,
    modified: Option<Seq<char>>,
    include_archived: bool,
    now: Timestamp,
) -> Result<Seq<IndexedNoteView>, Seq<char>> {
    let topic_res: Result<Option<(Seq<Seq<char>>, bool)>, Seq<char>> = match topic {
        Some(ta) => {
            let (path, desc) = topic_filter_spec(ta);
            match topic_parse(path) {
                Ok(t) => Ok(Some((t, desc))),
                Err(_) => Err("invalid topic: "@ + path),
            }
        },
        None => Ok(None),
    };
    match topic_res {
        Err(m) => Err(m),
        Ok(tf) => match parse_all_tags(tags) {
            Err(k) => Err("invalid tag: "@ + tags[k]),
            Ok(ts) => {
                let c: Result<Option<Timestamp>, Seq<char>> = match created {
                    Some(cs) => match date_filter_spec(cs, now) {
                        Ok(t) => Ok(Some(t)),
                        Err(m) => Err("invalid --created filter: "@ + m),
                    },
                    None => Ok(None),
                };
                let m: Result<Option<Timestamp>, Seq<char>> = match modified {
                    Some(ms) => match date_filter_spec(ms, now) {
                        Ok(t) => Ok(Some(t)),
                        Err(e) => Err("invalid --modified filter: "@ + e),
                    },
                    None => Ok(None),
                };
                match c {
                    Err(e) => Err(e),
                    Ok(ct) => match m {
                        Err(e) => Err(e),
                        Ok(mt) => Ok(
                            newest_first(
                                idx.filter(
                                    |n: IndexedNoteView| listing_keeps(n, tf, ts, ct, mt, include_archived),
                                ),
                            ),
                        ),
                    },
                }
            },
        },
    }
}

pub open spec fn opt_string_view(o: Option<String>) -> Option<Seq<char>> {
    match o {
        Some(s) => Some(s@),
        None => None,
    }
}

pub open spec fn topic_filter_view(o: Option<(Topic, bool)>) -> Option<(Seq<Seq<char>>, bool)> {
    match o {
        Some(p) => Some((p.0@, p.1)),
        None => None,
    }
}

pub open spec fn threshold_view(o: Option<DateFilter>) -> Option<Timestamp> {
    match o {
        Some(f) => Some(f.spec_threshold()),
        None => None,
    }
}

/// Parses an optional date filter, prefixing a refusal with `what`.
fn parse_date_option(s: &Option<String>, now: Timestamp, what: &str) -> (r: Result<
    Option<DateFilter>,
    ListError,
>)
    requires
        now.wf(),
        s matches Some(t) ==> relative_in_range(t@, now),
    ensures
        match opt_string_view(*s) {
            Some(t) => match date_filter_spec(t, now) {
                Ok(th) => r matches Ok(Some(f)) && f.spec_threshold() == th,
                Err(m) => r matches Err(e) && e@ == what@ + m,
            },
            None => r matches Ok(None),
        },
{
    match s {
        Some(t) => match DateFilter::parse(t.as_str(), now) {
            Ok(f) => Ok(Some(f)),
            Err(e) => Err(list_error(what, e.as_str())),
        },
        None => Ok(None),
    }
}

/// The decisions of `ls`: the notes it shows for `args`, newest first, or why it refuses them
/// (see `listing_spec`).  Relative dates count back from `now`.
pub fn handle_list(index: &NoteIndex, args: &ListArgs, now: Timestamp) -> (r: Result<
    Vec<IndexedNote>,
    ListError,
>)
    requires
        now.wf(),
        args.created matches Some(c) ==> relative_in_range(c@, now),
        args.modified matches Some(m) ==> relative_in_range(m@, now),
    ensures
        match listing_spec(
            index@,
            opt_string_view(args.topic),
            strings_view(args.tags@),
            opt_string_view(args.created),
            opt_string_view(args.modified),
            args.include_archived,
            now,
        ) {
            Ok(v) => r matches Ok(notes) && notes_view(notes@) == v,
            Err(m) => r matches Err(e) && e@ == m,
        },
{
    let topic_filter: Option<(Topic, bool)> = match &args.topic {
        Some(ta) => {
            let (path, desc) = parse_topic_filter(ta.as_str());
            match Topic::new(path.as_str()) {
                Ok(t) => Some((t, desc)),
                Err(_) => {
                    return Err(list_error("invalid topic: ", path.as_str()));
                },
            }
        },
        None => None,
    };
    let ghost tf = topic_filter_view(topic_filter);
    let tags = match parse_tag_list(args.tags.as_slice()) {
        Ok(t) => t,
        Err(k) => {
            return Err(list_error("invalid tag: ", args.tags[k].as_str()));
        },
    };
    let created = parse_date_option(&args.created, now, "invalid --created filter: ");
    let created = match created {
        Ok(c) => c,
        Err(e) => {
            return Err(e);
        },
    };
    let modified = parse_date_option(&args.modified, now, "invalid --modified filter: ");
    let modified = match modified {
        Ok(m) => m,
        Err(e) => {
            return Err(e);
        },
    };
    let ghost ct = threshold_view(created);
    let ghost mt = threshold_view(modified);
    let ghost ts = tag_views(tags@);
    let ghost keep = |n: IndexedNoteView| listing_keeps(n, tf, ts, ct, mt, args.include_archived);
    let archived = crate::cli::tagging::archived_tag();
    let all = index.list_all();
    let ghost idx = index@;
    let mut kept: Vec<IndexedNote> = Vec::new();
    let mut i: usize = 0;
    assert(idx.take(0).filter(keep) =~= Seq::<IndexedNoteView>::empty());
    assert(notes_view(kept@) =~= Seq::<IndexedNoteView>::empty());
    while i < all.len()
        invariant
            i <= all@.len(),
            notes_view(all@) == idx,
            keep == (|n: IndexedNoteView| listing_keeps(n, tf, ts, ct, mt, args.include_archived)),
            archived@ == "archived"@,
            ts == tag_views(tags@),
            tf == topic_filter_view(topic_filter),
            ct == threshold_view(created),
            mt == threshold_view(modified),
            notes_view(kept@) == idx.take(i as int).filter(keep),
        decreases all@.len() - i,
    {
        let n = &all[i];
        assert(idx[i as int] == n@);
        assert(idx.take(i + 1) =~= idx.take(i as int).push(n@));
        proof {
            idx.take(i as int).lemma_filter_push(n@, keep);
        }
        let topic_ok = match &topic_filter {
            Some(p) => note_matches_topic(n, &p.0, p.1),
            None => true,
        };
        let created_ok = match &created {
            Some(f) => f.matches(n.created()),
            None => true,
        };
        let modified_ok = match &modified {
            Some(f) => f.matches(n.modified()),
            None => true,
        };
        let shown = args.include_archived || !crate::cli::index::note_has_tag(n, &archived);
        if shown && topic_ok && note_has_all_tags(n, tags.as_slice()) && created_ok && modified_ok {
            let ghost before = kept@;
            kept.push(n.clone());
            assert(notes_view(kept@) =~= notes_view(before).push(n@));
        }
        i = i + 1;
    }
    assert(idx.take(idx.len() as int) =~= idx);
    Ok(sort_newest_first(kept))
}

/// The positions of the search results that pass the filters: the topic
/// filter, every tag (all tags are checked before filtering), and, unless
/// archived notes are included, not carrying the `archived` tag.
pub open spec fn search_keeps(
    n: IndexedNoteView,
    topic: Option<(Seq<Seq<char>>, bool)>,
    tags: Seq<Seq<char>>,
    include_archived: bool,
) -> bool {
    &&& match topic {
        Some(f) => topic_match(n, f.0, f.1),
        None => true,
    }
    &&& has_all_tags(n, tags)
    &&& (include_archived || !tag_match(n, "archived"@))
}

/// The positions `0 <= i < len` with `keep(i)`, in increasing order.
pub open spec fn positions_where(len: nat, keep: spec_fn(int) -> bool) -> Seq<int>
    decreases len,
{
    if len == 0 {
        Seq::empty()
    } else {
        let prev = positions_where((len - 1) as nat, keep);
        if keep(len - 1) {
            prev.push(len - 1)
        } else {
            prev
        }
    }
}

pub open spec fn search_spec(
    results: Seq<IndexedNoteView>,
    topic: Option<Seq<char>>,
    tags: Seq<Seq<char>>,
    include_archived: bool,
) -> Result<Seq<int>, Seq<char>> {
    let topic_res: Result<Option<(Seq<Seq<char>>, bool)>, Seq<char>> = match topic {
        Some(ta) => {
            let (path, desc) = topic_filter_spec(ta);
            match topic_parse(path) {
                Ok(t) => Ok(Some((t, desc))),
                Err(_) => Err("invalid topic: "@ + path),
            }
        },
        None => Ok(None),
    };
    match topic_res {
        Err(m) => Err(m),
        Ok(tf) => match parse_all_tags(tags) {
            Err(_) => Err("invalid tag"@),
            Ok(ts) => Ok(
                positions_where(
                    results.len(),
                    |i: int| search_keeps(results[i], tf, ts, include_archived),
                ),
            ),
        },
    }
}

/// The decisions of `search` on what the index found: filters the results (given as the notes they found, in rank order)
/// by the arguments of `search`; returns the positions kept, in order.
pub fn handle_search(results: &[IndexedNote], args: &SearchArgs) -> (r: Result<
    Vec<usize>,
    ListError,
>)
    ensures
        match search_spec(
            notes_view(results@),
            opt_string_view(args.topic),
            strings_view(args.tags@),
            args.include_archived,
        ) {
            Ok(ps) => r matches Ok(v) && v@.len() == ps.len() && forall|k: int|
                0 <= k < ps.len() ==> v@[k] as int == #[trigger] ps[k],
            Err(m) => r matches Err(e) && e@ == m,
        },
{
    let topic_filter: Option<(Topic, bool)> = match &args.topic {
        Some(ta) => {
            let (path, desc) = parse_topic_filter(ta.as_str());
            match Topic::new(path.as_str()) {
                Ok(t) => Some((t, desc)),
                Err(_) => {
                    return Err(list_error("invalid topic: ", path.as_str()));
                },
            }
        },
        None => None,
    };
    let ghost tf = topic_filter_view(topic_filter);
    let tags = match parse_tag_list(args.tags.as_slice()) {
        Ok(t) => t,
        Err(_) => {
            return Err(ListError(String::from_str("invalid tag")));
        },
    };
    let archived = crate::cli::tagging::archived_tag();
    let ghost rv = notes_view(results@);
    let ghost ts = tag_views(tags@);
    let ghost keep = |i: int| search_keeps(rv[i], tf, ts, args.include_archived);
    let mut out: Vec<usize> = Vec::new();
    let mut i: usize = 0;
    while i < results.len()
        invariant
            i <= results@.len(),
            rv == notes_view(results@),
            ts == tag_views(tags@),
            archived@ == "archived"@,
            tf == topic_filter_view(topic_filter),
            keep == (|i: int| search_keeps(rv[i], tf, ts, args.include_archived)),
            out@.len() == positions_where(i as nat, keep).len(),
            forall|k: int|
                0 <= k < out@.len() ==> out@[k] as int == #[trigger] positions_where(i as nat, keep)[k],
        decreases results@.len() - i,
    {
        let n = &results[i];
        assert(rv[i as int] == n@);
        let topic_ok = match &topic_filter {
            Some(p) => note_matches_topic(n, &p.0, p.1),
            None => true,
        };
        let archive_ok = args.include_archived || !note_has_tag(n, &archived);
        if topic_ok && note_has_all_tags(n, tags.as_slice()) && archive_ok {
            out.push(i);
        }
        i = i + 1;
    }
    Ok(out)
}

} // verus!
