//! Resolving a note identifier (identifier prefix, title or alias) to notes.

use vstd::prelude::*;
use crate::cli::index::{
    alias_match, distinct_ids, id_prefix_match, notes_view, title_match, IndexedNote,
    IndexedNoteView, NoteIndex,
};
use vstd::string::StringExecFns;
use crate::domain::link::join_comma;
use crate::domain::note::{strings_view, tags_view};
use crate::text::{
    decimal, usize_to_string, chars_le, chars_of, is_ascii_alnum, is_ascii_alnum_char, lemma_seq_le_total,
    lemma_seq_le_transitive, seq_le, string_from_chars, trim, trim_chars,
};

verus! {

/// Result of resolving a note identifier.
#[derive(Debug)]
pub enum ResolveResult {
    /// Exactly one note matched.
    Unique(IndexedNote),
    /// Several notes matched, sorted by identifier.
    Ambiguous(Vec<IndexedNote>),
    /// No note matched.
    NotFound,
}

/// Input that may be an identifier prefix: at least four ASCII letters or digits.
pub open spec fn looks_like_id(q: Seq<char>) -> bool {
    &&& q.len() >= 4
    &&& forall|i: int| 0 <= i < q.len() ==> is_ascii_alnum(#[trigger] q[i])
}

/// The notes whose identifier starts with `q`.
pub open spec fn id_hits(idx: Seq<IndexedNoteView>, q: Seq<char>) -> Seq<IndexedNoteView> {
    idx.filter(|n: IndexedNoteView| id_prefix_match(n, q))
}

/// A note that `q` designates: by identifier prefix (when `q` looks like
/// one), by title or by alias.
pub open spec fn is_candidate(n: IndexedNoteView, q: Seq<char>) -> bool {
    ||| (looks_like_id(q) && id_prefix_match(n, q))
    ||| title_match(n, q)
    ||| alias_match(n, q)
}

pub open spec fn candidates(idx: Seq<IndexedNoteView>, q: Seq<char>) -> Seq<IndexedNoteView> {
    idx.filter(|n: IndexedNoteView| is_candidate(n, q))
}

pub open spec fn id_text(n: IndexedNoteView) -> Seq<char> {
    n.id.spec_text()
}

/// Ordered by identifier text.
pub open spec fn sorted_by_id_text(s: Seq<IndexedNoteView>) -> bool {
    forall|i: int, j: int| 0 <= i < j < s.len() ==> seq_le(id_text(s[i]), id_text(s[j]))
}

/// What resolving the trimmed identifier `q` against the index gives: a
/// unique identifier-prefix match wins; otherwise the candidates decide,
/// none, one, or several sorted by identifier.
pub open spec fn resolves_to(idx: Seq<IndexedNoteView>, q: Seq<char>, r: ResolveResult) -> bool {
    if looks_like_id(q) && id_hits(idx, q).len() == 1 {
        r matches ResolveResult::Unique(n) && n@ == id_hits(idx, q)[0]
    } else {
        let c = candidates(idx, q);
        if c.len() == 0 {
            r is NotFound
        } else if c.len() == 1 {
            r matches ResolveResult::Unique(n) && n@ == c[0]
        } else {
            &&& r matches ResolveResult::Ambiguous(v)
            &&& notes_view(v@).len() == c.len()
            &&& distinct_ids(notes_view(v@))
            &&& sorted_by_id_text(notes_view(v@))
            &&& forall|i: int| 0 <= i < v@.len() ==> c.contains(#[trigger] notes_view(v@)[i])
        }
    }
}

proof fn lemma_distinct_no_duplicates(s: Seq<IndexedNoteView>)
    requires
        distinct_ids(s),
    ensures
        s.no_duplicates(),
{
    assert forall|i: int, j: int| 0 <= i < s.len() && 0 <= j < s.len() && i != j implies s[i]
        != s[j] by {
        if i < j {
            assert(s[i].id != s[j].id);
        } else {
            assert(s[j].id != s[i].id);
        }
    }
}

proof fn lemma_filter_distinct(s: Seq<IndexedNoteView>, p: spec_fn(IndexedNoteView) -> bool)
    requires
        distinct_ids(s),
    ensures
        distinct_ids(s.filter(p)),
    decreases s.len(),
{
    if s.len() > 0 {
        let d = s.drop_last();
        assert(distinct_ids(d));
        lemma_filter_distinct(d, p);
        let f = d.filter(p);
        assert(s =~= d.push(s.last()));
        d.lemma_filter_push(s.last(), p);
        if p(s.last()) {
            assert forall|i: int| 0 <= i < f.len() implies f[i].id != s.last().id by {
                assert(f.contains(f[i]));
                d.lemma_filter_contains_rev(p, f[i]);
                let k = choose|k: int| 0 <= k < d.len() && d[k] == f[i];
                assert(s[k] == d[k]);
            }
            assert(s.filter(p) == f.push(s.last()));
        } else {
            assert(s.filter(p) == f);
        }
    }
}

/// The same elements, each once, make sequences of the same length.
proof fn lemma_same_elements_same_len(a: Seq<IndexedNoteView>, b: Seq<IndexedNoteView>)
    requires
        a.no_duplicates(),
        b.no_duplicates(),
        forall|x: IndexedNoteView| a.contains(x) <==> b.contains(x),
    ensures
        a.len() == b.len(),
{
    a.unique_seq_to_set();
    b.unique_seq_to_set();
    assert(a.to_set() =~= b.to_set());
}

fn id_chars(n: &IndexedNote) -> (r: Vec<char>)
    ensures
        r@ == id_text(n@),
{
    let s = n.id().to_string();
    chars_of(s.as_str())
}

proof fn lemma_insert_sorted(v: Seq<IndexedNoteView>, p: int, x: IndexedNoteView)
    requires
        sorted_by_id_text(v),
        0 <= p <= v.len(),
        forall|k: int| 0 <= k < p ==> seq_le(id_text(#[trigger] v[k]), id_text(x)),
        forall|k: int| p <= k < v.len() ==> seq_le(id_text(x), id_text(#[trigger] v[k])),
    ensures
        sorted_by_id_text(v.insert(p, x)),
{
    let w = v.insert(p, x);
    assert forall|i: int, j: int| 0 <= i < j < w.len() implies seq_le(
        id_text(w[i]),
        id_text(w[j]),
    ) by {
        if i < p && j < p {
            assert(w[i] == v[i] && w[j] == v[j]);
        } else if i < p && j == p {
            assert(w[i] == v[i]);
        } else if i < p {
            assert(w[i] == v[i] && w[j] == v[j - 1]);
        } else if i == p {
            assert(w[j] == v[j - 1]);
        } else {
            assert(w[i] == v[i - 1] && w[j] == v[j - 1]);
        }
    }
}

/// Inserts `x` where the identifier order puts it.
fn insert_sorted(out: &mut Vec<IndexedNote>, x: IndexedNote)
    requires
        sorted_by_id_text(notes_view(old(out)@)),
    ensures
        sorted_by_id_text(notes_view(final(out)@)),
        exists|p: int|
            0 <= p <= old(out)@.len() && notes_view(final(out)@) == notes_view(old(out)@).insert(
                p,
                x@,
            ),
{
    let xt = id_chars(&x);
    let ghost v = notes_view(out@);
    let mut p: usize = 0;
    let mut done = false;
    while !done && p < out.len()
        invariant
            p <= out@.len(),
            v == notes_view(out@),
            sorted_by_id_text(v),
            xt@ == id_text(x@),
            forall|k: int| 0 <= k < p ==> seq_le(id_text(#[trigger] v[k]), id_text(x@)),
            done ==> p < out@.len() && !seq_le(id_text(v[p as int]), id_text(x@)),
        decreases out@.len() - p + (if done {
            0int
        } else {
            1int
        }),
    {
        let t = id_chars(&out[p]);
        assert(v[p as int] == out@[p as int]@);
        if chars_le(t.as_slice(), xt.as_slice()) {
            p = p + 1;
        } else {
            done = true;
        }
    }
    proof {
        if p < v.len() {
            lemma_seq_le_total(id_text(v[p as int]), id_text(x@));
            assert forall|k: int| p <= k < v.len() implies seq_le(id_text(x@), id_text(#[trigger] v[k])) by {
                if k > p {
                    lemma_seq_le_transitive(id_text(x@), id_text(v[p as int]), id_text(v[k]));
                }
            }
        }
        lemma_insert_sorted(v, p as int, x@);
    }
    let ghost xv = x@;
    out.insert(p, x);
    assert(notes_view(out@) =~= v.insert(p as int, xv));
}

/// Whether some element of `v` has identifier `id`.
fn has_id(v: &Vec<IndexedNote>, id: &crate::domain::note_id::NoteId) -> (r: bool)
    ensures
        r == exists|k: int| 0 <= k < v@.len() && (#[trigger] notes_view(v@)[k]).id == *id,
{
    let mut i: usize = 0;
    while i < v.len()
        invariant
            i <= v@.len(),
            forall|k: int| 0 <= k < i ==> (#[trigger] notes_view(v@)[k]).id != *id,
        decreases v@.len() - i,
    {
        if *v[i].id() == *id {
            assert(notes_view(v@)[i as int].id == *id);
            return true;
        }
        i = i + 1;
    }
    false
}

/// The candidates, each once, sorted by identifier text.
fn sort_unique_by_id(cands: &Vec<IndexedNote>) -> (r: Vec<IndexedNote>)
    requires
        forall|i: int, j: int|
            0 <= i < cands@.len() && 0 <= j < cands@.len() && (#[trigger] notes_view(cands@)[i]).id
                == (#[trigger] notes_view(cands@)[j]).id ==> notes_view(cands@)[i] == notes_view(
                cands@,
            )[j],
    ensures
        distinct_ids(notes_view(r@)),
        sorted_by_id_text(notes_view(r@)),
        forall|i: int| 0 <= i < r@.len() ==> notes_view(cands@).contains(#[trigger] notes_view(r@)[i]),
        forall|i: int| 0 <= i < cands@.len() ==> notes_view(r@).contains(#[trigger] notes_view(cands@)[i]),
{
    let ghost cv = notes_view(cands@);
    let mut out: Vec<IndexedNote> = Vec::new();
    let mut i: usize = 0;
    assert(notes_view(out@) =~= Seq::<IndexedNoteView>::empty());
    while i < cands.len()
        invariant
            i <= cands@.len(),
            cv == notes_view(cands@),
            forall|a: int, b: int|
                0 <= a < cv.len() && 0 <= b < cv.len() && (#[trigger] cv[a]).id == (#[trigger] cv[b]).id
                    ==> cv[a] == cv[b],
            distinct_ids(notes_view(out@)),
            sorted_by_id_text(notes_view(out@)),
            forall|k: int| 0 <= k < out@.len() ==> cv.contains(#[trigger] notes_view(out@)[k]),
            forall|k: int| 0 <= k < i ==> notes_view(out@).contains(#[trigger] cv[k]),
        decreases cands@.len() - i,
    {
        let c = &cands[i];
        assert(cv[i as int] == c@);
        if has_id(&out, c.id()) {
            let ghost ov = notes_view(out@);
            proof {
                let k = choose|k: int| 0 <= k < out@.len() && (#[trigger] notes_view(out@)[k]).id == c@.id;
                assert(cv.contains(ov[k]));
                let m = choose|m: int| 0 <= m < cv.len() && cv[m] == ov[k];
                assert(cv[m].id == cv[i as int].id);
                assert(ov[k] == cv[i as int]);
            }
        } else {
            let ghost ov = notes_view(out@);
            let ghost cvi = c@;
            insert_sorted(&mut out, c.clone());
            proof {
                let p = choose|p: int|
                    0 <= p <= ov.len() && notes_view(out@) == ov.insert(p, cvi);
                let w = notes_view(out@);
                assert forall|k: int| 0 <= k < w.len() implies cv.contains(#[trigger] w[k]) by {
                    if k < p {
                        assert(w[k] == ov[k]);
                    } else if k > p {
                        assert(w[k] == ov[k - 1]);
                    } else {
                        assert(w[k] == cv[i as int]);
                    }
                }
                assert forall|k: int| 0 <= k <= i implies w.contains(#[trigger] cv[k]) by {
                    if k == i {
                        assert(w[p] == cv[k]);
                    } else {
                        assert(ov.contains(cv[k]));
                        let m = choose|m: int| 0 <= m < ov.len() && ov[m] == cv[k];
                        if m < p {
                            assert(w[m] == cv[k]);
                        } else {
                            assert(w[m + 1] == cv[k]);
                        }
                    }
                }
                assert forall|a: int, b: int| 0 <= a < b < w.len() implies w[a].id != w[b].id by {
                    if a < p && b < p {
                        assert(w[a] == ov[a] && w[b] == ov[b]);
                    } else if a < p && b == p {
                        assert(w[a] == ov[a]);
                    } else if a < p {
                        assert(w[a] == ov[a] && w[b] == ov[b - 1]);
                    } else if a == p {
                        assert(w[b] == ov[b - 1]);
                    } else {
                        assert(w[a] == ov[a - 1] && w[b] == ov[b - 1]);
                    }
                }
            }
        }
        i = i + 1;
    }
    out
}

/// Whether the trimmed identifier looks like an identifier prefix.
fn looks_like_id_exec(q: &[char]) -> (r: bool)
    ensures
        r == looks_like_id(q@),
{
    if q.len() < 4 {
        return false;
    }
    let mut i: usize = 0;
    while i < q.len()
        invariant
            i <= q@.len(),
            forall|j: int| 0 <= j < i ==> is_ascii_alnum(#[trigger] q@[j]),
        decreases q@.len() - i,
    {
        if !is_ascii_alnum_char(q[i]) {
            return false;
        }
        i = i + 1;
    }
    true
}

/// Resolves a note identifier.  The identifier is trimmed; when it looks
/// like an identifier prefix (four or more ASCII letters and digits) and
/// exactly one note's identifier starts with it, that note is the answer.
/// Otherwise the notes matching by identifier prefix, by title or by alias
/// (titles and aliases compared without regard to ASCII case) are the
/// candidates: none, one, or several, sorted by identifier.
pub fn resolve_note(index: &NoteIndex, identifier: &str) -> (r: ResolveResult)
    ensures
        resolves_to(index@, trim(identifier@), r),
{
    let qv = trim_chars(chars_of(identifier).as_slice());
    let q = string_from_chars(qv.as_slice());
    let ghost idx = index@;
    let ghost qs = qv@;
    let _ = index.len();
    let looks = looks_like_id_exec(qv.as_slice());
    let mut cands: Vec<IndexedNote> = Vec::new();
    let ghost id_pred = |n: IndexedNoteView| id_prefix_match(n, qs);
    let ghost title_pred = |n: IndexedNoteView| title_match(n, qs);
    let ghost alias_pred = |n: IndexedNoteView| alias_match(n, qs);
    let ghost cand_pred = |n: IndexedNoteView| is_candidate(n, qs);
    if looks {
        let id_matches = index.find_by_id_prefix(q.as_str());
        if id_matches.len() == 1 {
            assert(notes_view(id_matches@)[0] == id_matches@[0]@);
            return ResolveResult::Unique(id_matches[0].clone());
        }
        cands = id_matches;
    }
    let ghost id_part = notes_view(cands@);
    let mut title_matches = index.find_by_title(q.as_str());
    let mut alias_matches = index.find_by_alias(q.as_str());
    let ghost tv = notes_view(title_matches@);
    let ghost av = notes_view(alias_matches@);
    cands.append(&mut title_matches);
    cands.append(&mut alias_matches);
    let ghost cv = notes_view(cands@);
    proof {
        assert(cv =~= id_part + tv + av);
        // every candidate comes from the index and satisfies one of the lookups
        assert forall|k: int| 0 <= k < cv.len() implies idx.contains(#[trigger] cv[k]) && is_candidate(
            cv[k],
            qs,
        ) by {
            if k < id_part.len() {
                assert(id_part[k] == cv[k]);
                idx.lemma_filter_pred(id_pred, k);
                assert(id_part.contains(cv[k]));
                idx.lemma_filter_contains_rev(id_pred, cv[k]);
            } else if k < id_part.len() + tv.len() {
                let t = k - id_part.len();
                assert(tv[t] == cv[k]);
                idx.lemma_filter_pred(title_pred, t);
                assert(tv.contains(cv[k]));
                idx.lemma_filter_contains_rev(title_pred, cv[k]);
            } else {
                let t = k - id_part.len() - tv.len();
                assert(av[t] == cv[k]);
                idx.lemma_filter_pred(alias_pred, t);
                assert(av.contains(cv[k]));
                idx.lemma_filter_contains_rev(alias_pred, cv[k]);
            }
        }
        assert forall|a: int, b: int|
            0 <= a < cv.len() && 0 <= b < cv.len() && (#[trigger] cv[a]).id == (#[trigger] cv[b]).id
                implies cv[a] == cv[b] by {
            assert(idx.contains(cv[a]) && idx.contains(cv[b]));
            let ia = choose|ia: int| 0 <= ia < idx.len() && idx[ia] == cv[a];
            let ib = choose|ib: int| 0 <= ib < idx.len() && idx[ib] == cv[b];
            if ia < ib {
                assert(idx[ia].id != idx[ib].id);
            } else if ib < ia {
                assert(idx[ib].id != idx[ia].id);
            }
        }
    }
    let out = sort_unique_by_id(&cands);
    proof {
        let c = candidates(idx, qs);
        let ov = notes_view(out@);
        lemma_filter_distinct(idx, cand_pred);
        lemma_distinct_no_duplicates(c);
        lemma_distinct_no_duplicates(ov);
        assert forall|x: IndexedNoteView| ov.contains(x) <==> c.contains(x) by {
            if ov.contains(x) {
                let k = choose|k: int| 0 <= k < ov.len() && ov[k] == x;
                assert(cv.contains(ov[k]));
                let m = choose|m: int| 0 <= m < cv.len() && cv[m] == x;
                assert(idx.contains(cv[m]) && is_candidate(cv[m], qs));
                let ix = choose|ix: int| 0 <= ix < idx.len() && idx[ix] == x;
                idx.lemma_filter_contains(cand_pred, ix);
            }
            if c.contains(x) {
                let k = choose|k: int| 0 <= k < c.len() && c[k] == x;
                idx.lemma_filter_pred(cand_pred, k);
                idx.lemma_filter_contains_rev(cand_pred, x);
                let ix = choose|ix: int| 0 <= ix < idx.len() && idx[ix] == x;
                if looks && id_prefix_match(x, qs) {
                    idx.lemma_filter_contains(id_pred, ix);
                    let m = choose|m: int| 0 <= m < id_part.len() && id_part[m] == x;
                    assert(cv[m] == x);
                } else if title_match(x, qs) {
                    idx.lemma_filter_contains(title_pred, ix);
                    let m = choose|m: int| 0 <= m < tv.len() && tv[m] == x;
                    assert(cv[id_part.len() + m] == x);
                } else {
                    idx.lemma_filter_contains(alias_pred, ix);
                    let m = choose|m: int| 0 <= m < av.len() && av[m] == x;
                    assert(cv[id_part.len() + tv.len() + m] == x);
                }
                let m = choose|m: int| 0 <= m < cv.len() && cv[m] == x;
                assert(ov.contains(cv[m]));
            }
        }
        lemma_same_elements_same_len(ov, c);
        if ov.len() == 1 {
            assert(c.contains(ov[0]));
            let k = choose|k: int| 0 <= k < c.len() && c[k] == ov[0];
        }
    }
    if out.len() == 0 {
        ResolveResult::NotFound
    } else if out.len() == 1 {
        assert(notes_view(out@)[0] == out@[0]@);
        ResolveResult::Unique(out[0].clone())
    } else {
        ResolveResult::Ambiguous(out)
    }
}

/// The lines that describe one of several matching notes: identifier
/// prefix and title, then description, aliases and tags when present.
pub open spec fn note_lines(n: IndexedNoteView) -> Seq<Seq<char>> {
    seq!["  "@ + n.id.spec_text().take(10) + " - "@ + n.title] + (match n.description {
        Some(d) => seq!["      "@ + d],
        None => Seq::<Seq<char>>::empty(),
    }) + (if n.aliases.len() > 0 {
        seq!["      aliases: "@ + join_comma(n.aliases)]
    } else {
        Seq::<Seq<char>>::empty()
    }) + (if n.tags.len() > 0 {
        seq!["      tags: "@ + join_comma(n.tags)]
    } else {
        Seq::<Seq<char>>::empty()
    })
}

pub open spec fn all_note_lines(s: Seq<IndexedNoteView>) -> Seq<Seq<char>>
    decreases s.len(),
{
    if s.len() == 0 {
        Seq::empty()
    } else {
        all_note_lines(s.drop_last()) + note_lines(s.last())
    }
}

/// The message for a reference that matches several notes.
pub open spec fn ambiguous_lines(identifier: Seq<char>, notes: Seq<IndexedNoteView>) -> Seq<Seq<char>> {
    seq!["Ambiguous: '"@ + identifier + "' matches "@ + decimal(notes.len()) + " notes:"@]
        + all_note_lines(notes) + seq![""@, "Use the ID prefix to specify which note you mean."@]
}

/// The texts joined with `, `.
pub fn join_with_commas(parts: &[String]) -> (r: String)
    ensures
        r@ == join_comma(strings_view(parts@)),
{
    let ghost v = strings_view(parts@);
    let mut s = String::new();
    let mut i: usize = 0;
    assert(v.take(0) =~= Seq::<Seq<char>>::empty());
    while i < parts.len()
        invariant
            i <= parts@.len(),
            v == strings_view(parts@),
            s@ == join_comma(v.take(i as int)),
        decreases parts@.len() - i,
    {
        if i > 0 {
            s.append(", ");
        }
        s.append(parts[i].as_str());
        proof {
            let t = v.take(i + 1);
            assert(t.drop_last() =~= v.take(i as int));
            assert(t.last() == v[i as int]);
            if i == 0 {
                assert(join_comma(t) == t[0]);
            }
        }
        i = i + 1;
    }
    assert(v.take(parts@.len() as int) =~= v);
    s
}

fn push_line(out: &mut Vec<String>, line: String)
    ensures
        strings_view(final(out)@) == strings_view(old(out)@).push(line@),
{
    out.push(line);
    assert(strings_view(out@) =~= strings_view(old(out)@).push(line@));
}

/// The lines that tell the notes matching `identifier` apart (for standard error).
pub fn ambiguous_notes_lines(identifier: &str, notes: &[IndexedNote]) -> (r: Vec<String>)
    ensures
        strings_view(r@) == ambiguous_lines(identifier@, notes_view(notes@)),
{
    let ghost nv = notes_view(notes@);
    let mut out: Vec<String> = Vec::new();
    let mut head = String::from_str("Ambiguous: '");
    head.append(identifier);
    head.append("' matches ");
    head.append(usize_to_string(notes.len()).as_str());
    head.append(" notes:");
    push_line(&mut out, head);
    let ghost first = strings_view(out@);
    assert(nv.take(0) =~= Seq::<IndexedNoteView>::empty());
    assert(first + all_note_lines(nv.take(0)) =~= first);
    let mut i: usize = 0;
    while i < notes.len()
        invariant
            i <= notes@.len(),
            nv == notes_view(notes@),
            first == seq!["Ambiguous: '"@ + identifier@ + "' matches "@ + decimal(nv.len()) + " notes:"@],
            strings_view(out@) == first + all_note_lines(nv.take(i as int)),
        decreases notes@.len() - i,
    {
        let n = &notes[i];
        let ghost before = strings_view(out@);
        let mut l = String::from_str("  ");
        l.append(n.id().prefix().as_str());
        l.append(" - ");
        l.append(n.title());
        push_line(&mut out, l);
        let ghost after_title = strings_view(out@);
        match n.description() {
            Some(d) => {
                let mut l = String::from_str("      ");
                l.append(d);
                push_line(&mut out, l);
            },
            None => {},
        }
        let ghost after_desc = strings_view(out@);
        if n.aliases().len() > 0 {
            let mut l = String::from_str("      aliases: ");
            l.append(join_with_commas(n.aliases()).as_str());
            push_line(&mut out, l);
        }
        let ghost after_aliases = strings_view(out@);
        let tags = n.tags();
        if tags.len() > 0 {
            let mut names: Vec<String> = Vec::new();
            let mut j: usize = 0;
            while j < tags.len()
                invariant
                    j <= tags@.len(),
                    tags_view(tags@) == n@.tags,
                    strings_view(names@) == n@.tags.take(j as int),
                decreases tags@.len() - j,
            {
                let t = tags[j].to_string();
                push_line(&mut names, t);
                j = j + 1;
                assert(strings_view(names@) =~= n@.tags.take(j as int));
            }
            assert(n@.tags.take(tags@.len() as int) =~= n@.tags);
            let mut l = String::from_str("      tags: ");
            l.append(join_with_commas(names.as_slice()).as_str());
            push_line(&mut out, l);
        }
        proof {
            assert(nv[i as int] == n@);
            assert(nv.take(i + 1).drop_last() =~= nv.take(i as int));
            assert(strings_view(out@) =~= before + note_lines(n@));
        }
        i = i + 1;
    }
    assert(nv.take(nv.len() as int) =~= nv);
    let ghost body = strings_view(out@);
    push_line(&mut out, String::from_str(""));
    push_line(&mut out, String::from_str("Use the ID prefix to specify which note you mean."));
    assert(strings_view(out@) =~= body + seq![""@, "Use the ID prefix to specify which note you mean."@]);
    assert(strings_view(out@) =~= ambiguous_lines(identifier@, nv));
    out
}

} // verus!
