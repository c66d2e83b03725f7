//! Completion of note references for the shell: candidates by identifier
//! prefix, title prefix, or fuzzy match of the title.

use fuzzy_matcher::skim::SkimMatcherV2;
use fuzzy_matcher::FuzzyMatcher;
use vstd::prelude::*;
use vstd::string::StringExecFns;
use crate::cli::index::{
    id_prefix_match, notes_view, title_prefix_match, IndexedNote, IndexedNoteView, NoteIndex,
};
use crate::cli::list::{newest_first, sort_newest_first};
use crate::text::{chars_le, chars_of, is_ascii_alnum, is_ascii_alnum_char, seq_le, str_eq};

verus! {

/// Name for the score that `SkimMatcherV2::default().fuzzy_match(choice,
/// pattern)` of the `fuzzy-matcher` crate gives (`None` when the pattern
/// does not match).
pub uninterp spec fn skim_score(choice: Seq<char>, pattern: Seq<char>) -> Option<i64>;

/// `fuzzy_matcher::skim::SkimMatcherV2::default().fuzzy_match(choice,
/// pattern)`.  Claimed: the score is a function of the two texts (a fresh
/// matcher is made for each call, and its caches are reset on each match).
#[verifier::external_body]
fn fuzzy_score(choice: &str, pattern: &str) -> (r: Option<i64>)
    ensures
        r == skim_score(choice@, pattern@),
{
    SkimMatcherV2::default().fuzzy_match(choice, pattern)
}

/// A completion: the identifier prefix to insert and the title to show.
#[derive(Debug)]
pub struct Candidate {
    pub id_prefix: String,
    pub title: String,
    pub score: i64,
}

pub open spec fn cand_view(c: Candidate) -> (Seq<char>, Seq<char>, i64) {
    (c.id_prefix@, c.title@, c.score)
}

pub open spec fn cands_view(s: Seq<Candidate>) -> Seq<(Seq<char>, Seq<char>, i64)> {
    s.map_values(|c: Candidate| cand_view(c))
}

/// A note as a candidate with a score.
pub open spec fn note_cand(n: IndexedNoteView, score: i64) -> (Seq<char>, Seq<char>, i64) {
    (n.id.spec_text().take(10), n.title, score)
}

pub open spec fn as_cands(s: Seq<IndexedNoteView>, score: i64) -> Seq<(Seq<char>, Seq<char>, i64)> {
    s.map_values(|n: IndexedNoteView| note_cand(n, score))
}

pub open spec fn has_prefix_key(s: Seq<(Seq<char>, Seq<char>, i64)>, p: Seq<char>) -> bool {
    exists|i: int| 0 <= i < s.len() && (#[trigger] s[i]).0 == p
}

/// The first candidate for each identifier prefix, in order.
pub open spec fn dedup_by_prefix(s: Seq<(Seq<char>, Seq<char>, i64)>) -> Seq<(Seq<char>, Seq<char>, i64)>
    decreases s.len(),
{
    if s.len() == 0 {
        s
    } else {
        let d = dedup_by_prefix(s.drop_last());
        if has_prefix_key(d, s.last().0) {
            d
        } else {
            d.push(s.last())
        }
    }
}

/// `x` ranks strictly before `y`: a higher score, or the same score and an
/// earlier title.
pub open spec fn ranks_before(x: (Seq<char>, Seq<char>, i64), y: (Seq<char>, Seq<char>, i64)) -> bool {
    x.2 > y.2 || (x.2 == y.2 && !seq_le(y.1, x.1))
}

/// Stable insertion by rank: `x` goes before the first element it ranks before.
pub open spec fn insert_ranked(
    s: Seq<(Seq<char>, Seq<char>, i64)>,
    x: (Seq<char>, Seq<char>, i64),
    by_title: bool,
) -> Seq<(Seq<char>, Seq<char>, i64)>
    decreases s.len(),
{
    if s.len() == 0 {
        seq![x]
    } else if (if by_title {
        ranks_before(x, s[0])
    } else {
        x.2 > s[0].2
    }) {
        seq![x] + s
    } else {
        seq![s[0]] + insert_ranked(s.drop_first(), x, by_title)
    }
}

/// A stable sort: by score (highest first), then, with `by_title`, by title.
pub open spec fn rank_sort(s: Seq<(Seq<char>, Seq<char>, i64)>, by_title: bool) -> Seq<
    (Seq<char>, Seq<char>, i64),
>
    decreases s.len(),
{
    if s.len() == 0 {
        s
    } else {
        insert_ranked(rank_sort(s.drop_last(), by_title), s.last(), by_title)
    }
}

/// The notes that fuzzily match `pattern`, with their scores, in index order.
pub open spec fn fuzzy_cands(s: Seq<IndexedNoteView>, pattern: Seq<char>) -> Seq<
    (Seq<char>, Seq<char>, i64),
>
    decreases s.len(),
{
    if s.len() == 0 {
        Seq::empty()
    } else {
        let prev = fuzzy_cands(s.drop_last(), pattern);
        match skim_score(s.last().title, pattern) {
            Some(score) => prev.push(note_cand(s.last(), score)),
            None => prev,
        }
    }
}

pub open spec fn all_ascii_alnum(s: Seq<char>) -> bool {
    forall|i: int| 0 <= i < s.len() ==> is_ascii_alnum(#[trigger] s[i])
}

/// The completions for `prefix`, at most `limit` of them.  With an empty
/// prefix: the most recently modified notes.  Otherwise: notes whose
/// identifier starts with the prefix (when it is all ASCII letters and
/// digits), then notes whose title starts with it; when there are none and
/// the prefix has two bytes or more, notes whose title matches it fuzzily.
/// Each identifier prefix appears once; the list is ordered by score, then title.
pub open spec fn completions(
    idx: Seq<IndexedNoteView>,
    prefix: Seq<char>,
    prefix_bytes: nat,
    limit: nat,
) -> Seq<(Seq<char>, Seq<char>, i64)> {
    if prefix.len() == 0 {
        let recent = newest_first(idx);
        let taken = recent.take(if limit < recent.len() { limit as int } else { recent.len() as int });
        let c = dedup_by_prefix(as_cands(taken, 0));
        c.take(if limit < c.len() { limit as int } else { c.len() as int })
    } else {
        let ids = if all_ascii_alnum(prefix) {
            as_cands(idx.filter(|n: IndexedNoteView| id_prefix_match(n, prefix)), i64::MAX)
        } else {
            Seq::empty()
        };
        let titles = as_cands(
            idx.filter(|n: IndexedNoteView| title_prefix_match(n, prefix)),
            (i64::MAX - 1) as i64,
        );
        let exact = dedup_by_prefix(ids + titles);
        let c = if exact.len() == 0 && prefix_bytes >= 2 {
            dedup_by_prefix(rank_sort(fuzzy_cands(idx, prefix), false))
        } else {
            exact
        };
        let sorted = rank_sort(c, true);
        sorted.take(if limit < sorted.len() { limit as int } else { sorted.len() as int })
    }
}

/// Appends the candidates of `notes` with `score`, skipping identifier
/// prefixes already present.
fn push_unique(out: &mut Vec<Candidate>, notes: &[IndexedNote], score: i64)
    ensures
        cands_view(final(out)@) == dedup_from(cands_view(old(out)@), as_cands(notes_view(notes@), score)),
{
    let ghost start = cands_view(out@);
    let ghost nv = as_cands(notes_view(notes@), score);
    let mut i: usize = 0;
    assert(nv.take(0) =~= Seq::<(Seq<char>, Seq<char>, i64)>::empty());
    while i < notes.len()
        invariant
            i <= notes@.len(),
            start == cands_view(old(out)@),
            nv == as_cands(notes_view(notes@), score),
            cands_view(out@) == dedup_from(start, nv.take(i as int)),
        decreases notes@.len() - i,
    {
        let n = &notes[i];
        let p = n.id().prefix();
        assert(nv.take(i + 1).drop_last() =~= nv.take(i as int));
        assert(nv.take(i + 1).last() == note_cand(n@, score));
        if !has_prefix(out, p.as_str()) {
            let ghost before = out@;
            out.push(Candidate { id_prefix: p, title: String::from_str(n.title()), score });
            assert(cands_view(out@) =~= cands_view(before).push(note_cand(n@, score)));
        }
        i = i + 1;
    }
    assert(nv.take(nv.len() as int) =~= nv);
}

/// Continuing a deduplication that already holds `acc`.
pub open spec fn dedup_from(acc: Seq<(Seq<char>, Seq<char>, i64)>, s: Seq<(Seq<char>, Seq<char>, i64)>) -> Seq<
    (Seq<char>, Seq<char>, i64),
>
    decreases s.len(),
{
    if s.len() == 0 {
        acc
    } else {
        let d = dedup_from(acc, s.drop_last());
        if has_prefix_key(d, s.last().0) {
            d
        } else {
            d.push(s.last())
        }
    }
}

proof fn lemma_dedup_from_empty(s: Seq<(Seq<char>, Seq<char>, i64)>)
    ensures
        dedup_from(Seq::empty(), s) == dedup_by_prefix(s),
    decreases s.len(),
{
    if s.len() > 0 {
        lemma_dedup_from_empty(s.drop_last());
    }
}

proof fn lemma_dedup_from_concat(
    acc: Seq<(Seq<char>, Seq<char>, i64)>,
    a: Seq<(Seq<char>, Seq<char>, i64)>,
    b: Seq<(Seq<char>, Seq<char>, i64)>,
)
    ensures
        dedup_from(dedup_from(acc, a), b) == dedup_from(acc, a + b),
    decreases b.len(),
{
    if b.len() == 0 {
        assert(a + b =~= a);
    } else {
        lemma_dedup_from_concat(acc, a, b.drop_last());
        assert((a + b).drop_last() =~= a + b.drop_last());
        assert((a + b).last() == b.last());
    }
}

fn has_prefix(out: &Vec<Candidate>, p: &str) -> (r: bool)
    ensures
        r == has_prefix_key(cands_view(out@), p@),
{
    let mut i: usize = 0;
    while i < out.len()
        invariant
            i <= out@.len(),
            forall|j: int| 0 <= j < i ==> (#[trigger] cands_view(out@)[j]).0 != p@,
        decreases out@.len() - i,
    {
        if str_eq(out[i].id_prefix.as_str(), p) {
            assert(cands_view(out@)[i as int].0 == p@);
            return true;
        }
        i = i + 1;
    }
    false
}

/// Sorts candidates stably, by score (highest first) and, with `by_title`,
/// by title among equal scores.
fn sort_ranked(v: Vec<Candidate>, by_title: bool) -> (r: Vec<Candidate>)
    ensures
        cands_view(r@) == rank_sort(cands_view(v@), by_title),
{
    let ghost cv = cands_view(v@);
    let mut out: Vec<Candidate> = Vec::new();
    let mut rest = v;
    let n = rest.len();
    let mut taken: Vec<Candidate> = Vec::new();
    assert(cv.take(0) =~= Seq::<(Seq<char>, Seq<char>, i64)>::empty());
    assert(cands_view(out@) =~= rank_sort(cv.take(0), by_title));
    // take the elements from the back of `rest` in reverse, then insert in order
    let mut i: usize = 0;
    while i < n
        invariant
            n == cv.len(),
            i <= n,
            rest@.len() == n - i,
            forall|k: int| 0 <= k < rest@.len() ==> cand_view(#[trigger] rest@[k]) == cv[k],
            taken@.len() == i,
            forall|k: int| 0 <= k < i ==> cand_view(#[trigger] taken@[k]) == cv[n - 1 - k],
        decreases n - i,
    {
        let x = rest.pop().unwrap();
        taken.push(x);
        i = i + 1;
    }
    let mut j: usize = 0;
    while j < n
        invariant
            n == cv.len(),
            j <= n,
            taken@.len() == n - j,
            forall|k: int| 0 <= k < taken@.len() ==> cand_view(#[trigger] taken@[k]) == cv[n - 1 - k],
            cands_view(out@) == rank_sort(cv.take(j as int), by_title),
        decreases n - j,
    {
        let x = taken.pop().unwrap();
        assert(cand_view(x) == cv[j as int]);
        let ghost ov = cands_view(out@);
        let mut k: usize = 0;
        while k < out.len() && !ranks(&x, &out[k], by_title)
            invariant
                k <= out@.len(),
                ov == cands_view(out@),
                forall|m: int| 0 <= m < k ==> !(if by_title {
                    ranks_before(cand_view(x), #[trigger] ov[m])
                } else {
                    cand_view(x).2 > ov[m].2
                }),
            decreases out@.len() - k,
        {
            assert(ov[k as int] == cand_view(out@[k as int]));
            k = k + 1;
        }
        proof {
            if k < ov.len() {
                assert(ov[k as int] == cand_view(out@[k as int]));
            }
            lemma_insert_ranked_at(ov, cand_view(x), k as int, by_title);
            assert(cv.take(j + 1).drop_last() =~= cv.take(j as int));
            assert(cv.take(j + 1).last() == cv[j as int]);
        }
        let ghost xv = cand_view(x);
        out.insert(k, x);
        assert(cands_view(out@) =~= ov.insert(k as int, xv));
        j = j + 1;
    }
    assert(cv.take(n as int) =~= cv);
    out
}

fn ranks(x: &Candidate, y: &Candidate, by_title: bool) -> (r: bool)
    ensures
        r == (if by_title {
            ranks_before(cand_view(*x), cand_view(*y))
        } else {
            x.score > y.score
        }),
{
    if x.score > y.score {
        true
    } else if by_title && x.score == y.score {
        let a = chars_of(y.title.as_str());
        let b = chars_of(x.title.as_str());
        !chars_le(a.as_slice(), b.as_slice())
    } else {
        false
    }
}

proof fn lemma_insert_ranked_at(
    s: Seq<(Seq<char>, Seq<char>, i64)>,
    x: (Seq<char>, Seq<char>, i64),
    k: int,
    by_title: bool,
)
    requires
        0 <= k <= s.len(),
        forall|m: int| 0 <= m < k ==> !(if by_title {
            ranks_before(x, #[trigger] s[m])
        } else {
            x.2 > s[m].2
        }),
        k < s.len() ==> (if by_title {
            ranks_before(x, s[k])
        } else {
            x.2 > s[k].2
        }),
    ensures
        insert_ranked(s, x, by_title) == s.insert(k, x),
    decreases s.len(),
{
    if s.len() == 0 {
        assert(s.insert(k, x) =~= seq![x]);
    } else if k == 0 {
        assert(s.insert(0, x) =~= seq![x] + s);
    } else {
        assert(!(if by_title {
            ranks_before(x, s[0])
        } else {
            x.2 > s[0].2
        }));
        lemma_insert_ranked_at(s.drop_first(), x, k - 1, by_title);
        assert(seq![s[0]] + s.drop_first().insert(k - 1, x) =~= s.insert(k, x));
    }
}

/// The first `limit` candidates.
fn take_first(v: Vec<Candidate>, limit: usize) -> (r: Vec<Candidate>)
    ensures
        cands_view(r@) == cands_view(v@).take(if limit < v@.len() { limit as int } else { v@.len() as int }),
{
    let mut v = v;
    let ghost before = cands_view(v@);
    if limit < v.len() {
        v.truncate(limit);
    }
    assert(cands_view(v@) =~= before.take(if limit < before.len() { limit as int } else { before.len() as int }));
    v
}

/// The notes whose title fuzzily matches `pattern`, with their scores.
fn fuzzy_matches(notes: &[IndexedNote], pattern: &str) -> (r: Vec<Candidate>)
    ensures
        cands_view(r@) == fuzzy_cands(notes_view(notes@), pattern@),
{
    let ghost nv = notes_view(notes@);
    let mut out: Vec<Candidate> = Vec::new();
    let mut i: usize = 0;
    assert(nv.take(0) =~= Seq::<IndexedNoteView>::empty());
    assert(cands_view(out@) =~= Seq::<(Seq<char>, Seq<char>, i64)>::empty());
    while i < notes.len()
        invariant
            i <= notes@.len(),
            nv == notes_view(notes@),
            cands_view(out@) == fuzzy_cands(nv.take(i as int), pattern@),
        decreases notes@.len() - i,
    {
        let n = &notes[i];
        assert(nv.take(i + 1).drop_last() =~= nv.take(i as int));
        assert(nv.take(i + 1).last() == n@);
        match fuzzy_score(n.title(), pattern) {
            Some(score) => {
                let ghost before = out@;
                out.push(
                    Candidate {
                        id_prefix: n.id().prefix(),
                        title: String::from_str(n.title()),
                        score,
                    },
                );
                assert(cands_view(out@) =~= cands_view(before).push(note_cand(n@, score)));
            },
            None => {},
        }
        i = i + 1;
    }
    assert(nv.take(nv.len() as int) =~= nv);
    out
}

/// Candidates deduplicated by identifier prefix.
fn dedup_candidates(v: Vec<Candidate>) -> (r: Vec<Candidate>)
    ensures
        cands_view(r@) == dedup_by_prefix(cands_view(v@)),
{
    let ghost cv = cands_view(v@);
    let mut out: Vec<Candidate> = Vec::new();
    let mut rest = v;
    let n = rest.len();
    let mut taken: Vec<Candidate> = Vec::new();
    let mut i: usize = 0;
    while i < n
        invariant
            n == cv.len(),
            i <= n,
            rest@.len() == n - i,
            forall|k: int| 0 <= k < rest@.len() ==> cand_view(#[trigger] rest@[k]) == cv[k],
            taken@.len() == i,
            forall|k: int| 0 <= k < i ==> cand_view(#[trigger] taken@[k]) == cv[n - 1 - k],
        decreases n - i,
    {
        let x = rest.pop().unwrap();
        taken.push(x);
        i = i + 1;
    }
    let mut j: usize = 0;
    assert(cv.take(0) =~= Seq::<(Seq<char>, Seq<char>, i64)>::empty());
    assert(cands_view(out@) =~= Seq::<(Seq<char>, Seq<char>, i64)>::empty());
    while j < n
        invariant
            n == cv.len(),
            j <= n,
            taken@.len() == n - j,
            forall|k: int| 0 <= k < taken@.len() ==> cand_view(#[trigger] taken@[k]) == cv[n - 1 - k],
            cands_view(out@) == dedup_by_prefix(cv.take(j as int)),
        decreases n - j,
    {
        let x = taken.pop().unwrap();
        assert(cand_view(x) == cv[j as int]);
        assert(cv.take(j + 1).drop_last() =~= cv.take(j as int));
        assert(cv.take(j + 1).last() == cv[j as int]);
        if !has_prefix(&out, x.id_prefix.as_str()) {
            let ghost before = out@;
            let ghost xv = cand_view(x);
            out.push(x);
            assert(cands_view(out@) =~= cands_view(before).push(xv));
        }
        j = j + 1;
    }
    assert(cv.take(n as int) =~= cv);
    out
}

fn all_alnum(s: &str) -> (r: bool)
    ensures
        r == all_ascii_alnum(s@),
{
    let v = chars_of(s);
    let mut i: usize = 0;
    while i < v.len()
        invariant
            i <= v@.len(),
            v@ == s@,
            forall|j: int| 0 <= j < i ==> is_ascii_alnum(#[trigger] v@[j]),
        decreases v@.len() - i,
    {
        if !is_ascii_alnum_char(v[i]) {
            return false;
        }
        i = i + 1;
    }
    true
}

/// The decisions of `complete-notes`: the completions for `prefix`, at most
/// `limit` of them (see `completions`).
pub fn handle_complete_notes(index: &NoteIndex, prefix: &str, limit: usize) -> (r: Vec<Candidate>)
    ensures
        cands_view(r@) == completions(index@, prefix@, prefix.len() as nat, limit as nat),
{
    if prefix.is_empty() {
        let notes = sort_newest_first(index.list_all());
        let ghost recent = notes_view(notes@);
        let mut picked: Vec<Candidate> = Vec::new();
        let end = if limit < notes.len() {
            limit
        } else {
            notes.len()
        };
        let mut shown: Vec<IndexedNote> = Vec::new();
        let mut i: usize = 0;
        while i < end
            invariant
                i <= end <= notes@.len(),
                notes_view(shown@) == notes_view(notes@).take(i as int),
            decreases end - i,
        {
            let ghost before = shown@;
            shown.push(notes[i].clone());
            assert(notes_view(shown@) =~= notes_view(before).push(notes@[i as int]@));
            assert(notes_view(notes@).take(i + 1) =~= notes_view(notes@).take(i as int).push(
                notes@[i as int]@,
            ));
            i = i + 1;
        }
        assert(cands_view(picked@) =~= Seq::<(Seq<char>, Seq<char>, i64)>::empty());
        push_unique(&mut picked, shown.as_slice(), 0);
        proof {
            lemma_dedup_from_empty(as_cands(notes_view(shown@), 0));
        }
        return take_first(picked, limit);
    }
    let mut cands: Vec<Candidate> = Vec::new();
    let ghost idx = index@;
    let ghost ids: Seq<(Seq<char>, Seq<char>, i64)> = if all_ascii_alnum(prefix@) {
        as_cands(idx.filter(|n: IndexedNoteView| id_prefix_match(n, prefix@)), i64::MAX)
    } else {
        Seq::empty()
    };
    assert(cands_view(cands@) =~= Seq::<(Seq<char>, Seq<char>, i64)>::empty());
    if all_alnum(prefix) {
        let by_id = index.find_by_id_prefix(prefix);
        push_unique(&mut cands, by_id.as_slice(), i64::MAX);
    } else {
        assert(dedup_from(Seq::empty(), ids) =~= Seq::<(Seq<char>, Seq<char>, i64)>::empty());
    }
    let by_title = index.find_by_title_prefix(prefix);
    let ghost titles = as_cands(notes_view(by_title@), (i64::MAX - 1) as i64);
    push_unique(&mut cands, by_title.as_slice(), i64::MAX - 1);
    proof {
        lemma_dedup_from_concat(Seq::empty(), ids, titles);
        lemma_dedup_from_empty(ids + titles);
    }
    let ghost exact = dedup_by_prefix(ids + titles);
    assert(cands_view(cands@) == exact);
    assert(cands_view(cands@).len() == cands@.len());
    let fuzzy_needed = cands.len() == 0 && prefix.len() >= 2;
    if fuzzy_needed {
        let all = index.list_all();
        let fuzzy = fuzzy_matches(all.as_slice(), prefix);
        let sorted = sort_ranked(fuzzy, false);
        cands = dedup_candidates(sorted);
    }
    let ghost c = if exact.len() == 0 && prefix.len() >= 2 {
        dedup_by_prefix(rank_sort(fuzzy_cands(idx, prefix@), false))
    } else {
        exact
    };
    assert(cands_view(cands@) == c);
    let sorted = sort_ranked(cands, true);
    take_first(sorted, limit)
}

/// Completion never offers more than `limit` candidates.
pub proof fn lemma_completions_within_limit(
    idx: Seq<IndexedNoteView>,
    prefix: Seq<char>,
    prefix_bytes: nat,
    limit: nat,
)
    ensures
        completions(idx, prefix, prefix_bytes, limit).len() <= limit,
{
}

} // verus!
