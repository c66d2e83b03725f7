//! The structure of a generated site: the notes in title order, the topic
//! pages with their notes, subtopics and navigation, and the top-level
//! topics of the index page.

use vstd::prelude::*;
use vstd::string::StringExecFns;
use crate::domain::note::{clone_opt_str, opt_view, strings_view};
use crate::domain::topic::split_on_slash;
use crate::text::{
    chars_le, chars_of, chars_starts_with, lemma_seq_le_total, lemma_seq_le_transitive,
    lowercase_of, seq_le, starts_with, str_eq, string_from_chars, to_lowercase,
    lemma_seq_le_antisymmetric,
};

verus! {

/// A note as the site shows it: title, slug (its page is `<slug>.html`)
/// and description.
#[derive(Debug)]
pub struct NoteInfo {
    pub title: String,
    pub slug: String,
    pub description: Option<String>,
}

pub open spec fn info_view(i: NoteInfo) -> (Seq<char>, Seq<char>, Option<Seq<char>>) {
    (i.title@, i.slug@, opt_view(i.description))
}

pub open spec fn infos_view(s: Seq<NoteInfo>) -> Seq<(Seq<char>, Seq<char>, Option<Seq<char>>)> {
    s.map_values(|i: NoteInfo| info_view(i))
}

impl NoteInfo {
    pub fn copy(&self) -> (r: NoteInfo)
        ensures
            info_view(r) == info_view(*self),
    {
        NoteInfo {
            title: self.title.clone(),
            slug: self.slug.clone(),
            description: clone_opt_str(match &self.description {
                Some(d) => Some(d.as_str()),
                None => None,
            }),
        }
    }
}

/// A topic link: its name, its path (relative to the page), and how many
/// notes it holds.
#[derive(Debug)]
pub struct TopicInfo {
    pub name: String,
    pub path: String,
    pub count: usize,
}

pub open spec fn topic_info_view(t: TopicInfo) -> (Seq<char>, Seq<char>, nat) {
    (t.name@, t.path@, t.count as nat)
}

pub open spec fn topic_infos_view(s: Seq<TopicInfo>) -> Seq<(Seq<char>, Seq<char>, nat)> {
    s.map_values(|t: TopicInfo| topic_info_view(t))
}

/// A note of the site and the paths of its topics.
pub struct SiteNote {
    pub info: NoteInfo,
    pub topics: Vec<String>,
}

/// The page of one topic.
pub struct TopicPage {
    /// The topic's path.
    pub topic: String,
    /// The notes with this topic, in the given order.
    pub notes: Vec<NoteInfo>,
    /// The topics one level below.
    pub subtopics: Vec<TopicInfo>,
    /// (name, link) for each segment of the path.
    pub breadcrumbs: Vec<(String, String)>,
    /// `../` once per level, back to the site's root.
    pub root_path: String,
}

/// The structure of a site.
pub struct SitePlan {
    /// The notes, ordered by lowercase title.
    pub notes: Vec<NoteInfo>,
    /// The topics without `/`, in order.
    pub top_topics: Vec<TopicInfo>,
    /// One page per topic, ordered by path.
    pub pages: Vec<TopicPage>,
}

/// (topic path, note) for every topic of every note, in order.
pub open spec fn site_pairs(s: Seq<SiteNote>) -> Seq<(Seq<char>, (Seq<char>, Seq<char>, Option<Seq<char>>))>
    decreases s.len(),
{
    if s.len() == 0 {
        Seq::empty()
    } else {
        let n = s.last();
        site_pairs(s.drop_last()) + strings_view(n.topics@).map_values(
            |t: Seq<char>| (t, info_view(n.info)),
        )
    }
}

/// The notes with topic `k`, in order.
pub open spec fn topic_notes(
    pairs: Seq<(Seq<char>, (Seq<char>, Seq<char>, Option<Seq<char>>))>,
    k: Seq<char>,
) -> Seq<(Seq<char>, Seq<char>, Option<Seq<char>>)> {
    pairs.filter(|p: (Seq<char>, (Seq<char>, Seq<char>, Option<Seq<char>>))| p.0 == k).map_values(
        |p: (Seq<char>, (Seq<char>, Seq<char>, Option<Seq<char>>))| p.1,
    )
}

pub open spec fn is_topic_key(pairs: Seq<(Seq<char>, (Seq<char>, Seq<char>, Option<Seq<char>>))>, k: Seq<char>) -> bool {
    exists|i: int| 0 <= i < pairs.len() && (#[trigger] pairs[i]).0 == k
}

/// Increasing and without repetition.
pub open spec fn strictly_sorted(keys: Seq<Seq<char>>) -> bool {
    forall|i: int, j: int| 0 <= i < j < keys.len() ==> seq_le(keys[i], keys[j]) && keys[i] != keys[j]
}

/// The name of `k2` under `k` when it is a topic one level below `k`.
pub open spec fn subtopic_rest(k: Seq<char>, k2: Seq<char>) -> Option<Seq<char>> {
    let p = k.push('/');
    if starts_with(k2, p) && !k2.skip(p.len() as int).contains('/') {
        Some(k2.skip(p.len() as int))
    } else {
        None
    }
}

pub open spec fn repeat(s: Seq<char>, n: nat) -> Seq<char>
    decreases n,
{
    if n == 0 {
        Seq::empty()
    } else {
        repeat(s, (n - 1) as nat) + s
    }
}

pub open spec fn slash_count(k: Seq<char>) -> nat {
    k.filter(|c: char| c == '/').len()
}

/// The breadcrumb of segment `i` of `n` segments: the segment's name and the
/// link to its page.
pub open spec fn crumb(parts: Seq<Seq<char>>, i: int) -> (Seq<char>, Seq<char>) {
    (parts[i], if i == parts.len() - 1 {
        "index.html"@
    } else {
        repeat("../"@, (parts.len() - i - 1) as nat) + "index.html"@
    })
}

/// A page of topic `k` as the site generator makes it.
pub open spec fn page_ok(
    pairs: Seq<(Seq<char>, (Seq<char>, Seq<char>, Option<Seq<char>>))>,
    keys: Seq<Seq<char>>,
    k: Seq<char>,
    page: TopicPage,
) -> bool {
    let parts = split_on_slash(k);
    &&& page.topic@ == k
    &&& infos_view(page.notes@) == topic_notes(pairs, k)
    &&& topic_infos_view(page.subtopics@) == keys.filter(|k2: Seq<char>| subtopic_rest(k, k2) is Some).map_values(
        |k2: Seq<char>| (subtopic_rest(k, k2)->0, subtopic_rest(k, k2)->0, topic_notes(pairs, k2).len()),
    )
    &&& page.root_path@ == repeat("../"@, slash_count(k) + 1)
    &&& page.breadcrumbs@.len() == parts.len()
    &&& forall|i: int| 0 <= i < parts.len() ==> (#[trigger] page.breadcrumbs@[i]).0@ == crumb(parts, i).0
        && page.breadcrumbs@[i].1@ == crumb(parts, i).1
}

/// Stable insertion by lowercase title.
pub open spec fn insert_by_title(
    s: Seq<(Seq<char>, Seq<char>, Option<Seq<char>>)>,
    x: (Seq<char>, Seq<char>, Option<Seq<char>>),
) -> Seq<(Seq<char>, Seq<char>, Option<Seq<char>>)>
    decreases s.len(),
{
    if s.len() == 0 {
        seq![x]
    } else if !seq_le(lowercase_of(s[0].0), lowercase_of(x.0)) {
        seq![x] + s
    } else {
        seq![s[0]] + insert_by_title(s.drop_first(), x)
    }
}

/// Notes ordered by lowercase title; equal titles keep their order.
pub open spec fn sort_by_title(s: Seq<(Seq<char>, Seq<char>, Option<Seq<char>>)>) -> Seq<
    (Seq<char>, Seq<char>, Option<Seq<char>>),
>
    decreases s.len(),
{
    if s.len() == 0 {
        s
    } else {
        insert_by_title(sort_by_title(s.drop_last()), s.last())
    }
}

pub open spec fn page_topics(pages: Seq<TopicPage>) -> Seq<Seq<char>> {
    pages.map_values(|p: TopicPage| p.topic@)
}

/// What `plan_site` makes of the notes.
pub open spec fn site_plan_ok(notes: Seq<SiteNote>, plan: SitePlan) -> bool {
    let pairs = site_pairs(notes);
    let keys = page_topics(plan.pages@);
    &&& infos_view(plan.notes@) == sort_by_title(notes.map_values(|n: SiteNote| info_view(n.info)))
    &&& strictly_sorted(keys)
    &&& forall|k: Seq<char>| keys.contains(k) <==> is_topic_key(pairs, k)
    &&& forall|i: int| 0 <= i < plan.pages@.len() ==> page_ok(pairs, keys, keys[i], #[trigger] plan.pages@[i])
    &&& topic_infos_view(plan.top_topics@) == keys.filter(|k: Seq<char>| !k.contains('/')).map_values(
        |k: Seq<char>| (k, k, topic_notes(pairs, k).len()),
    )
}

pub open spec fn pairs_view(v: Seq<(String, NoteInfo)>) -> Seq<(Seq<char>, (Seq<char>, Seq<char>, Option<Seq<char>>))> {
    v.map_values(|p: (String, NoteInfo)| (p.0@, info_view(p.1)))
}

/// The (topic, note) pairs of the notes.
fn collect_pairs(notes: &[SiteNote]) -> (r: Vec<(String, NoteInfo)>)
    ensures
        pairs_view(r@) == site_pairs(notes@),
{
    let mut out: Vec<(String, NoteInfo)> = Vec::new();
    let mut i: usize = 0;
    assert(notes@.take(0) =~= Seq::<SiteNote>::empty());
    assert(pairs_view(out@) =~= site_pairs(notes@.take(0)));
    while i < notes.len()
        invariant
            i <= notes@.len(),
            pairs_view(out@) == site_pairs(notes@.take(i as int)),
        decreases notes@.len() - i,
    {
        let n = &notes[i];
        assert(notes@.take(i + 1).drop_last() =~= notes@.take(i as int));
        assert(notes@.take(i + 1).last() == *n);
        let ghost base = pairs_view(out@);
        let ghost added = strings_view(n.topics@).map_values(
            |t: Seq<char>| (t, info_view(n.info)),
        );
        let mut j: usize = 0;
        while j < n.topics.len()
            invariant
                j <= n.topics@.len(),
                pairs_view(out@) == base + added.take(j as int),
                added == strings_view(n.topics@).map_values(
                    |t: Seq<char>| (t, info_view(n.info)),
                ),
            decreases n.topics@.len() - j,
        {
            let ghost before = out@;
            out.push((n.topics[j].clone(), n.info.copy()));
            assert(pairs_view(out@) =~= pairs_view(before).push(added[j as int]));
            assert(added.take(j + 1) =~= added.take(j as int).push(added[j as int]));
            j = j + 1;
        }
        assert(added.take(added.len() as int) =~= added);
        i = i + 1;
    }
    assert(notes@.take(notes@.len() as int) =~= notes@);
    out
}

fn str_le(a: &str, b: &str) -> (r: bool)
    ensures
        r == seq_le(a@, b@),
{
    let av = chars_of(a);
    let bv = chars_of(b);
    chars_le(av.as_slice(), bv.as_slice())
}

/// Inserts `k` into a strictly sorted list unless it is there.
pub(crate) fn insert_key(keys: &mut Vec<String>, k: &str)
    requires
        strictly_sorted(strings_view(old(keys)@)),
    ensures
        strictly_sorted(strings_view(final(keys)@)),
        forall|x: Seq<char>| strings_view(final(keys)@).contains(x) <==> (strings_view(old(keys)@).contains(x) || x == k@),
{
    let ghost v = strings_view(keys@);
    let mut p: usize = 0;
    while p < keys.len() && !str_le(k, keys[p].as_str())
        invariant
            p <= keys@.len(),
            v == strings_view(keys@),
            forall|m: int| 0 <= m < p ==> !seq_le(k@, #[trigger] v[m]),
        decreases keys@.len() - p,
    {
        assert(v[p as int] == keys@[p as int]@);
        p = p + 1;
    }
    if p < keys.len() && str_eq(keys[p].as_str(), k) {
        assert(v[p as int] == k@);
        return;
    }
    proof {
        assert forall|m: int| 0 <= m < p implies seq_le(#[trigger] v[m], k@) && v[m] != k@ by {
            lemma_seq_le_total(k@, v[m]);
            if v[m] == k@ {
                crate::text::lemma_seq_le_reflexive(k@);
            }
        }
        if p < v.len() {
            assert(v[p as int] == keys@[p as int]@);
            assert forall|m: int| p <= m < v.len() implies seq_le(k@, #[trigger] v[m]) && v[m] != k@ by {
                if m > p {
                    lemma_seq_le_transitive(k@, v[p as int], v[m]);
                    if v[m] == k@ {
                        lemma_seq_le_antisymmetric(k@, v[p as int]);
                    }
                }
            }
        }
    }
    let ghost kv = k@;
    keys.insert(p, String::from_str(k));
    let ghost w = strings_view(keys@);
    assert(w =~= v.insert(p as int, kv));
    assert forall|a: int, b: int| 0 <= a < b < w.len() implies seq_le(w[a], w[b]) && w[a] != w[b] by {
        if a < p && b < p {
            assert(w[a] == v[a] && w[b] == v[b]);
        } else if a < p && b == p {
            assert(w[a] == v[a]);
        } else if a < p {
            assert(w[a] == v[a] && w[b] == v[b - 1]);
            lemma_seq_le_transitive(v[a], kv, v[b - 1]);
            assert(seq_le(v[a], v[b - 1]));
        } else if a == p {
            assert(w[b] == v[b - 1]);
        } else {
            assert(w[a] == v[a - 1] && w[b] == v[b - 1]);
        }
    }
    assert forall|x: Seq<char>| w.contains(x) <==> (v.contains(x) || x == kv) by {
        if w.contains(x) {
            let q = choose|q: int| 0 <= q < w.len() && w[q] == x;
            if q < p {
                assert(v[q] == x);
            } else if q > p {
                assert(v[q - 1] == x);
            }
        }
        if v.contains(x) {
            let q = choose|q: int| 0 <= q < v.len() && v[q] == x;
            if q < p {
                assert(w[q] == x);
            } else {
                assert(w[q + 1] == x);
            }
        }
        if x == kv {
            assert(w[p as int] == x);
        }
    }
}

/// The topic paths, sorted, each once.
fn topic_keys(pairs: &Vec<(String, NoteInfo)>) -> (r: Vec<String>)
    ensures
        strictly_sorted(strings_view(r@)),
        forall|k: Seq<char>| strings_view(r@).contains(k) <==> is_topic_key(pairs_view(pairs@), k),
{
    let ghost pv = pairs_view(pairs@);
    let mut keys: Vec<String> = Vec::new();
    let mut i: usize = 0;
    while i < pairs.len()
        invariant
            i <= pairs@.len(),
            pv == pairs_view(pairs@),
            strictly_sorted(strings_view(keys@)),
            forall|k: Seq<char>| strings_view(keys@).contains(k) <==> is_topic_key(pv.take(i as int), k),
        decreases pairs@.len() - i,
    {
        insert_key(&mut keys, pairs[i].0.as_str());
        proof {
            let t = pv.take(i + 1);
            assert(t[i as int].0 == pairs@[i as int].0@);
            assert forall|k: Seq<char>| is_topic_key(t, k) <==> (is_topic_key(pv.take(i as int), k) || k == pairs@[i as int].0@) by {
                if is_topic_key(t, k) {
                    let q = choose|q: int| 0 <= q < t.len() && (#[trigger] t[q]).0 == k;
                    if q < i {
                        assert(pv.take(i as int)[q] == t[q]);
                    }
                }
                if is_topic_key(pv.take(i as int), k) {
                    let q = choose|q: int| 0 <= q < i && (#[trigger] pv.take(i as int)[q]).0 == k;
                    assert(t[q] == pv.take(i as int)[q]);
                }
            }
        }
        i = i + 1;
    }
    proof {
        assert(pv.take(pv.len() as int) =~= pv);
    }
    keys
}

/// The notes with topic `k`, in order.
fn notes_for(pairs: &Vec<(String, NoteInfo)>, k: &str) -> (r: Vec<NoteInfo>)
    ensures
        infos_view(r@) == topic_notes(pairs_view(pairs@), k@),
{
    let ghost pv = pairs_view(pairs@);
    let ghost keep = |p: (Seq<char>, (Seq<char>, Seq<char>, Option<Seq<char>>))| p.0 == k@;
    let ghost second = |p: (Seq<char>, (Seq<char>, Seq<char>, Option<Seq<char>>))| p.1;
    let mut out: Vec<NoteInfo> = Vec::new();
    let mut i: usize = 0;
    assert(pv.take(0).filter(keep) =~= Seq::<(Seq<char>, (Seq<char>, Seq<char>, Option<Seq<char>>))>::empty());
    assert(infos_view(out@) =~= pv.take(0).filter(keep).map_values(second));
    while i < pairs.len()
        invariant
            i <= pairs@.len(),
            pv == pairs_view(pairs@),
            keep == (|p: (Seq<char>, (Seq<char>, Seq<char>, Option<Seq<char>>))| p.0 == k@),
            second == (|p: (Seq<char>, (Seq<char>, Seq<char>, Option<Seq<char>>))| p.1),
            infos_view(out@) == pv.take(i as int).filter(keep).map_values(second),
        decreases pairs@.len() - i,
    {
        let ghost e = pv[i as int];
        assert(pv.take(i + 1) =~= pv.take(i as int).push(e));
        proof {
            pv.take(i as int).lemma_filter_push(e, keep);
        }
        if str_eq(pairs[i].0.as_str(), k) {
            let ghost before = out@;
            out.push(pairs[i].1.copy());
            assert(infos_view(out@) =~= infos_view(before).push(e.1));
            assert(pv.take(i as int).filter(keep).push(e).map_values(second) =~= pv.take(
                i as int,
            ).filter(keep).map_values(second).push(e.1));
        }
        i = i + 1;
    }
    assert(pv.take(pv.len() as int) =~= pv);
    out
}

/// `s` repeated `n` times.
fn repeat_str(s: &str, n: usize) -> (r: String)
    ensures
        r@ == repeat(s@, n as nat),
{
    let mut out = String::new();
    let mut i: usize = 0;
    while i < n
        invariant
            i <= n,
            out@ == repeat(s@, i as nat),
        decreases n - i,
    {
        out.append(s);
        i = i + 1;
    }
    out
}

fn count_slashes(k: &[char]) -> (r: usize)
    ensures
        r == slash_count(k@),
{
    let ghost is_slash = |c: char| c == '/';
    let mut n: usize = 0;
    let mut i: usize = 0;
    assert(k@.take(0).filter(is_slash) =~= Seq::<char>::empty());
    while i < k.len()
        invariant
            i <= k@.len(),
            is_slash == (|c: char| c == '/'),
            n == k@.take(i as int).filter(is_slash).len(),
            n <= i,
        decreases k@.len() - i,
    {
        assert(k@.take(i + 1) =~= k@.take(i as int).push(k@[i as int]));
        proof {
            k@.take(i as int).lemma_filter_push(k@[i as int], is_slash);
        }
        if k[i] == '/' {
            n = n + 1;
        }
        i = i + 1;
    }
    assert(k@.take(k@.len() as int) =~= k@);
    n
}

/// The name of `k2` under `k` when it is one level below.
fn subtopic_name(k: &[char], k2: &[char]) -> (r: Option<Vec<char>>)
    ensures
        match subtopic_rest(k@, k2@) {
            Some(rest) => r matches Some(v) && v@ == rest,
            None => r is None,
        },
{
    let mut p: Vec<char> = Vec::new();
    let mut i: usize = 0;
    while i < k.len()
        invariant
            i <= k@.len(),
            p@ == k@.take(i as int),
        decreases k@.len() - i,
    {
        p.push(k[i]);
        i = i + 1;
        assert(p@ =~= k@.take(i as int));
    }
    assert(k@.take(k@.len() as int) =~= k@);
    p.push('/');
    if !chars_starts_with(k2, p.as_slice()) {
        return None;
    }
    let start = p.len();
    let mut rest: Vec<char> = Vec::new();
    let mut j: usize = start;
    while j < k2.len()
        invariant
            start <= j <= k2@.len(),
            start == p@.len(),
            p@ == k@.push('/'),
            starts_with(k2@, p@),
            rest@ == k2@.subrange(start as int, j as int),
            forall|m: int| 0 <= m < rest@.len() ==> rest@[m] != '/',
        decreases k2@.len() - j,
    {
        if k2[j] == '/' {
            assert(k2@.skip(start as int)[j - start] == '/');
            return None;
        }
        rest.push(k2[j]);
        j = j + 1;
        assert(rest@ =~= k2@.subrange(start as int, j as int));
    }
    assert(rest@ =~= k2@.skip(start as int));
    Some(rest)
}

/// The subtopics of `k` among the sorted keys, with their note counts.
fn subtopics_for(pairs: &Vec<(String, NoteInfo)>, keys: &Vec<String>, k: &str) -> (r: Vec<TopicInfo>)
    ensures
        topic_infos_view(r@) == strings_view(keys@).filter(
            |k2: Seq<char>| subtopic_rest(k@, k2) is Some,
        ).map_values(
            |k2: Seq<char>|
                (subtopic_rest(k@, k2)->0, subtopic_rest(k@, k2)->0, topic_notes(pairs_view(pairs@), k2).len()),
        ),
{
    let ghost kv = strings_view(keys@);
    let ghost keep = |k2: Seq<char>| subtopic_rest(k@, k2) is Some;
    let ghost f = |k2: Seq<char>|
        (subtopic_rest(k@, k2)->0, subtopic_rest(k@, k2)->0, topic_notes(pairs_view(pairs@), k2).len());
    let kc = chars_of(k);
    let mut out: Vec<TopicInfo> = Vec::new();
    let mut i: usize = 0;
    assert(kv.take(0).filter(keep) =~= Seq::<Seq<char>>::empty());
    assert(topic_infos_view(out@) =~= kv.take(0).filter(keep).map_values(f));
    while i < keys.len()
        invariant
            i <= keys@.len(),
            kv == strings_view(keys@),
            kc@ == k@,
            keep == (|k2: Seq<char>| subtopic_rest(k@, k2) is Some),
            f == (|k2: Seq<char>|
                (subtopic_rest(k@, k2)->0, subtopic_rest(k@, k2)->0, topic_notes(pairs_view(pairs@), k2).len())),
            topic_infos_view(out@) == kv.take(i as int).filter(keep).map_values(f),
        decreases keys@.len() - i,
    {
        let ghost e = kv[i as int];
        assert(e == keys@[i as int]@);
        assert(kv.take(i + 1) =~= kv.take(i as int).push(e));
        proof {
            kv.take(i as int).lemma_filter_push(e, keep);
        }
        let k2 = chars_of(keys[i].as_str());
        match subtopic_name(kc.as_slice(), k2.as_slice()) {
            Some(rest) => {
                let count = notes_for(pairs, keys[i].as_str()).len();
                assert(count == topic_notes(pairs_view(pairs@), e).len());
                let name = string_from_chars(rest.as_slice());
                let path = string_from_chars(rest.as_slice());
                let ghost before = out@;
                out.push(TopicInfo { name, path, count });
                assert(topic_infos_view(out@) =~= topic_infos_view(before).push(f(e)));
                assert(kv.take(i as int).filter(keep).push(e).map_values(f) =~= kv.take(
                    i as int,
                ).filter(keep).map_values(f).push(f(e)));
            },
            None => {},
        }
        i = i + 1;
    }
    assert(kv.take(kv.len() as int) =~= kv);
    out
}

pub open spec fn char_vecs_view(v: Seq<Vec<char>>) -> Seq<Seq<char>> {
    v.map_values(|x: Vec<char>| x@)
}

/// `str::split('/')` of a character slice.
fn split_slash(k: &[char]) -> (r: Vec<Vec<char>>)
    ensures
        char_vecs_view(r@) == split_on_slash(k@),
{
    let mut done: Vec<Vec<char>> = Vec::new();
    let mut cur: Vec<char> = Vec::new();
    let mut i: usize = 0;
    assert(k@.take(0) =~= Seq::<char>::empty());
    assert(char_vecs_view(done@).push(cur@) =~= split_on_slash(k@.take(0)));
    while i < k.len()
        invariant
            i <= k@.len(),
            char_vecs_view(done@).push(cur@) == split_on_slash(k@.take(i as int)),
        decreases k@.len() - i,
    {
        assert(k@.take(i + 1).drop_last() =~= k@.take(i as int));
        assert(k@.take(i + 1).last() == k@[i as int]);
        let ghost prev = split_on_slash(k@.take(i as int));
        if k[i] == '/' {
            let ghost d = char_vecs_view(done@);
            let ghost cv = cur@;
            let piece = cur;
            done.push(piece);
            cur = Vec::new();
            assert(char_vecs_view(done@) =~= d.push(cv));
            assert(char_vecs_view(done@).push(cur@) =~= prev.push(Seq::<char>::empty()));
        } else {
            let ghost d = char_vecs_view(done@);
            cur.push(k[i]);
            assert(d.push(cur@) =~= prev.update(prev.len() - 1, prev.last().push(k@[i as int])));
        }
        i = i + 1;
    }
    assert(k@.take(k@.len() as int) =~= k@);
    let ghost d = char_vecs_view(done@);
    let ghost cv = cur@;
    done.push(cur);
    assert(char_vecs_view(done@) =~= d.push(cv));
    done
}

/// The breadcrumbs of topic `k`.
fn breadcrumbs(k: &[char]) -> (r: Vec<(String, String)>)
    ensures
        r@.len() == split_on_slash(k@).len(),
        forall|i: int| 0 <= i < r@.len() ==> (#[trigger] r@[i]).0@ == crumb(split_on_slash(k@), i).0
            && r@[i].1@ == crumb(split_on_slash(k@), i).1,
{
    let parts = split_slash(k);
    let ghost pv = char_vecs_view(parts@);
    let n = parts.len();
    let mut out: Vec<(String, String)> = Vec::new();
    let mut i: usize = 0;
    while i < n
        invariant
            i <= n == parts@.len(),
            pv == char_vecs_view(parts@),
            pv == split_on_slash(k@),
            out@.len() == i,
            forall|m: int| 0 <= m < i ==> (#[trigger] out@[m]).0@ == crumb(pv, m).0 && out@[m].1@
                == crumb(pv, m).1,
        decreases n - i,
    {
        let name = string_from_chars(parts[i].as_slice());
        let path = if i == n - 1 {
            String::from_str("index.html")
        } else {
            let mut p = repeat_str("../", n - i - 1);
            p.append("index.html");
            p
        };
        assert(pv[i as int] == parts@[i as int]@);
        out.push((name, path));
        i = i + 1;
    }
    out
}

/// The page of topic `k`.
fn build_page(pairs: &Vec<(String, NoteInfo)>, keys: &Vec<String>, k: &str) -> (r: TopicPage)
    ensures
        page_ok(pairs_view(pairs@), strings_view(keys@), k@, r),
{
    let kc = chars_of(k);
    let notes = notes_for(pairs, k);
    let subtopics = subtopics_for(pairs, keys, k);
    let slashes = count_slashes(kc.as_slice());
    let mut root_path = repeat_str("../", slashes);
    root_path.append("../");
    assert(repeat("../"@, slashes as nat + 1) == repeat("../"@, slashes as nat) + "../"@);
    let crumbs = breadcrumbs(kc.as_slice());
    TopicPage { topic: String::from_str(k), notes, subtopics, breadcrumbs: crumbs, root_path }
}

proof fn lemma_insert_by_title_at(
    s: Seq<(Seq<char>, Seq<char>, Option<Seq<char>>)>,
    x: (Seq<char>, Seq<char>, Option<Seq<char>>),
    k: int,
)
    requires
        0 <= k <= s.len(),
        forall|m: int| 0 <= m < k ==> seq_le(lowercase_of((#[trigger] s[m]).0), lowercase_of(x.0)),
        k < s.len() ==> !seq_le(lowercase_of(s[k].0), lowercase_of(x.0)),
    ensures
        insert_by_title(s, x) == s.insert(k, x),
    decreases s.len(),
{
    if s.len() == 0 {
        assert(s.insert(k, x) =~= seq![x]);
    } else if k == 0 {
        assert(s.insert(0, x) =~= seq![x] + s);
    } else {
        assert(seq_le(lowercase_of(s[0].0), lowercase_of(x.0)));
        lemma_insert_by_title_at(s.drop_first(), x, k - 1);
        assert(seq![s[0]] + s.drop_first().insert(k - 1, x) =~= s.insert(k, x));
    }
}

fn lower_title(i: &NoteInfo) -> (r: Vec<char>)
    ensures
        r@ == lowercase_of(i.title@),
{
    let l = to_lowercase(i.title.as_str());
    chars_of(l.as_str())
}

/// The notes' infos ordered by lowercase title (stable).
fn sorted_infos(notes: &[SiteNote]) -> (r: Vec<NoteInfo>)
    ensures
        infos_view(r@) == sort_by_title(notes@.map_values(|n: SiteNote| info_view(n.info))),
{
    let ghost all = notes@.map_values(|n: SiteNote| info_view(n.info));
    let mut out: Vec<NoteInfo> = Vec::new();
    let mut i: usize = 0;
    assert(all.take(0) =~= Seq::<(Seq<char>, Seq<char>, Option<Seq<char>>)>::empty());
    assert(infos_view(out@) =~= sort_by_title(all.take(0)));
    while i < notes.len()
        invariant
            i <= notes@.len(),
            all == notes@.map_values(|n: SiteNote| info_view(n.info)),
            infos_view(out@) == sort_by_title(all.take(i as int)),
        decreases notes@.len() - i,
    {
        let x = notes[i].info.copy();
        let xl = lower_title(&x);
        let ghost ov = infos_view(out@);
        let mut k: usize = 0;
        while k < out.len() && chars_le(lower_title(&out[k]).as_slice(), xl.as_slice())
            invariant
                k <= out@.len(),
                ov == infos_view(out@),
                xl@ == lowercase_of(x.title@),
                forall|m: int| 0 <= m < k ==> seq_le(lowercase_of((#[trigger] ov[m]).0), lowercase_of(x.title@)),
            decreases out@.len() - k,
        {
            assert(ov[k as int] == info_view(out@[k as int]));
            k = k + 1;
        }
        proof {
            if k < ov.len() {
                assert(ov[k as int] == info_view(out@[k as int]));
            }
            lemma_insert_by_title_at(ov, info_view(x), k as int);
            assert(all.take(i + 1).drop_last() =~= all.take(i as int));
            assert(all.take(i + 1).last() == info_view(x));
        }
        let ghost xv = info_view(x);
        out.insert(k, x);
        assert(infos_view(out@) =~= ov.insert(k as int, xv));
        i = i + 1;
    }
    assert(all.take(all.len() as int) =~= all);
    out
}

/// The topics without `/`, with their note counts.
fn top_topics(pairs: &Vec<(String, NoteInfo)>, keys: &Vec<String>) -> (r: Vec<TopicInfo>)
    ensures
        topic_infos_view(r@) == strings_view(keys@).filter(|k: Seq<char>| !k.contains('/')).map_values(
            |k: Seq<char>| (k, k, topic_notes(pairs_view(pairs@), k).len()),
        ),
{
    let ghost kv = strings_view(keys@);
    let ghost keep = |k: Seq<char>| !k.contains('/');
    let ghost f = |k: Seq<char>| (k, k, topic_notes(pairs_view(pairs@), k).len());
    let mut out: Vec<TopicInfo> = Vec::new();
    let mut i: usize = 0;
    assert(kv.take(0).filter(keep) =~= Seq::<Seq<char>>::empty());
    assert(topic_infos_view(out@) =~= kv.take(0).filter(keep).map_values(f));
    while i < keys.len()
        invariant
            i <= keys@.len(),
            kv == strings_view(keys@),
            keep == (|k: Seq<char>| !k.contains('/')),
            f == (|k: Seq<char>| (k, k, topic_notes(pairs_view(pairs@), k).len())),
            topic_infos_view(out@) == kv.take(i as int).filter(keep).map_values(f),
        decreases keys@.len() - i,
    {
        let ghost e = kv[i as int];
        assert(e == keys@[i as int]@);
        assert(kv.take(i + 1) =~= kv.take(i as int).push(e));
        proof {
            kv.take(i as int).lemma_filter_push(e, keep);
        }
        let kc = chars_of(keys[i].as_str());
        if count_slashes(kc.as_slice()) == 0 {
            proof {
                if e.contains('/') {
                    let q = choose|q: int| 0 <= q < e.len() && e[q] == '/';
                    let is_slash = |c: char| c == '/';
                    e.lemma_filter_contains(is_slash, q);
                }
            }
            let count = notes_for(pairs, keys[i].as_str()).len();
            let ghost before = out@;
            out.push(TopicInfo { name: keys[i].clone(), path: keys[i].clone(), count });
            assert(topic_infos_view(out@) =~= topic_infos_view(before).push(f(e)));
            assert(kv.take(i as int).filter(keep).push(e).map_values(f) =~= kv.take(
                i as int,
            ).filter(keep).map_values(f).push(f(e)));
        } else {
            proof {
                let is_slash = |c: char| c == '/';
                let fl = e.filter(is_slash);
                assert(fl.len() > 0);
                e.lemma_filter_pred(is_slash, 0);
                e.lemma_filter_contains_rev(is_slash, fl[0]);
            }
        }
        i = i + 1;
    }
    assert(kv.take(kv.len() as int) =~= kv);
    out
}

/// The structure of a static site for `notes` (see `site_plan_ok`): the
/// notes by title, a page per topic with its notes, direct subtopics,
/// breadcrumbs and the way back to the root, and the top-level topics.
pub fn plan_site(notes: &[SiteNote]) -> (r: SitePlan)
    ensures
        site_plan_ok(notes@, r),
{
    let pairs = collect_pairs(notes);
    let keys = topic_keys(&pairs);
    let ghost kv = strings_view(keys@);
    let mut pages: Vec<TopicPage> = Vec::new();
    let mut i: usize = 0;
    while i < keys.len()
        invariant
            i <= keys@.len(),
            kv == strings_view(keys@),
            pages@.len() == i,
            forall|m: int| 0 <= m < i ==> (#[trigger] pages@[m]).topic@ == kv[m],
            forall|m: int| 0 <= m < i ==> page_ok(pairs_view(pairs@), kv, kv[m], #[trigger] pages@[m]),
        decreases keys@.len() - i,
    {
        let page = build_page(&pairs, &keys, keys[i].as_str());
        pages.push(page);
        i = i + 1;
    }
    assert(page_topics(pages@) =~= kv);
    let tops = top_topics(&pairs, &keys);
    let sorted = sorted_infos(notes);
    SitePlan { notes: sorted, top_topics: tops, pages }
}

} // verus!
