//! What the index holds in aggregate: the tags, relationship types and
//! topics in use, each with how often it is used.

use vstd::prelude::*;
use vstd::string::StringExecFns;
use crate::cli::args::{RelsArgs, TagsArgs, TopicsArgs};
use crate::cli::output::{OutputFormat, RelListing, TagListing, TopicListing};
use crate::cli::index::{notes_view, IndexedNote, IndexedNoteView, NoteIndex};
use crate::domain::note::{strings_view, tags_view, topics_view};
use crate::domain::topic::join_slash;
use crate::export::site_plan::{insert_key, strictly_sorted};
use crate::text::{decimal, usize_to_string, chars_eq, chars_of, chars_starts_with, starts_with, str_eq};

verus! {

/// A name in use and how often it is used.
#[derive(Debug)]
pub struct NameCount {
    pub name: String,
    pub count: usize,
}

pub open spec fn name_counts_view(v: Seq<NameCount>) -> Seq<(Seq<char>, nat)> {
    v.map_values(|c: NameCount| (c.name@, c.count as nat))
}

/// Some note carries the tag.
pub open spec fn tag_used(idx: Seq<IndexedNoteView>, t: Seq<char>) -> bool {
    exists|i: int| 0 <= i < idx.len() && (#[trigger] idx[i]).tags.contains(t)
}

/// The number of notes carrying the tag.
pub open spec fn tag_count(idx: Seq<IndexedNoteView>, t: Seq<char>) -> nat {
    idx.filter(|n: IndexedNoteView| n.tags.contains(t)).len()
}

/// The tags of the notes before position `i`, and the first `j` tags of note `i`.
spec fn tag_seen(idx: Seq<IndexedNoteView>, i: int, j: int, t: Seq<char>) -> bool {
    ||| exists|a: int| 0 <= a < i && (#[trigger] idx[a]).tags.contains(t)
    ||| exists|b: int| 0 <= b < j && idx[i].tags[b] == t
}

/// Every tag in use, sorted, each once.
fn used_tags(notes: &Vec<IndexedNote>) -> (r: Vec<String>)
    ensures
        strictly_sorted(strings_view(r@)),
        forall|t: Seq<char>| strings_view(r@).contains(t) <==> tag_used(notes_view(notes@), t),
{
    let ghost nv = notes_view(notes@);
    let mut names: Vec<String> = Vec::new();
    let mut i: usize = 0;
    while i < notes.len()
        invariant
            i <= notes@.len(),
            nv == notes_view(notes@),
            strictly_sorted(strings_view(names@)),
            forall|t: Seq<char>| strings_view(names@).contains(t) <==> (exists|a: int|
                0 <= a < i && (#[trigger] nv[a]).tags.contains(t)),
        decreases notes@.len() - i,
    {
        let tags = notes[i].tags();
        let mut j: usize = 0;
        while j < tags.len()
            invariant
                i < notes@.len(),
                j <= tags@.len(),
                nv == notes_view(notes@),
                tags_view(tags@) == nv[i as int].tags,
                strictly_sorted(strings_view(names@)),
                forall|t: Seq<char>| strings_view(names@).contains(t) <==> tag_seen(nv, i as int, j as int, t),
            decreases tags@.len() - j,
        {
            proof {
                assert(nv[i as int].tags[j as int] == tags@[j as int]@);
            }
            insert_key(&mut names, tags[j].as_str());
            proof {
                assert forall|t: Seq<char>| strings_view(names@).contains(t) <==> tag_seen(nv, i as int, j + 1, t) by {
                    if t == tags@[j as int]@ {
                        assert(nv[i as int].tags[j as int] == t);
                    }
                    if tag_seen(nv, i as int, j + 1, t) && !tag_seen(nv, i as int, j as int, t) {
                        let b = choose|b: int| 0 <= b < j + 1 && nv[i as int].tags[b] == t;
                        assert(b == j);
                    }
                }
            }
            j = j + 1;
        }
        proof {
            assert forall|t: Seq<char>| strings_view(names@).contains(t) <==> (exists|a: int|
                0 <= a < i + 1 && (#[trigger] nv[a]).tags.contains(t)) by {
                if tag_seen(nv, i as int, tags@.len() as int, t) {
                    if !(exists|a: int| 0 <= a < i && (#[trigger] nv[a]).tags.contains(t)) {
                        let b = choose|b: int| 0 <= b < tags@.len() && nv[i as int].tags[b] == t;
                        assert(nv[i as int].tags.contains(t));
                    }
                }
                if exists|a: int| 0 <= a < i + 1 && (#[trigger] nv[a]).tags.contains(t) {
                    let a = choose|a: int| 0 <= a < i + 1 && (#[trigger] nv[a]).tags.contains(t);
                    if a == i {
                        let b = choose|b: int| 0 <= b < nv[i as int].tags.len() && nv[i as int].tags[b] == t;
                        assert(tag_seen(nv, i as int, tags@.len() as int, t));
                    }
                }
            }
        }
        i = i + 1;
    }
    names
}

/// The number of notes carrying the tag `t`.
fn count_tag(notes: &Vec<IndexedNote>, t: &str) -> (r: usize)
    ensures
        r == tag_count(notes_view(notes@), t@),
{
    let ghost nv = notes_view(notes@);
    let ghost keep = |n: IndexedNoteView| n.tags.contains(t@);
    let mut c: usize = 0;
    let mut i: usize = 0;
    assert(nv.take(0).filter(keep) =~= Seq::<IndexedNoteView>::empty());
    while i < notes.len()
        invariant
            i <= notes@.len(),
            nv == notes_view(notes@),
            keep == (|n: IndexedNoteView| n.tags.contains(t@)),
            c == nv.take(i as int).filter(keep).len(),
            c <= i,
        decreases notes@.len() - i,
    {
        let tags = notes[i].tags();
        let mut found = false;
        let mut j: usize = 0;
        while j < tags.len()
            invariant
                i < notes@.len(),
                j <= tags@.len(),
                tags_view(tags@) == nv[i as int].tags,
                found == (exists|b: int| 0 <= b < j && nv[i as int].tags[b] == t@),
            decreases tags@.len() - j,
        {
            assert(nv[i as int].tags[j as int] == tags@[j as int]@);
            if str_eq(tags[j].as_str(), t) {
                found = true;
            }
            j = j + 1;
        }
        proof {
            assert(nv.take(i + 1) =~= nv.take(i as int).push(nv[i as int]));
            nv.take(i as int).lemma_filter_push(nv[i as int], keep);
            if found {
                let b = choose|b: int| 0 <= b < tags@.len() && nv[i as int].tags[b] == t@;
                assert(nv[i as int].tags.contains(t@));
            }
            if nv[i as int].tags.contains(t@) {
                let b = choose|b: int| 0 <= b < nv[i as int].tags.len() && nv[i as int].tags[b] == t@;
                assert(found);
            }
        }
        if found {
            c = c + 1;
        }
        i = i + 1;
    }
    assert(nv.take(notes@.len() as int) =~= nv);
    c
}

/// Every tag in use, sorted by name, with the number of notes carrying it.
pub fn all_tags(index: &NoteIndex) -> (r: Vec<NameCount>)
    ensures
        strictly_sorted(name_counts_view(r@).map_values(|p: (Seq<char>, nat)| p.0)),
        forall|t: Seq<char>|
            name_counts_view(r@).map_values(|p: (Seq<char>, nat)| p.0).contains(t) <==> tag_used(
                index@,
                t,
            ),
        forall|k: int|
            0 <= k < r@.len() ==> (#[trigger] r@[k]).count == tag_count(index@, r@[k].name@),
{
    let notes = index.list_all();
    let names = used_tags(&notes);
    let ghost sv = strings_view(names@);
    let mut out: Vec<NameCount> = Vec::new();
    let mut k: usize = 0;
    while k < names.len()
        invariant
            k <= names@.len(),
            sv == strings_view(names@),
            notes_view(notes@) == index@,
            out@.len() == k,
            forall|m: int| 0 <= m < k ==> (#[trigger] out@[m]).name@ == sv[m],
            forall|m: int| 0 <= m < k ==> (#[trigger] out@[m]).count == tag_count(index@, out@[m].name@),
        decreases names@.len() - k,
    {
        let c = count_tag(&notes, names[k].as_str());
        out.push(NameCount { name: names[k].clone(), count: c });
        k = k + 1;
    }
    assert(name_counts_view(out@).map_values(|p: (Seq<char>, nat)| p.0) =~= sv);
    out
}

/// A link as the index holds it: target, relationship types, context.
pub type LinkView = (crate::domain::note_id::NoteId, Seq<Seq<char>>, Option<Seq<char>>);

/// The relationship types of the links, in order (with repetitions).
pub open spec fn rels_of_links(ls: Seq<LinkView>) -> Seq<Seq<char>>
    decreases ls.len(),
{
    if ls.len() == 0 {
        Seq::empty()
    } else {
        rels_of_links(ls.drop_last()) + ls.last().1
    }
}

/// Some link of some note has the relationship type.
pub open spec fn rel_used(idx: Seq<IndexedNoteView>, r: Seq<char>) -> bool {
    exists|i: int, l: int|
        0 <= i < idx.len() && 0 <= l < idx[i].links.len() && (#[trigger] idx[i].links[l]).1.contains(r)
}

/// The number of links of `ls` with the relationship type.
pub open spec fn links_with_rel(ls: Seq<LinkView>, r: Seq<char>) -> nat {
    ls.filter(|l: LinkView| l.1.contains(r)).len()
}

/// The number of links, over all notes, with the relationship type.
pub open spec fn rel_count(idx: Seq<IndexedNoteView>, r: Seq<char>) -> nat
    decreases idx.len(),
{
    if idx.len() == 0 {
        0
    } else {
        rel_count(idx.drop_last(), r) + links_with_rel(idx.last().links, r)
    }
}

proof fn lemma_rels_of_links_contains(ls: Seq<LinkView>, r: Seq<char>)
    ensures
        rels_of_links(ls).contains(r) <==> exists|l: int| 0 <= l < ls.len() && (#[trigger] ls[l]).1.contains(r),
    decreases ls.len(),
{
    if ls.len() > 0 {
        let init = ls.drop_last();
        lemma_rels_of_links_contains(init, r);
        let a = rels_of_links(init);
        let b = ls.last().1;
        if rels_of_links(ls).contains(r) {
            let k = choose|k: int| 0 <= k < (a + b).len() && (a + b)[k] == r;
            if k < a.len() {
                assert(a[k] == r);
                let l = choose|l: int| 0 <= l < init.len() && (#[trigger] init[l]).1.contains(r);
                assert(ls[l] == init[l]);
            } else {
                assert(b[k - a.len()] == r);
                assert(ls[ls.len() - 1].1.contains(r));
            }
        }
        if exists|l: int| 0 <= l < ls.len() && (#[trigger] ls[l]).1.contains(r) {
            let l = choose|l: int| 0 <= l < ls.len() && (#[trigger] ls[l]).1.contains(r);
            if l < ls.len() - 1 {
                assert(init[l] == ls[l]);
                assert(a.contains(r));
                let k = choose|k: int| 0 <= k < a.len() && a[k] == r;
                assert((a + b)[k] == r);
            } else {
                let k = choose|k: int| 0 <= k < b.len() && b[k] == r;
                assert((a + b)[a.len() + k] == r);
            }
        }
    }
}

/// The relationship types of the links, in order.
fn link_rel_names(links: &[crate::domain::link::Link]) -> (r: Vec<String>)
    ensures
        strings_view(r@) == rels_of_links(crate::cli::links::links_view(links@)),
{
    let ghost lv = crate::cli::links::links_view(links@);
    let mut out: Vec<String> = Vec::new();
    let mut i: usize = 0;
    assert(lv.take(0) =~= Seq::<LinkView>::empty());
    while i < links.len()
        invariant
            i <= links@.len(),
            lv == crate::cli::links::links_view(links@),
            strings_view(out@) == rels_of_links(lv.take(i as int)),
        decreases links@.len() - i,
    {
        let rels = links[i].rel();
        let ghost base = strings_view(out@);
        let mut j: usize = 0;
        while j < rels.len()
            invariant
                j <= rels@.len(),
                crate::domain::link::rels_view(rels@) == lv[i as int].1,
                strings_view(out@) == base + lv[i as int].1.take(j as int),
            decreases rels@.len() - j,
        {
            let ghost before = strings_view(out@);
            let name = String::from_str(rels[j].as_str());
            out.push(name);
            assert(strings_view(out@) =~= before.push(lv[i as int].1[j as int]));
            assert(lv[i as int].1.take(j + 1) =~= lv[i as int].1.take(j as int).push(lv[i as int].1[j as int]));
            j = j + 1;
        }
        assert(lv[i as int].1.take(rels@.len() as int) =~= lv[i as int].1);
        assert(lv.take(i + 1).drop_last() =~= lv.take(i as int));
        i = i + 1;
    }
    assert(lv.take(links@.len() as int) =~= lv);
    out
}

/// Every relationship type in use, sorted, each once.
fn used_rels(notes: &Vec<IndexedNote>) -> (r: Vec<String>)
    ensures
        strictly_sorted(strings_view(r@)),
        forall|t: Seq<char>| strings_view(r@).contains(t) <==> rel_used(notes_view(notes@), t),
{
    let ghost nv = notes_view(notes@);
    let mut names: Vec<String> = Vec::new();
    let mut i: usize = 0;
    while i < notes.len()
        invariant
            i <= notes@.len(),
            nv == notes_view(notes@),
            strictly_sorted(strings_view(names@)),
            forall|t: Seq<char>| strings_view(names@).contains(t) <==> (exists|a: int|
                0 <= a < i && #[trigger] rels_of_links(nv[a].links).contains(t)),
        decreases notes@.len() - i,
    {
        let flat = link_rel_names(notes[i].links());
        let ghost fv = strings_view(flat@);
        let mut j: usize = 0;
        while j < flat.len()
            invariant
                i < notes@.len(),
                j <= flat@.len(),
                nv == notes_view(notes@),
                fv == strings_view(flat@),
                fv == rels_of_links(nv[i as int].links),
                strictly_sorted(strings_view(names@)),
                forall|t: Seq<char>| strings_view(names@).contains(t) <==> ((exists|a: int|
                    0 <= a < i && #[trigger] rels_of_links(nv[a].links).contains(t)) || fv.take(
                    j as int,
                ).contains(t)),
            decreases flat@.len() - j,
        {
            assert(fv[j as int] == flat@[j as int]@);
            let ghost before = strings_view(names@);
            insert_key(&mut names, flat[j].as_str());
            proof {
                assert(fv.take(j + 1) =~= fv.take(j as int).push(fv[j as int]));
                assert forall|t: Seq<char>| fv.take(j + 1).contains(t) <==> (fv.take(j as int).contains(t)
                    || t == fv[j as int]) by {
                    if fv.take(j + 1).contains(t) {
                        let k = choose|k: int| 0 <= k < j + 1 && #[trigger] fv.take(j + 1)[k] == t;
                        if k < j {
                            assert(fv.take(j as int)[k] == t);
                        }
                    }
                    if fv.take(j as int).contains(t) {
                        let k = choose|k: int| 0 <= k < j && #[trigger] fv.take(j as int)[k] == t;
                        assert(fv.take(j + 1)[k] == t);
                    }
                    if t == fv[j as int] {
                        assert(fv.take(j + 1)[j as int] == t);
                    }
                }
                assert forall|t: Seq<char>| strings_view(names@).contains(t) <==> ((exists|a: int|
                    0 <= a < i && #[trigger] rels_of_links(nv[a].links).contains(t)) || fv.take(
                    j + 1,
                ).contains(t)) by {
                    assert(before.contains(t) <==> ((exists|a: int|
                        0 <= a < i && #[trigger] rels_of_links(nv[a].links).contains(t)) || fv.take(
                        j as int,
                    ).contains(t)));
                }
            }
            j = j + 1;
        }
        proof {
            assert(fv.take(flat@.len() as int) =~= fv);
            assert forall|t: Seq<char>| strings_view(names@).contains(t) <==> (exists|a: int|
                0 <= a < i + 1 && #[trigger] rels_of_links(nv[a].links).contains(t)) by {
                if fv.contains(t) {
                    assert(rels_of_links(nv[i as int].links).contains(t));
                }
                if exists|a: int| 0 <= a < i + 1 && #[trigger] rels_of_links(nv[a].links).contains(t) {
                    let a = choose|a: int| 0 <= a < i + 1 && #[trigger] rels_of_links(nv[a].links).contains(t);
                    if a == i {
                        assert(fv.contains(t));
                    }
                }
            }
        }
        i = i + 1;
    }
    proof {
        assert forall|t: Seq<char>| strings_view(names@).contains(t) <==> rel_used(nv, t) by {
            if strings_view(names@).contains(t) {
                let a = choose|a: int| 0 <= a < nv.len() && #[trigger] rels_of_links(nv[a].links).contains(t);
                lemma_rels_of_links_contains(nv[a].links, t);
                let l = choose|l: int| 0 <= l < nv[a].links.len() && (#[trigger] nv[a].links[l]).1.contains(t);
                assert(nv[a].links[l].1.contains(t));
            }
            if rel_used(nv, t) {
                let (a, l) = choose|a: int, l: int|
                    0 <= a < nv.len() && 0 <= l < nv[a].links.len() && (#[trigger] nv[a].links[l]).1.contains(t);
                lemma_rels_of_links_contains(nv[a].links, t);
                assert(rels_of_links(nv[a].links).contains(t));
            }
        }
    }
    names
}

/// Whether `rels` holds the relationship type named `r`.
fn rels_have(rels: &[crate::domain::link::Rel], r: &str) -> (b: bool)
    ensures
        b == crate::domain::link::rels_view(rels@).contains(r@),
{
    let ghost rv = crate::domain::link::rels_view(rels@);
    let mut k: usize = 0;
    while k < rels.len()
        invariant
            k <= rels@.len(),
            rv == crate::domain::link::rels_view(rels@),
            forall|m: int| 0 <= m < k ==> rv[m] != r@,
        decreases rels@.len() - k,
    {
        assert(rv[k as int] == rels@[k as int]@);
        if str_eq(rels[k].as_str(), r) {
            return true;
        }
        k = k + 1;
    }
    false
}

/// `n`, or the largest `usize` when it does not fit.
pub open spec fn capped(n: nat) -> nat {
    if n <= usize::MAX {
        n
    } else {
        usize::MAX as nat
    }
}

/// The number of links, over all notes, with the relationship type `r`
/// (capped at the largest `usize`).
fn count_rel(notes: &Vec<IndexedNote>, r: &str) -> (c: usize)
    ensures
        c == capped(rel_count(notes_view(notes@), r@)),
{
    let ghost nv = notes_view(notes@);
    let mut c: usize = 0;
    let mut i: usize = 0;
    assert(nv.take(0) =~= Seq::<IndexedNoteView>::empty());
    while i < notes.len()
        invariant
            i <= notes@.len(),
            nv == notes_view(notes@),
            c == capped(rel_count(nv.take(i as int), r@)),
        decreases notes@.len() - i,
    {
        let links = notes[i].links();
        let ghost lv = nv[i as int].links;
        let ghost keep = |l: LinkView| l.1.contains(r@);
        let mut n: usize = 0;
        let mut j: usize = 0;
        assert(lv.take(0).filter(keep) =~= Seq::<LinkView>::empty());
        while j < links.len()
            invariant
                i < notes@.len(),
                j <= links@.len(),
                lv == nv[i as int].links,
                crate::cli::links::links_view(links@) == lv,
                keep == (|l: LinkView| l.1.contains(r@)),
                n == lv.take(j as int).filter(keep).len(),
                n <= j,
            decreases links@.len() - j,
        {
            proof {
                assert(lv.take(j + 1) =~= lv.take(j as int).push(lv[j as int]));
                lv.take(j as int).lemma_filter_push(lv[j as int], keep);
                assert(lv[j as int] == crate::cli::links::link_view(links@[j as int]));
            }
            if rels_have(links[j].rel(), r) {
                n = n + 1;
            }
            j = j + 1;
        }
        proof {
            assert(lv.take(links@.len() as int) =~= lv);
            assert(nv.take(i + 1).drop_last() =~= nv.take(i as int));
            assert(nv.take(i + 1).last() == nv[i as int]);
        }
        c = c.saturating_add(n);
        i = i + 1;
    }
    assert(nv.take(notes@.len() as int) =~= nv);
    c
}

/// Every relationship type in use, sorted by name, with the number of
/// links using it.
pub fn all_rels(index: &NoteIndex) -> (r: Vec<NameCount>)
    ensures
        strictly_sorted(name_counts_view(r@).map_values(|p: (Seq<char>, nat)| p.0)),
        forall|t: Seq<char>|
            name_counts_view(r@).map_values(|p: (Seq<char>, nat)| p.0).contains(t) <==> rel_used(
                index@,
                t,
            ),
        forall|k: int|
            0 <= k < r@.len() ==> (#[trigger] r@[k]).count == capped(rel_count(index@, r@[k].name@)),
{
    let notes = index.list_all();
    let names = used_rels(&notes);
    let ghost sv = strings_view(names@);
    let mut out: Vec<NameCount> = Vec::new();
    let mut k: usize = 0;
    while k < names.len()
        invariant
            k <= names@.len(),
            sv == strings_view(names@),
            notes_view(notes@) == index@,
            out@.len() == k,
            forall|m: int| 0 <= m < k ==> (#[trigger] out@[m]).name@ == sv[m],
            forall|m: int|
                0 <= m < k ==> (#[trigger] out@[m]).count == capped(rel_count(index@, out@[m].name@)),
        decreases names@.len() - k,
    {
        let c = count_rel(&notes, names[k].as_str());
        out.push(NameCount { name: names[k].clone(), count: c });
        k = k + 1;
    }
    assert(name_counts_view(out@).map_values(|p: (Seq<char>, nat)| p.0) =~= sv);
    out
}

/// The note has a topic with path text `p`.
pub open spec fn has_topic_text(n: IndexedNoteView, p: Seq<char>) -> bool {
    exists|k: int| 0 <= k < n.topics.len() && join_slash(#[trigger] n.topics[k]) == p
}

/// The note has the topic `p` or a topic below it.
pub open spec fn has_topic_under(n: IndexedNoteView, p: Seq<char>) -> bool {
    exists|k: int|
        0 <= k < n.topics.len() && (join_slash(#[trigger] n.topics[k]) == p || starts_with(
            join_slash(n.topics[k]),
            p.push('/'),
        ))
}

/// Some note has the topic.
pub open spec fn topic_used(idx: Seq<IndexedNoteView>, p: Seq<char>) -> bool {
    exists|i: int| 0 <= i < idx.len() && has_topic_text(#[trigger] idx[i], p)
}

/// A topic in use with the number of notes that have it, and the number
/// that have it or a topic below it.
#[derive(Debug)]
pub struct TopicCount {
    pub topic: String,
    pub exact_count: usize,
    pub total_count: usize,
}

/// Every topic path in use, sorted, each once.
fn used_topics(notes: &Vec<IndexedNote>) -> (r: Vec<String>)
    ensures
        strictly_sorted(strings_view(r@)),
        forall|t: Seq<char>| strings_view(r@).contains(t) <==> topic_used(notes_view(notes@), t),
{
    let ghost nv = notes_view(notes@);
    let mut names: Vec<String> = Vec::new();
    let mut i: usize = 0;
    while i < notes.len()
        invariant
            i <= notes@.len(),
            nv == notes_view(notes@),
            strictly_sorted(strings_view(names@)),
            forall|t: Seq<char>| strings_view(names@).contains(t) <==> (exists|a: int|
                0 <= a < i && has_topic_text(#[trigger] nv[a], t)),
        decreases notes@.len() - i,
    {
        let topics = notes[i].topics();
        let mut j: usize = 0;
        while j < topics.len()
            invariant
                i < notes@.len(),
                j <= topics@.len(),
                nv == notes_view(notes@),
                topics_view(topics@) == nv[i as int].topics,
                strictly_sorted(strings_view(names@)),
                forall|t: Seq<char>| strings_view(names@).contains(t) <==> ((exists|a: int|
                    0 <= a < i && has_topic_text(#[trigger] nv[a], t)) || exists|b: int|
                    0 <= b < j && join_slash(#[trigger] nv[i as int].topics[b]) == t),
            decreases topics@.len() - j,
        {
            assert(nv[i as int].topics[j as int] == topics@[j as int]@);
            let ghost before = strings_view(names@);
            insert_key(&mut names, topics[j].as_str());
            proof {
                assert forall|t: Seq<char>| strings_view(names@).contains(t) <==> ((exists|a: int|
                    0 <= a < i && has_topic_text(#[trigger] nv[a], t)) || exists|b: int|
                    0 <= b < j + 1 && join_slash(#[trigger] nv[i as int].topics[b]) == t) by {
                    assert(before.contains(t) <==> ((exists|a: int|
                        0 <= a < i && has_topic_text(#[trigger] nv[a], t)) || exists|b: int|
                        0 <= b < j && join_slash(#[trigger] nv[i as int].topics[b]) == t));
                    if exists|b: int| 0 <= b < j + 1 && join_slash(#[trigger] nv[i as int].topics[b]) == t {
                        let b = choose|b: int| 0 <= b < j + 1 && join_slash(#[trigger] nv[i as int].topics[b]) == t;
                        if b < j {
                            assert(0 <= b < j && join_slash(nv[i as int].topics[b]) == t);
                        }
                    }
                    if t == join_slash(nv[i as int].topics[j as int]) {
                        assert(0 <= j < j + 1 && join_slash(nv[i as int].topics[j as int]) == t);
                    }
                }
            }
            j = j + 1;
        }
        proof {
            assert forall|t: Seq<char>| strings_view(names@).contains(t) <==> (exists|a: int|
                0 <= a < i + 1 && has_topic_text(#[trigger] nv[a], t)) by {
                if exists|b: int| 0 <= b < topics@.len() && join_slash(#[trigger] nv[i as int].topics[b]) == t {
                    assert(has_topic_text(nv[i as int], t));
                }
                if exists|a: int| 0 <= a < i + 1 && has_topic_text(#[trigger] nv[a], t) {
                    let a = choose|a: int| 0 <= a < i + 1 && has_topic_text(#[trigger] nv[a], t);
                    if a == i {
                        let b = choose|b: int| 0 <= b < nv[i as int].topics.len() && join_slash(#[trigger] nv[i as int].topics[b]) == t;
                        assert(0 <= b < topics@.len() && join_slash(nv[i as int].topics[b]) == t);
                    }
                }
            }
        }
        i = i + 1;
    }
    names
}

/// Whether the note has topic `p` (first) and whether it has `p` or a topic below it (second).
fn topic_hits(n: &IndexedNote, p: &str) -> (r: (bool, bool))
    ensures
        r.0 == has_topic_text(n@, p@),
        r.1 == has_topic_under(n@, p@),
{
    let pv = chars_of(p);
    let mut below = pv.clone();
    below.push('/');
    let topics = n.topics();
    let mut exact = false;
    let mut under = false;
    let mut k: usize = 0;
    while k < topics.len()
        invariant
            k <= topics@.len(),
            topics_view(topics@) == n@.topics,
            pv@ == p@,
            below@ == p@.push('/'),
            exact == (exists|b: int| 0 <= b < k && join_slash(#[trigger] n@.topics[b]) == p@),
            under == (exists|b: int|
                0 <= b < k && (join_slash(#[trigger] n@.topics[b]) == p@ || starts_with(
                    join_slash(n@.topics[b]),
                    p@.push('/'),
                ))),
        decreases topics@.len() - k,
    {
        assert(n@.topics[k as int] == topics@[k as int]@);
        let t = chars_of(topics[k].as_str());
        let same = chars_eq(t.as_slice(), pv.as_slice());
        let deeper = chars_starts_with(t.as_slice(), below.as_slice());
        if same {
            exact = true;
        }
        if same || deeper {
            under = true;
        }
        k = k + 1;
    }
    (exact, under)
}

/// Every topic in use, sorted by path, with the number of notes that have
/// it and the number that have it or a topic below it.
pub fn all_topics(index: &NoteIndex) -> (r: Vec<TopicCount>)
    ensures
        strictly_sorted(r@.map_values(|c: TopicCount| c.topic@)),
        forall|t: Seq<char>| r@.map_values(|c: TopicCount| c.topic@).contains(t) <==> topic_used(index@, t),
        forall|k: int|
            0 <= k < r@.len() ==> (#[trigger] r@[k]).exact_count == index@.filter(
                |n: IndexedNoteView| has_topic_text(n, r@[k].topic@),
            ).len() && r@[k].total_count == index@.filter(
                |n: IndexedNoteView| has_topic_under(n, r@[k].topic@),
            ).len(),
{
    let notes = index.list_all();
    let names = used_topics(&notes);
    let ghost nv = notes_view(notes@);
    let ghost sv = strings_view(names@);
    let mut out: Vec<TopicCount> = Vec::new();
    let mut k: usize = 0;
    while k < names.len()
        invariant
            k <= names@.len(),
            sv == strings_view(names@),
            nv == notes_view(notes@),
            nv == index@,
            out@.len() == k,
            forall|m: int| 0 <= m < k ==> (#[trigger] out@[m]).topic@ == sv[m],
            forall|m: int|
                0 <= m < k ==> (#[trigger] out@[m]).exact_count == nv.filter(
                    |n: IndexedNoteView| has_topic_text(n, out@[m].topic@),
                ).len() && out@[m].total_count == nv.filter(
                    |n: IndexedNoteView| has_topic_under(n, out@[m].topic@),
                ).len(),
        decreases names@.len() - k,
    {
        let p = names[k].as_str();
        let ghost ke = |n: IndexedNoteView| has_topic_text(n, p@);
        let ghost ku = |n: IndexedNoteView| has_topic_under(n, p@);
        let mut exact: usize = 0;
        let mut total: usize = 0;
        let mut i: usize = 0;
        assert(nv.take(0).filter(ke) =~= Seq::<IndexedNoteView>::empty());
        assert(nv.take(0).filter(ku) =~= Seq::<IndexedNoteView>::empty());
        while i < notes.len()
            invariant
                i <= notes@.len(),
                nv == notes_view(notes@),
                ke == (|n: IndexedNoteView| has_topic_text(n, p@)),
                ku == (|n: IndexedNoteView| has_topic_under(n, p@)),
                exact == nv.take(i as int).filter(ke).len(),
                total == nv.take(i as int).filter(ku).len(),
                exact <= i,
                total <= i,
            decreases notes@.len() - i,
        {
            proof {
                assert(nv.take(i + 1) =~= nv.take(i as int).push(nv[i as int]));
                nv.take(i as int).lemma_filter_push(nv[i as int], ke);
                nv.take(i as int).lemma_filter_push(nv[i as int], ku);
            }
            let (e, u) = topic_hits(&notes[i], p);
            if e {
                exact = exact + 1;
            }
            if u {
                total = total + 1;
            }
            i = i + 1;
        }
        assert(nv.take(notes@.len() as int) =~= nv);
        out.push(TopicCount { topic: names[k].clone(), exact_count: exact, total_count: total });
        k = k + 1;
    }
    assert(out@.map_values(|c: TopicCount| c.topic@) =~= sv);
    out
}

/// One line of a listing: the name, with its count in parentheses when
/// counts were asked for.
pub open spec fn count_line(name: Seq<char>, count: nat, counts: bool) -> Seq<char> {
    if counts {
        name + " ("@ + decimal(count) + ")"@
    } else {
        name
    }
}

/// The lines a listing of names prints: in human format the counted lines
/// (or the message when there are none), in paths format the names; JSON
/// output is made from the records instead.
pub open spec fn listing_lines(
    v: Seq<(Seq<char>, nat)>,
    format: OutputFormat,
    counts: bool,
    none_msg: Seq<char>,
) -> Seq<Seq<char>> {
    match format {
        OutputFormat::Human => if v.len() == 0 {
            seq![none_msg]
        } else {
            Seq::new(v.len(), |k: int| count_line(v[k].0, v[k].1, counts))
        },
        OutputFormat::Paths => Seq::new(v.len(), |k: int| v[k].0),
        OutputFormat::Json => Seq::empty(),
    }
}

fn counted_lines(v: &[NameCount], format: OutputFormat, counts: bool, none_msg: &str) -> (r: Vec<String>)
    ensures
        strings_view(r@) == listing_lines(name_counts_view(v@), format, counts, none_msg@),
{
    let ghost cv = name_counts_view(v@);
    let mut out: Vec<String> = Vec::new();
    match format {
        OutputFormat::Json => {
            assert(strings_view(out@) =~= Seq::<Seq<char>>::empty());
            return out;
        },
        OutputFormat::Human => {
            if v.len() == 0 {
                out.push(String::from_str(none_msg));
                assert(strings_view(out@) =~= seq![none_msg@]);
                return out;
            }
        },
        OutputFormat::Paths => {},
    }
    let mut k: usize = 0;
    while k < v.len()
        invariant
            k <= v@.len(),
            cv == name_counts_view(v@),
            format != OutputFormat::Json,
            strings_view(out@) == (if format == OutputFormat::Human {
                Seq::new(k as nat, |m: int| count_line(cv[m].0, cv[m].1, counts))
            } else {
                Seq::new(k as nat, |m: int| cv[m].0)
            }),
        decreases v@.len() - k,
    {
        let mut line = String::from_str(v[k].name.as_str());
        if format == OutputFormat::Human && counts {
            line.append(" (");
            line.append(usize_to_string(v[k].count).as_str());
            line.append(")");
        }
        let ghost before = strings_view(out@);
        out.push(line);
        assert(strings_view(out@) =~= before.push(line@));
        k = k + 1;
        assert(strings_view(out@) =~= (if format == OutputFormat::Human {
            Seq::new(k as nat, |m: int| count_line(cv[m].0, cv[m].1, counts))
        } else {
            Seq::new(k as nat, |m: int| cv[m].0)
        }));
    }
    out
}

/// The records of a listing: each name, with its count when counts were asked for.
pub open spec fn records_view(v: Seq<(Seq<char>, nat)>, counts: bool) -> Seq<(Seq<char>, Option<nat>)> {
    Seq::new(v.len(), |k: int| (v[k].0, if counts { Some(v[k].1) } else { None }))
}

pub open spec fn tag_listings_view(v: Seq<TagListing>) -> Seq<(Seq<char>, Option<nat>)> {
    v.map_values(|t: TagListing| (t.name@, match t.count { Some(c) => Some(c as nat), None => None }))
}

pub open spec fn rel_listings_view(v: Seq<RelListing>) -> Seq<(Seq<char>, Option<nat>)> {
    v.map_values(|t: RelListing| (t.name@, match t.count { Some(c) => Some(c as nat), None => None }))
}

/// What `tags` prints: lines for human and paths output, records for JSON.
pub fn handle_tags(index: &NoteIndex, args: &TagsArgs) -> (r: (Vec<String>, Vec<TagListing>))
    ensures
        exists|v: Seq<(Seq<char>, nat)>|
            {
                &&& strictly_sorted(v.map_values(|p: (Seq<char>, nat)| p.0))
                &&& forall|t: Seq<char>| v.map_values(|p: (Seq<char>, nat)| p.0).contains(t) <==> tag_used(index@, t)
                &&& forall|k: int| 0 <= k < v.len() ==> (#[trigger] v[k]).1 == tag_count(index@, v[k].0)
                &&& strings_view(r.0@) == listing_lines(v, args.format, args.counts, "No tags found."@)
                &&& tag_listings_view(r.1@) == records_view(v, args.counts)
            },
{
    let tags = all_tags(index);
    let ghost v = name_counts_view(tags@);
    let lines = counted_lines(tags.as_slice(), args.format, args.counts, "No tags found.");
    let mut records: Vec<TagListing> = Vec::new();
    let mut k: usize = 0;
    while k < tags.len()
        invariant
            k <= tags@.len(),
            v == name_counts_view(tags@),
            tag_listings_view(records@) == records_view(v, args.counts).take(k as int),
        decreases tags@.len() - k,
    {
        let count = if args.counts {
            Some(tags[k].count)
        } else {
            None
        };
        let ghost before = tag_listings_view(records@);
        records.push(TagListing { name: tags[k].name.clone(), count });
        assert(tag_listings_view(records@) =~= before.push(records_view(v, args.counts)[k as int]));
        k = k + 1;
        assert(records_view(v, args.counts).take(k as int) =~= records_view(v, args.counts).take(k - 1).push(
            records_view(v, args.counts)[k - 1],
        ));
    }
    assert(records_view(v, args.counts).take(tags@.len() as int) =~= records_view(v, args.counts));
    assert forall|k: int| 0 <= k < v.len() implies (#[trigger] v[k]).1 == tag_count(index@, v[k].0) by {
        assert(v[k] == (tags@[k].name@, tags@[k].count as nat));
    }
    (lines, records)
}

/// What `rels` prints: lines for human and paths output, records for JSON.
pub fn handle_rels(index: &NoteIndex, args: &RelsArgs) -> (r: (Vec<String>, Vec<RelListing>))
    ensures
        exists|v: Seq<(Seq<char>, nat)>|
            {
                &&& strictly_sorted(v.map_values(|p: (Seq<char>, nat)| p.0))
                &&& forall|t: Seq<char>| v.map_values(|p: (Seq<char>, nat)| p.0).contains(t) <==> rel_used(index@, t)
                &&& forall|k: int| 0 <= k < v.len() ==> (#[trigger] v[k]).1 == capped(rel_count(index@, v[k].0))
                &&& strings_view(r.0@) == listing_lines(
                    v,
                    args.format,
                    args.counts,
                    "No relationship types found."@,
                )
                &&& rel_listings_view(r.1@) == records_view(v, args.counts)
            },
{
    let rels = all_rels(index);
    let ghost v = name_counts_view(rels@);
    let lines = counted_lines(rels.as_slice(), args.format, args.counts, "No relationship types found.");
    let mut records: Vec<RelListing> = Vec::new();
    let mut k: usize = 0;
    while k < rels.len()
        invariant
            k <= rels@.len(),
            v == name_counts_view(rels@),
            rel_listings_view(records@) == records_view(v, args.counts).take(k as int),
        decreases rels@.len() - k,
    {
        let count = if args.counts {
            Some(rels[k].count)
        } else {
            None
        };
        let ghost before = rel_listings_view(records@);
        records.push(RelListing { name: rels[k].name.clone(), count });
        assert(rel_listings_view(records@) =~= before.push(records_view(v, args.counts)[k as int]));
        k = k + 1;
        assert(records_view(v, args.counts).take(k as int) =~= records_view(v, args.counts).take(k - 1).push(
            records_view(v, args.counts)[k - 1],
        ));
    }
    assert(records_view(v, args.counts).take(rels@.len() as int) =~= records_view(v, args.counts));
    assert forall|k: int| 0 <= k < v.len() implies (#[trigger] v[k]).1 == capped(rel_count(index@, v[k].0)) by {
        assert(v[k] == (rels@[k].name@, rels@[k].count as nat));
    }
    (lines, records)
}

pub open spec fn topic_counts_view(v: Seq<TopicCount>) -> Seq<(Seq<char>, nat, nat)> {
    v.map_values(|c: TopicCount| (c.topic@, c.exact_count as nat, c.total_count as nat))
}

/// The lines `topics` prints: in human format each path (with
/// `(exact/total)` counts when asked for) or the message when there are
/// none, in paths format the paths; JSON output is made from the records.
pub open spec fn topic_lines(v: Seq<(Seq<char>, nat, nat)>, format: OutputFormat, counts: bool) -> Seq<Seq<char>> {
    match format {
        OutputFormat::Human => if v.len() == 0 {
            seq!["No topics found."@]
        } else {
            Seq::new(
                v.len(),
                |k: int|
                    if counts {
                        v[k].0 + " ("@ + decimal(v[k].1) + "/"@ + decimal(v[k].2) + ")"@
                    } else {
                        v[k].0
                    },
            )
        },
        OutputFormat::Paths => Seq::new(v.len(), |k: int| v[k].0),
        OutputFormat::Json => Seq::empty(),
    }
}

pub open spec fn topic_listings_view(v: Seq<TopicListing>) -> Seq<(Seq<char>, Option<nat>)> {
    v.map_values(|t: TopicListing| (t.path@, match t.count { Some(c) => Some(c as nat), None => None }))
}

/// What `topics` prints: lines for human and paths output, and records
/// (path, and the number of notes under it when counts were asked for) for JSON.
pub fn handle_topics(index: &NoteIndex, args: &TopicsArgs) -> (r: (Vec<String>, Vec<TopicListing>))
    ensures
        exists|v: Seq<(Seq<char>, nat, nat)>|
            {
                &&& strictly_sorted(v.map_values(|p: (Seq<char>, nat, nat)| p.0))
                &&& forall|t: Seq<char>| v.map_values(|p: (Seq<char>, nat, nat)| p.0).contains(t) <==> topic_used(index@, t)
                &&& forall|k: int|
                    0 <= k < v.len() ==> (#[trigger] v[k]).1 == index@.filter(
                        |n: IndexedNoteView| has_topic_text(n, v[k].0),
                    ).len() && v[k].2 == index@.filter(
                        |n: IndexedNoteView| has_topic_under(n, v[k].0),
                    ).len()
                &&& strings_view(r.0@) == topic_lines(v, args.format, args.counts)
                &&& topic_listings_view(r.1@) == Seq::new(
                    v.len(),
                    |k: int| (v[k].0, if args.counts { Some(v[k].2) } else { None }),
                )
            },
{
    let topics = all_topics(index);
    let ghost v = topic_counts_view(topics@);
    let mut lines: Vec<String> = Vec::new();
    let mut records: Vec<TopicListing> = Vec::new();
    let ghost recs = Seq::new(
        v.len(),
        |k: int| (v[k].0, if args.counts { Some(v[k].2) } else { None }),
    );
    if args.format == OutputFormat::Human && topics.len() == 0 {
        lines.push(String::from_str("No topics found."));
    }
    let ghost start = strings_view(lines@);
    let mut k: usize = 0;
    while k < topics.len()
        invariant
            k <= topics@.len(),
            v == topic_counts_view(topics@),
            recs == Seq::new(
                v.len(),
                |k: int| (v[k].0, if args.counts { Some(v[k].2) } else { None }),
            ),
            topics@.len() > 0 || args.format != OutputFormat::Human ==> start.len() == 0,
            strings_view(lines@) == start + (match args.format {
                OutputFormat::Human => Seq::new(
                    k as nat,
                    |m: int|
                        if args.counts {
                            v[m].0 + " ("@ + decimal(v[m].1) + "/"@ + decimal(v[m].2) + ")"@
                        } else {
                            v[m].0
                        },
                ),
                OutputFormat::Paths => Seq::new(k as nat, |m: int| v[m].0),
                OutputFormat::Json => Seq::<Seq<char>>::empty(),
            }),
            topic_listings_view(records@) == recs.take(k as int),
        decreases topics@.len() - k,
    {
        let t = &topics[k];
        if args.format != OutputFormat::Json {
            let mut line = String::from_str(t.topic.as_str());
            if args.format == OutputFormat::Human && args.counts {
                line.append(" (");
                line.append(usize_to_string(t.exact_count).as_str());
                line.append("/");
                line.append(usize_to_string(t.total_count).as_str());
                line.append(")");
            }
            let ghost before = strings_view(lines@);
            lines.push(line);
            assert(strings_view(lines@) =~= before.push(line@));
        }
        let count = if args.counts {
            Some(t.total_count)
        } else {
            None
        };
        let ghost rb = topic_listings_view(records@);
        records.push(TopicListing { path: t.topic.clone(), count });
        assert(topic_listings_view(records@) =~= rb.push(recs[k as int]));
        k = k + 1;
        assert(recs.take(k as int) =~= recs.take(k - 1).push(recs[k - 1]));
        assert(strings_view(lines@) =~= start + (match args.format {
            OutputFormat::Human => Seq::new(
                k as nat,
                |m: int|
                    if args.counts {
                        v[m].0 + " ("@ + decimal(v[m].1) + "/"@ + decimal(v[m].2) + ")"@
                    } else {
                        v[m].0
                    },
            ),
            OutputFormat::Paths => Seq::new(k as nat, |m: int| v[m].0),
            OutputFormat::Json => Seq::<Seq<char>>::empty(),
        }));
    }
    assert(recs.take(topics@.len() as int) =~= recs);
    assert(strings_view(lines@) =~= topic_lines(v, args.format, args.counts));
    assert(v.map_values(|p: (Seq<char>, nat, nat)| p.0) =~= topics@.map_values(|c: TopicCount| c.topic@));
    assert forall|k: int|
        0 <= k < v.len() implies (#[trigger] v[k]).1 == index@.filter(
            |n: IndexedNoteView| has_topic_text(n, v[k].0),
        ).len() && v[k].2 == index@.filter(|n: IndexedNoteView| has_topic_under(n, v[k].0)).len() by {
        assert(v[k] == (topics@[k].topic@, topics@[k].exact_count as nat, topics@[k].total_count as nat));
    }
    (lines, records)
}

} // verus!
