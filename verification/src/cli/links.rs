//! Adding and removing links in a note's link list.

use vstd::prelude::*;
use vstd::string::StringExecFns;
use crate::domain::link::{clone_rels, rels_view, Link, Rel};
use crate::domain::note_id::NoteId;
use crate::text::str_eq;

verus! {

/// A link as plain values: target, relationship types and context.
pub open spec fn link_view(l: Link) -> (NoteId, Seq<Seq<char>>, Option<Seq<char>>) {
    (l.spec_target(), l.spec_rels(), l.spec_context())
}

pub open spec fn links_view(s: Seq<Link>) -> Seq<(NoteId, Seq<Seq<char>>, Option<Seq<char>>)> {
    s.map_values(|l: Link| link_view(l))
}

/// Position of the first link to `target`, or -1 when there is none.
pub open spec fn first_link_to(
    s: Seq<(NoteId, Seq<Seq<char>>, Option<Seq<char>>)>,
    target: NoteId,
) -> int
    decreases s.len(),
{
    if s.len() == 0 {
        -1
    } else if s[0].0 == target {
        0
    } else {
        let r = first_link_to(s.drop_first(), target);
        if r < 0 {
            -1
        } else {
            r + 1
        }
    }
}

/// `acc` with each relationship type of `new` appended that it does not hold yet.
pub open spec fn merge_rels(acc: Seq<Seq<char>>, new: Seq<Seq<char>>) -> Seq<Seq<char>>
    decreases new.len(),
{
    if new.len() == 0 {
        acc
    } else {
        let m = merge_rels(acc, new.drop_last());
        if m.contains(new.last()) {
            m
        } else {
            m.push(new.last())
        }
    }
}

/// Merging `new` into the link at position `p`: the relationship types are
/// merged, and a context given with `new` replaces the old one.  Nothing
/// changes when no relationship type is added and the context stays.
pub open spec fn merge_at(
    s: Seq<(NoteId, Seq<Seq<char>>, Option<Seq<char>>)>,
    p: int,
    new: (NoteId, Seq<Seq<char>>, Option<Seq<char>>),
) -> (Seq<(NoteId, Seq<Seq<char>>, Option<Seq<char>>)>, bool) {
    let e = s[p];
    let merged = merge_rels(e.1, new.1);
    let context_changed = new.2 is Some && new.2 != e.2;
    if merged.len() == e.1.len() && !context_changed {
        (s, false)
    } else {
        let context = if new.2 is Some {
            new.2
        } else {
            e.2
        };
        (s.update(p, (new.0, merged, context)), true)
    }
}

/// What `merge_or_add_link` makes of a link list and a new link, and whether
/// anything changed.
pub open spec fn merge_spec(
    s: Seq<(NoteId, Seq<Seq<char>>, Option<Seq<char>>)>,
    new: (NoteId, Seq<Seq<char>>, Option<Seq<char>>),
) -> (Seq<(NoteId, Seq<Seq<char>>, Option<Seq<char>>)>, bool) {
    let p = first_link_to(s, new.0);
    if p < 0 {
        (s.push(new), true)
    } else {
        merge_at(s, p, new)
    }
}

/// What `remove_link` makes of a link list: the first link to `target`
/// removed, and whether there was one.
pub open spec fn remove_spec(
    s: Seq<(NoteId, Seq<Seq<char>>, Option<Seq<char>>)>,
    target: NoteId,
) -> (Seq<(NoteId, Seq<Seq<char>>, Option<Seq<char>>)>, bool) {
    let p = first_link_to(s, target);
    if p < 0 {
        (s, false)
    } else {
        (s.remove(p), true)
    }
}

proof fn lemma_first_link_to_is(
    s: Seq<(NoteId, Seq<Seq<char>>, Option<Seq<char>>)>,
    target: NoteId,
    p: int,
)
    requires
        0 <= p < s.len(),
        s[p].0 == target,
        forall|j: int| 0 <= j < p ==> s[j].0 != target,
    ensures
        first_link_to(s, target) == p,
    decreases s.len(),
{
    if p > 0 {
        assert(s[0].0 != target);
        lemma_first_link_to_is(s.drop_first(), target, p - 1);
    }
}

proof fn lemma_first_link_to_none(
    s: Seq<(NoteId, Seq<Seq<char>>, Option<Seq<char>>)>,
    target: NoteId,
)
    requires
        forall|j: int| 0 <= j < s.len() ==> s[j].0 != target,
    ensures
        first_link_to(s, target) == -1,
    decreases s.len(),
{
    if s.len() > 0 {
        assert(s[0].0 != target);
        lemma_first_link_to_none(s.drop_first(), target);
    }
}

proof fn lemma_first_link_to_props(
    s: Seq<(NoteId, Seq<Seq<char>>, Option<Seq<char>>)>,
    target: NoteId,
)
    ensures
        -1 <= first_link_to(s, target) < s.len(),
        first_link_to(s, target) >= 0 ==> s[first_link_to(s, target)].0 == target,
        forall|j: int| 0 <= j < first_link_to(s, target) ==> s[j].0 != target,
        first_link_to(s, target) < 0 ==> forall|j: int| 0 <= j < s.len() ==> s[j].0 != target,
    decreases s.len(),
{
    if s.len() > 0 && s[0].0 != target {
        let t = s.drop_first();
        lemma_first_link_to_props(t, target);
        assert forall|j: int| 0 < j < s.len() implies s[j] == t[j - 1] by {}
    }
}

proof fn lemma_merge_rels_props(acc: Seq<Seq<char>>, new: Seq<Seq<char>>)
    ensures
        merge_rels(acc, new).len() >= acc.len(),
        forall|i: int| 0 <= i < new.len() ==> merge_rels(acc, new).contains(#[trigger] new[i]),
        forall|i: int| 0 <= i < acc.len() ==> merge_rels(acc, new).contains(#[trigger] acc[i]),
    decreases new.len(),
{
    if new.len() > 0 {
        let m = merge_rels(acc, new.drop_last());
        lemma_merge_rels_props(acc, new.drop_last());
        assert forall|i: int| 0 <= i < new.len() implies merge_rels(acc, new).contains(
            #[trigger] new[i],
        ) by {
            if i < new.len() - 1 {
                assert(new.drop_last()[i] == new[i]);
                assert(m.contains(new[i]));
                if !m.contains(new.last()) {
                    let k = choose|k: int| 0 <= k < m.len() && m[k] == new[i];
                    assert(m.push(new.last())[k] == new[i]);
                }
            } else {
                if !m.contains(new.last()) {
                    assert(m.push(new.last())[m.len() as int] == new.last());
                }
            }
        }
        assert forall|i: int| 0 <= i < acc.len() implies merge_rels(acc, new).contains(
            #[trigger] acc[i],
        ) by {
            assert(m.contains(acc[i]));
            if !m.contains(new.last()) {
                let k = choose|k: int| 0 <= k < m.len() && m[k] == acc[i];
                assert(m.push(new.last())[k] == acc[i]);
            }
        }
    }
}

proof fn lemma_merge_rels_absorbed(acc: Seq<Seq<char>>, new: Seq<Seq<char>>)
    requires
        forall|i: int| 0 <= i < new.len() ==> acc.contains(#[trigger] new[i]),
    ensures
        merge_rels(acc, new) == acc,
    decreases new.len(),
{
    if new.len() > 0 {
        assert forall|i: int| 0 <= i < new.drop_last().len() implies acc.contains(
            #[trigger] new.drop_last()[i],
        ) by {
            assert(new.drop_last()[i] == new[i]);
        }
        lemma_merge_rels_absorbed(acc, new.drop_last());
        assert(acc.contains(new[new.len() - 1]));
    }
}

/// Linking twice is linking once: merging the same link into the result of a
/// merge changes nothing.
pub proof fn lemma_merge_idempotent(
    s: Seq<(NoteId, Seq<Seq<char>>, Option<Seq<char>>)>,
    new: (NoteId, Seq<Seq<char>>, Option<Seq<char>>),
)
    ensures
        merge_spec(merge_spec(s, new).0, new) == (merge_spec(s, new).0, false),
{
    let p = first_link_to(s, new.0);
    lemma_first_link_to_props(s, new.0);
    let l1 = merge_spec(s, new).0;
    if p < 0 {
        lemma_first_link_to_is(l1, new.0, s.len() as int);
        lemma_merge_rels_absorbed(new.1, new.1);
    } else {
        if merge_spec(s, new).1 {
            let merged = merge_rels(s[p].1, new.1);
            lemma_merge_rels_props(s[p].1, new.1);
            lemma_first_link_to_is(l1, new.0, p);
            lemma_merge_rels_absorbed(merged, new.1);
        }
    }
}

/// Unlinking undoes linking to a target the note had no link to.
pub proof fn lemma_remove_undoes_new_link(
    s: Seq<(NoteId, Seq<Seq<char>>, Option<Seq<char>>)>,
    new: (NoteId, Seq<Seq<char>>, Option<Seq<char>>),
)
    requires
        first_link_to(s, new.0) < 0,
    ensures
        remove_spec(merge_spec(s, new).0, new.0) == (s, true),
{
    lemma_first_link_to_props(s, new.0);
    let l1 = s.push(new);
    lemma_first_link_to_is(l1, new.0, s.len() as int);
    assert(l1.remove(s.len() as int) =~= s);
}

/// A copy of a list of links.
pub fn clone_links(v: &[Link]) -> (r: Vec<Link>)
    ensures
        links_view(r@) == links_view(v@),
{
    let mut out: Vec<Link> = Vec::new();
    let mut i: usize = 0;
    while i < v.len()
        invariant
            i <= v@.len(),
            out@.len() == i,
            forall|j: int| 0 <= j < i ==> link_view(#[trigger] out@[j]) == link_view(v@[j]),
        decreases v@.len() - i,
    {
        out.push(v[i].clone());
        i = i + 1;
    }
    assert(links_view(out@) =~= links_view(v@));
    out
}

/// Position of the first link to `target`, if any.
pub fn position_of_target(links: &[Link], target: &NoteId) -> (r: Option<usize>)
    ensures
        match r {
            Some(p) => p < links@.len() && p as int == first_link_to(links_view(links@), *target),
            None => first_link_to(links_view(links@), *target) == -1,
        },
{
    let ghost lv = links_view(links@);
    let mut i: usize = 0;
    while i < links.len()
        invariant
            i <= links@.len(),
            lv == links_view(links@),
            forall|j: int| 0 <= j < i ==> lv[j].0 != *target,
        decreases links@.len() - i,
    {
        if *links[i].target() == *target {
            proof {
                lemma_first_link_to_is(lv, *target, i as int);
            }
            return Some(i);
        }
        i = i + 1;
    }
    proof {
        lemma_first_link_to_none(lv, *target);
    }
    None
}

/// Whether a list of relationship types holds `r`.
fn rels_contains(v: &[Rel], r: &Rel) -> (b: bool)
    ensures
        b == rels_view(v@).contains(r@),
{
    let mut i: usize = 0;
    while i < v.len()
        invariant
            i <= v@.len(),
            forall|j: int| 0 <= j < i ==> v@[j]@ != r@,
        decreases v@.len() - i,
    {
        if v[i] == *r {
            assert(rels_view(v@)[i as int] == r@);
            return true;
        }
        i = i + 1;
    }
    assert forall|k: int| 0 <= k < rels_view(v@).len() implies rels_view(v@)[k] != r@ by {
        assert(rels_view(v@)[k] == v@[k]@);
    }
    false
}

/// `existing` with each relationship type of `new` appended that it lacks.
fn merge_rel_lists(existing: &[Rel], new: &[Rel]) -> (r: Vec<Rel>)
    ensures
        rels_view(r@) == merge_rels(rels_view(existing@), rels_view(new@)),
{
    let mut merged = clone_rels(existing);
    let ghost acc = rels_view(existing@);
    let ghost nv = rels_view(new@);
    let mut i: usize = 0;
    assert(nv.take(0).len() == 0);
    while i < new.len()
        invariant
            i <= new@.len(),
            acc == rels_view(existing@),
            nv == rels_view(new@),
            rels_view(merged@) == merge_rels(acc, nv.take(i as int)),
        decreases new@.len() - i,
    {
        assert(nv.take(i + 1).drop_last() =~= nv.take(i as int));
        assert(nv.take(i + 1).last() == new@[i as int]@);
        if !rels_contains(merged.as_slice(), &new[i]) {
            let ghost before = merged@;
            merged.push(new[i].clone());
            assert(rels_view(merged@) =~= rels_view(before).push(new@[i as int]@));
        }
        i = i + 1;
    }
    assert(nv.take(new@.len() as int) =~= nv);
    merged
}

/// Merges `new` into `existing`: a link to a target already linked has its
/// relationship types merged (and its context replaced when `new` brings
/// one); a link to a new target is appended.  Returns the updated list and
/// whether it changed.
pub fn merge_or_add_link(existing: &[Link], new: &Link) -> (r: (Vec<Link>, bool))
    ensures
        (links_view(r.0@), r.1) == merge_spec(links_view(existing@), link_view(*new)),
{
    let mut links = clone_links(existing);
    let ghost ev = links_view(existing@);
    match position_of_target(existing, new.target()) {
        None => {
            let ghost before = links@;
            links.push(new.clone());
            assert(links_view(links@) =~= links_view(before).push(link_view(*new)));
            (links, true)
        },
        Some(pos) => {
            let existing_link = &existing[pos];
            assert(link_view(*existing_link) == ev[pos as int]);
            let old_rels = existing_link.rel();
            let merged_rels = merge_rel_lists(old_rels, new.rel());
            let added_rels = merged_rels.len() != old_rels.len();
            assert(rels_view(merged_rels@).len() == merged_rels@.len());
            assert(rels_view(old_rels@).len() == old_rels@.len());
            let context_changed = match new.context() {
                Some(c) => match existing_link.context() {
                    Some(ec) => !str_eq(c, ec),
                    None => true,
                },
                None => false,
            };
            if !added_rels && !context_changed {
                return (links, false);
            }
            let context: Option<String> = match new.context() {
                Some(c) => Some(String::from_str(c)),
                None => match existing_link.context() {
                    Some(c) => Some(String::from_str(c)),
                    None => None,
                },
            };
            let merged = Link::from_parts(*new.target(), merged_rels, context);
            let ghost before = links@;
            links.set(pos, merged);
            assert(links_view(links@) =~= links_view(before).update(
                pos as int,
                link_view(merged),
            ));
            (links, true)
        },
    }
}

/// Removes the first link to `target_id`.  Returns the updated list and
/// whether a link was removed.
pub fn remove_link(existing: &[Link], target_id: &NoteId) -> (r: (Vec<Link>, bool))
    ensures
        (links_view(r.0@), r.1) == remove_spec(links_view(existing@), *target_id),
{
    let mut links = clone_links(existing);
    match position_of_target(existing, target_id) {
        Some(pos) => {
            let ghost before = links@;
            links.remove(pos);
            assert(links_view(links@) =~= links_view(before).remove(pos as int));
            (links, true)
        },
        None => (links, false),
    }
}

} // verus!
