//! Configuration: notes directory and vault resolution, editor choice.

use vstd::prelude::*;
use vstd::multiset::Multiset;
use vstd::string::StringExecFns;
use crate::text::{chars_le, chars_of, lemma_seq_le_total, lemma_seq_le_transitive, seq_le};

verus! {

broadcast use vstd::seq_lib::group_to_multiset_ensures;

/// Named vaults: a map from vault names to directories, in the order the
/// names were first inserted.
#[derive(Debug)]
pub struct Vaults {
    entries: Vec<(String, String)>,
}

impl View for Vaults {
    type V = Seq<(Seq<char>, Seq<char>)>;

    closed spec fn view(&self) -> Seq<(Seq<char>, Seq<char>)> {
        vaults_view(self.entries@)
    }
}

/// The vaults after `insert(name, path)`: the path of an existing name is
/// replaced in place, a new name is added at the end.
pub open spec fn vaults_inserted(v: Seq<(Seq<char>, Seq<char>)>, name: Seq<char>, path: Seq<char>) -> Seq<
    (Seq<char>, Seq<char>),
> {
    match vault_index(v, name) {
        Some(i) => v.update(i, (name, path)),
        None => v.push((name, path)),
    }
}

/// The position of the first entry named `name`.
fn vault_position(entries: &[(String, String)], name: &str) -> (r: Option<usize>)
    ensures
        r matches Some(i) ==> vault_index(vaults_view(entries@), name@) == Some(i as int),
        r matches Some(i) ==> i < entries@.len() && vaults_view(entries@)[i as int].0 == name@,
        r is None ==> vault_index(vaults_view(entries@), name@) is None,
        r is None ==> forall|k: int| 0 <= k < entries@.len() ==> vaults_view(entries@)[k].0 != name@,
{
    let ghost v = vaults_view(entries@);
    let key = chars_of(name);
    let mut i: usize = 0;
    while i < entries.len()
        invariant
            i <= entries@.len(),
            v == vaults_view(entries@),
            key@ == name@,
            forall|k: int| 0 <= k < i ==> v[k].0 != name@,
        decreases entries@.len() - i,
    {
        let entry_name = chars_of(entries[i].0.as_str());
        if crate::text::chars_eq(entry_name.as_slice(), key.as_slice()) {
            proof {
                assert(v[i as int].0 == name@);
                let c = choose|j: int| 0 <= j < v.len() && v[j].0 == name@ && forall|k: int|
                    0 <= k < j ==> v[k].0 != name@;
                if c < i {
                    assert(v[c].0 != name@);
                }
                if c > i {
                    assert(v[i as int].0 != name@);
                }
            }
            return Some(i);
        }
        i = i + 1;
    }
    None
}

impl Vaults {
    /// No name occurs twice.
    #[verifier::type_invariant]
    pub open spec fn names_distinct(&self) -> bool {
        vault_names(self@).no_duplicates()
    }

    /// No vaults.
    pub fn new() -> (r: Vaults)
        ensures
            r@.len() == 0,
    {
        let r = Vaults { entries: Vec::new() };
        assert(vault_names(r@) =~= Seq::<Seq<char>>::empty());
        r
    }

    /// Maps `name` to `path`, replacing the path the name had.
    pub fn insert(&mut self, name: String, path: String)
        ensures
            final(self)@ == vaults_inserted(old(self)@, name@, path@),
    {
        proof {
            use_type_invariant(&*self);
        }
        let ghost v = self@;
        let found = vault_position(self.entries.as_slice(), name.as_str());
        let mut entries: Vec<(String, String)> = Vec::new();
        std::mem::swap(&mut entries, &mut self.entries);
        match found {
            Some(i) => {
                proof {
                    assert(vault_names(v.update(i as int, (name@, path@))) =~= vault_names(v));
                }
                entries.set(i, (name, path));
                proof {
                    assert(vaults_view(entries@) =~= v.update(i as int, (name@, path@)));
                }
            },
            None => {
                proof {
                    assert(forall|k: int| 0 <= k < v.len() ==> v[k].0 != name@);
                    assert(vault_names(v.push((name@, path@))) =~= vault_names(v).push(name@));
                    assert forall|a: int, b: int| 0 <= a < b < v.len() + 1 implies vault_names(
                        v.push((name@, path@)),
                    )[a] != vault_names(v.push((name@, path@)))[b] by {
                        if b == v.len() {
                            assert(v[a].0 != name@);
                        } else {
                            assert(vault_names(v)[a] != vault_names(v)[b]);
                        }
                    }
                }
                entries.push((name, path));
                proof {
                    assert(vaults_view(entries@) =~= v.push((name@, path@)));
                }
            },
        }
        self.entries = entries;
    }

    /// The vaults as (name, path) pairs, in insertion order.
    pub fn entries(&self) -> (r: &[(String, String)])
        ensures
            vaults_view(r@) == self@,
            vault_names(self@).no_duplicates(),
    {
        proof {
            use_type_invariant(self);
        }
        self.entries.as_slice()
    }

    /// The number of vaults.
    pub fn len(&self) -> (r: usize)
        ensures
            r == self@.len(),
    {
        self.entries.len()
    }
}

/// Application configuration.
#[derive(Debug)]
pub struct Config {
    /// Default notes directory (legacy setting).
    pub dir: Option<String>,
    /// Editor command for editing notes.
    pub editor: Option<String>,
    /// Vault used when neither `--dir` nor `--vault` is given.
    pub default_vault: Option<String>,
    /// Named vaults.
    pub vaults: Vaults,
}

/// The result of resolving the notes directory.
#[derive(Debug)]
pub struct ResolvedDir {
    /// The notes directory.
    pub path: String,
    /// The vault's name, when the directory came from a vault.
    pub vault_name: Option<String>,
}

/// A vault name that the configuration does not hold.
#[derive(Debug)]
pub struct VaultNotFound {
    pub name: String,
    /// The configured vault names, sorted.
    pub available: Vec<String>,
}

pub open spec fn str_opt(o: Option<&str>) -> Option<Seq<char>> {
    match o {
        Some(s) => Some(s@),
        None => None,
    }
}

pub open spec fn string_opt(o: Option<String>) -> Option<Seq<char>> {
    match o {
        Some(s) => Some(s@),
        None => None,
    }
}

pub open spec fn vaults_view(v: Seq<(String, String)>) -> Seq<(Seq<char>, Seq<char>)> {
    v.map_values(|e: (String, String)| (e.0@, e.1@))
}

pub open spec fn strings_view(v: Seq<String>) -> Seq<Seq<char>> {
    v.map_values(|s: String| s@)
}

/// Pairs ordered by their first component.
pub open spec fn sorted_by_name(v: Seq<(Seq<char>, Seq<char>)>) -> bool {
    forall|i: int, j: int| 0 <= i < j < v.len() ==> seq_le(#[trigger] v[i].0, #[trigger] v[j].0)
}

pub open spec fn sorted_names(v: Seq<Seq<char>>) -> bool {
    forall|i: int, j: int| 0 <= i < j < v.len() ==> seq_le(#[trigger] v[i], #[trigger] v[j])
}

/// Index of the first vault with the given name, if any.
pub open spec fn vault_index(v: Seq<(Seq<char>, Seq<char>)>, name: Seq<char>) -> Option<int> {
    if exists|i: int| 0 <= i < v.len() && v[i].0 == name {
        Some(choose|i: int| 0 <= i < v.len() && v[i].0 == name && forall|k: int| 0 <= k < i ==> v[k].0 != name)
    } else {
        None
    }
}

/// The message of a missing vault: `available` lists the configured names.
pub open spec fn vault_not_found_message(name: Seq<char>, available: Seq<Seq<char>>) -> Seq<char> {
    if available.len() == 0 {
        "vault '"@ + name + "' not found (no vaults configured)"@
    } else {
        "vault '"@ + name + "' not found. Available vaults: "@ + join_comma(available)
    }
}

/// Items joined with `, `.
pub open spec fn join_comma(v: Seq<Seq<char>>) -> Seq<char>
    decreases v.len(),
{
    if v.len() == 0 {
        Seq::empty()
    } else if v.len() == 1 {
        v[0]
    } else {
        join_comma(v.drop_last()) + ", "@ + v.last()
    }
}

impl VaultNotFound {
    /// The error message.
    pub fn to_string(&self) -> (r: String)
        ensures
            r@ == vault_not_found_message(self.name@, strings_view(self.available@)),
    {
        let mut msg = String::from_str("vault '");
        msg.append(self.name.as_str());
        if self.available.len() == 0 {
            msg.append("' not found (no vaults configured)");
            return msg;
        }
        msg.append("' not found. Available vaults: ");
        let ghost head = msg@;
        let ghost av = strings_view(self.available@);
        msg.append(self.available[0].as_str());
        let mut i: usize = 1;
        assert(av.take(1) =~= seq![av[0]]);
        while i < self.available.len()
            invariant
                1 <= i <= self.available@.len(),
                av == strings_view(self.available@),
                msg@ == head + join_comma(av.take(i as int)),
            decreases self.available@.len() - i,
        {
            msg.append(", ");
            msg.append(self.available[i].as_str());
            i = i + 1;
            assert(av.take(i as int).drop_last() =~= av.take(i - 1));
        }
        assert(av.take(self.available@.len() as int) =~= av);
        msg
    }
}

fn name_le(a: &String, b: &String) -> (r: bool)
    ensures
        r == seq_le(a@, b@),
{
    chars_le(chars_of(a.as_str()).as_slice(), chars_of(b.as_str()).as_slice())
}

proof fn lemma_insert_multiset<A>(s: Seq<A>, i: int, x: A)
    requires
        0 <= i <= s.len(),
    ensures
        s.insert(i, x).to_multiset() =~= s.to_multiset().insert(x),
{
    broadcast use vstd::seq_lib::lemma_multiset_commutative;
    broadcast use vstd::multiset::group_multiset_axioms;

    assert(s.insert(i, x) =~= s.take(i) + (seq![x] + s.skip(i)));
    assert(s =~= s.take(i) + s.skip(i));
    assert(seq![x] =~= Seq::<A>::empty().push(x));
}

/// Names in strictly ascending order: sorted, none twice.
pub open spec fn strictly_ascending(v: Seq<Seq<char>>) -> bool {
    forall|i: int, j: int| 0 <= i < j < v.len() ==> seq_le(#[trigger] v[i], #[trigger] v[j]) && v[i] != v[j]
}

proof fn lemma_sorted_distinct_strict(r: Seq<Seq<char>>, names: Seq<Seq<char>>)
    requires
        sorted_names(r),
        r.to_multiset() == names.to_multiset(),
        names.no_duplicates(),
    ensures
        strictly_ascending(r),
{
    names.lemma_multiset_has_no_duplicates();
    r.lemma_multiset_has_no_duplicates_conv();
}

/// Sorted sequences of the same names, counted with repetition, are equal.
/// The vault names in ascending order.
pub open spec fn ascending_names(v: Seq<(Seq<char>, Seq<char>)>) -> Seq<Seq<char>> {
    choose|w: Seq<Seq<char>>| sorted_names(w) && w.to_multiset() == vault_names(v).to_multiset()
}

/// A sorted arrangement of the vault names is the ascending list.
proof fn lemma_ascending_names(v: Seq<(Seq<char>, Seq<char>)>, w: Seq<Seq<char>>)
    requires
        sorted_names(w),
        w.to_multiset() == vault_names(v).to_multiset(),
    ensures
        ascending_names(v) == w,
{
    let c = ascending_names(v);
    assert(sorted_names(c) && c.to_multiset() == vault_names(v).to_multiset());
    lemma_sorted_unique(c, w);
}

/// A listed vault, taken from vaults with distinct names, is what its name
/// looks up.
proof fn lemma_listed_lookup(v: Seq<(Seq<char>, Seq<char>)>, l: Seq<(Seq<char>, Seq<char>)>, i: int)
    requires
        vault_names(v).no_duplicates(),
        l.to_multiset() == v.to_multiset(),
        0 <= i < l.len(),
    ensures
        lookup_vault(v, l[i].0) == Ok::<(Seq<char>, Option<Seq<char>>), Seq<char>>((l[i].1, Some(l[i].0))),
{
    assert(l.to_multiset().count(l[i]) > 0);
    assert(v.contains(l[i]));
    let k = choose|k: int| 0 <= k < v.len() && v[k] == l[i];
    let name = l[i].0;
    assert(vault_names(v)[k] == name);
    assert forall|m: int| 0 <= m < k implies v[m].0 != name by {
        assert(vault_names(v)[m] != vault_names(v)[k]);
    }
    assert(0 <= k < v.len() && v[k].0 == name && forall|m: int| 0 <= m < k ==> v[m].0 != name);
    let c = choose|j: int| 0 <= j < v.len() && v[j].0 == name && forall|m: int| 0 <= m < j ==> v[m].0 != name;
    if c != k {
        assert(vault_names(v)[c] == name);
        if c < k {
            assert(vault_names(v)[c] != vault_names(v)[k]);
        } else {
            assert(v[k].0 != name);
        }
    }
    assert(vault_index(v, name) == Some(k));
}

proof fn lemma_sorted_unique(a: Seq<Seq<char>>, b: Seq<Seq<char>>)
    requires
        sorted_names(a),
        sorted_names(b),
        a.to_multiset() == b.to_multiset(),
    ensures
        a == b,
    decreases a.len(),
{
    broadcast use vstd::multiset::group_multiset_axioms;
    broadcast use vstd::seq_lib::group_seq_properties;

    a.to_multiset_ensures();
    b.to_multiset_ensures();
    if a.len() == 0 {
        assert(b.len() == 0);
        assert(a =~= b);
    } else {
        assert(b.len() == a.len());
        let x = a.last();
        let y = b.last();
        assert(a.to_multiset().count(x) > 0);
        assert(b.contains(x));
        let i = choose|i: int| 0 <= i < b.len() && b[i] == x;
        assert(b.to_multiset().count(y) > 0);
        assert(a.contains(y));
        let j = choose|j: int| 0 <= j < a.len() && a[j] == y;
        if i < b.len() - 1 {
            assert(seq_le(b[i], b[b.len() - 1]));
        } else {
            lemma_seq_le_reflexive_local(x);
        }
        if j < a.len() - 1 {
            assert(seq_le(a[j], a[a.len() - 1]));
        } else {
            lemma_seq_le_reflexive_local(y);
        }
        crate::text::lemma_seq_le_antisymmetric(x, y);
        assert(a =~= a.drop_last().push(x));
        assert(b =~= b.drop_last().push(y));
        vstd::seq_lib::to_multiset_build(a.drop_last(), x);
        vstd::seq_lib::to_multiset_build(b.drop_last(), y);
        assert(a.drop_last().to_multiset().insert(x).remove(x) =~= a.drop_last().to_multiset());
        assert(b.drop_last().to_multiset().insert(x).remove(x) =~= b.drop_last().to_multiset());
        assert(a.drop_last().to_multiset() =~= b.drop_last().to_multiset());
        lemma_sorted_unique(a.drop_last(), b.drop_last());
    }
}

proof fn lemma_seq_le_reflexive_local(x: Seq<char>)
    ensures
        seq_le(x, x),
{
    crate::text::lemma_seq_le_reflexive(x);
}

/// `list_vaults` and `list_vault_names` agree: the names of the listed vaults,
/// in order, are the listed names (both are the configured names in
/// ascending order).
pub proof fn lemma_vault_listings_agree(
    vaults: Seq<(Seq<char>, Seq<char>)>,
    listed: Seq<(Seq<char>, Seq<char>)>,
    names: Seq<Seq<char>>,
)
    requires
        sorted_by_name(listed),
        vault_names(listed).to_multiset() == vault_names(vaults).to_multiset(),
        sorted_names(names),
        names.to_multiset() == vault_names(vaults).to_multiset(),
    ensures
        vault_names(listed) == names,
{
    assert(sorted_names(vault_names(listed)));
    lemma_sorted_unique(vault_names(listed), names);
}

/// A copy of the vaults, ordered by name.
pub fn sort_vaults(v: &[(String, String)]) -> (r: Vec<(String, String)>)
    ensures
        sorted_by_name(vaults_view(r@)),
        vaults_view(r@).to_multiset() == vaults_view(v@).to_multiset(),
        vault_names(vaults_view(r@)).to_multiset() == vault_names(vaults_view(v@)).to_multiset(),
{
    let mut out: Vec<(String, String)> = Vec::new();
    let mut i: usize = 0;
    assert(vaults_view(v@).take(0) =~= Seq::<(Seq<char>, Seq<char>)>::empty());
    assert(vaults_view(out@) =~= Seq::<(Seq<char>, Seq<char>)>::empty());
    while i < v.len()
        invariant
            i <= v@.len(),
            sorted_by_name(vaults_view(out@)),
            vaults_view(out@).to_multiset() == vaults_view(v@).take(i as int).to_multiset(),
            vault_names(vaults_view(out@)).to_multiset() == vault_names(vaults_view(v@).take(i as int)).to_multiset(),
        decreases v@.len() - i,
    {
        let x = (v[i].0.clone(), v[i].1.clone());
        let ghost xv = (x.0@, x.1@);
        let mut p: usize = 0;
        while p < out.len() && name_le(&out[p].0, &x.0)
            invariant
                p <= out@.len(),
                xv == (x.0@, x.1@),
                forall|k: int| 0 <= k < p ==> seq_le(#[trigger] vaults_view(out@)[k].0, xv.0),
            decreases out@.len() - p,
        {
            assert(vaults_view(out@)[p as int].0 == out@[p as int].0@);
            p = p + 1;
        }
        let ghost before = vaults_view(out@);
        proof {
            if p < out@.len() {
                lemma_seq_le_total(before[p as int].0, xv.0);
            }
        }
        out.insert(p, x);
        let ghost after = vaults_view(out@);
        assert(after =~= before.insert(p as int, xv));
        proof {
            assert forall|a: int, b: int| 0 <= a < b < after.len() implies seq_le(
                #[trigger] after[a].0,
                #[trigger] after[b].0,
            ) by {
                if b < p {
                } else if b == p {
                    assert(after[a] == before[a]);
                } else if a == p {
                    assert(after[b] == before[b - 1]);
                    if b - 1 > p {
                        lemma_seq_le_transitive(xv.0, before[p as int].0, before[b - 1].0);
                    }
                } else if a < p {
                    assert(after[a] == before[a]);
                    assert(after[b] == before[b - 1]);
                } else {
                    assert(after[a] == before[a - 1]);
                    assert(after[b] == before[b - 1]);
                }
            }
            lemma_insert_multiset(before, p as int, xv);
            assert(vault_names(after) =~= vault_names(before).insert(p as int, xv.0));
            lemma_insert_multiset(vault_names(before), p as int, xv.0);
            assert(vaults_view(v@).take(i + 1) =~= vaults_view(v@).take(i as int).push(xv));
            assert(vault_names(vaults_view(v@).take(i + 1)) =~= vault_names(vaults_view(v@).take(i as int)).push(xv.0));
            assert(vault_names(vaults_view(v@).take(i as int)).push(xv.0) =~= vault_names(vaults_view(v@).take(i as int)).insert(
                vault_names(vaults_view(v@).take(i as int)).len() as int, xv.0));
            lemma_insert_multiset(vault_names(vaults_view(v@).take(i as int)), vault_names(vaults_view(v@).take(i as int)).len() as int, xv.0);
        }
        i = i + 1;
    }
    assert(vaults_view(v@).take(v@.len() as int) =~= vaults_view(v@));
    assert(vault_names(vaults_view(v@)).take(0) =~= vault_names(vaults_view(v@)).take(0));
    out
}

/// A copy of the names, sorted.
pub fn sort_names(v: &Vec<String>) -> (r: Vec<String>)
    ensures
        sorted_names(strings_view(r@)),
        strings_view(r@).to_multiset() == strings_view(v@).to_multiset(),
{
    let mut out: Vec<String> = Vec::new();
    let mut i: usize = 0;
    assert(strings_view(v@).take(0) =~= Seq::<Seq<char>>::empty());
    assert(strings_view(out@) =~= Seq::<Seq<char>>::empty());
    while i < v.len()
        invariant
            i <= v@.len(),
            sorted_names(strings_view(out@)),
            strings_view(out@).to_multiset() == strings_view(v@).take(i as int).to_multiset(),
        decreases v@.len() - i,
    {
        let x = v[i].clone();
        let mut p: usize = 0;
        while p < out.len() && name_le(&out[p], &x)
            invariant
                p <= out@.len(),
                forall|k: int| 0 <= k < p ==> seq_le(#[trigger] strings_view(out@)[k], x@),
            decreases out@.len() - p,
        {
            p = p + 1;
        }
        let ghost before = strings_view(out@);
        proof {
            if p < out@.len() {
                lemma_seq_le_total(before[p as int], x@);
            }
        }
        out.insert(p, x);
        let ghost after = strings_view(out@);
        assert(after =~= before.insert(p as int, x@));
        proof {
            assert forall|a: int, b: int| 0 <= a < b < after.len() implies seq_le(
                #[trigger] after[a],
                #[trigger] after[b],
            ) by {
                if b < p {
                } else if b == p {
                    assert(after[a] == before[a]);
                } else if a == p {
                    assert(after[b] == before[b - 1]);
                    if b - 1 > p {
                        lemma_seq_le_transitive(x@, before[p as int], before[b - 1]);
                    }
                } else if a < p {
                    assert(after[a] == before[a]);
                    assert(after[b] == before[b - 1]);
                } else {
                    assert(after[a] == before[a - 1]);
                    assert(after[b] == before[b - 1]);
                }
            }
            lemma_insert_multiset(before, p as int, x@);
            assert(strings_view(v@).take(i + 1) =~= strings_view(v@).take(i as int).push(x@));
        }
        i = i + 1;
    }
    assert(strings_view(v@).take(v@.len() as int) =~= strings_view(v@));
    out
}

/// Looking a vault up by name: its path and name, or the missing name.
pub open spec fn lookup_vault(v: Seq<(Seq<char>, Seq<char>)>, name: Seq<char>) -> Result<
    (Seq<char>, Option<Seq<char>>),
    Seq<char>,
> {
    match vault_index(v, name) {
        Some(k) => Ok((v[k].1, Some(name))),
        None => Err(name),
    }
}

/// The notes directory by precedence: `--dir`, `--vault`, the default
/// vault, the legacy `dir` setting, and finally the current directory.
pub open spec fn resolve_spec(
    cfg_dir: Option<Seq<char>>,
    default_vault: Option<Seq<char>>,
    vaults: Seq<(Seq<char>, Seq<char>)>,
    cli_dir: Option<Seq<char>>,
    cli_vault: Option<Seq<char>>,
) -> Result<(Seq<char>, Option<Seq<char>>), Seq<char>> {
    if let Some(d) = cli_dir {
        Ok((d, None))
    } else if let Some(n) = cli_vault {
        lookup_vault(vaults, n)
    } else if let Some(n) = default_vault {
        lookup_vault(vaults, n)
    } else if let Some(d) = cfg_dir {
        Ok((d, None))
    } else {
        Ok(("."@, None))
    }
}

pub open spec fn resolved_view(r: Result<ResolvedDir, VaultNotFound>) -> Result<
    (Seq<char>, Option<Seq<char>>),
    Seq<char>,
> {
    match r {
        Ok(d) => Ok((d.path@, string_opt(d.vault_name))),
        Err(e) => Err(e.name@),
    }
}

pub open spec fn vault_names(v: Seq<(Seq<char>, Seq<char>)>) -> Seq<Seq<char>> {
    v.map_values(|e: (Seq<char>, Seq<char>)| e.0)
}

/// The editor by precedence: the configured one, `$EDITOR`, `$VISUAL`
/// (each when non-empty), else `vi`.
pub open spec fn editor_spec(cfg: Option<Seq<char>>, env_editor: Option<Seq<char>>, env_visual: Option<Seq<char>>) -> Seq<char> {
    if cfg matches Some(e) && e.len() > 0 {
        cfg->0
    } else if env_editor matches Some(e) && e.len() > 0 {
        env_editor->0
    } else if env_visual matches Some(e) && e.len() > 0 {
        env_visual->0
    } else {
        "vi"@
    }
}

impl Config {
    pub open spec fn spec_vaults(&self) -> Seq<(Seq<char>, Seq<char>)> {
        self.vaults@
    }

    /// A configuration with no settings and no vaults.
    pub fn empty() -> (r: Config)
        ensures
            r.dir is None,
            r.editor is None,
            r.default_vault is None,
            r.vaults@.len() == 0,
    {
        Config { dir: None, editor: None, default_vault: None, vaults: Vaults::new() }
    }

    /// The notes directory without vaults: `--dir`, else the `dir` setting, else `.`.
    pub fn notes_dir(&self, cli_dir: Option<&str>) -> (r: String)
        ensures
            r@ == (match cli_dir {
                Some(d) => d@,
                None => match self.dir {
                    Some(d) => d@,
                    None => "."@,
                },
            }),
    {
        match cli_dir {
            Some(d) => String::from_str(d),
            None => match &self.dir {
                Some(d) => d.clone(),
                None => String::from_str("."),
            },
        }
    }

    /// Resolves the notes directory: `--dir`, then `--vault`, then the
    /// default vault, then the `dir` setting, then the current directory.
    pub fn resolve_notes_dir(&self, cli_dir: Option<&str>, cli_vault: Option<&str>) -> (res: Result<
        ResolvedDir,
        VaultNotFound,
    >)
        ensures
            resolved_view(res) == resolve_spec(
                string_opt(self.dir),
                string_opt(self.default_vault),
                self.spec_vaults(),
                str_opt(cli_dir),
                str_opt(cli_vault),
            ),
            res matches Err(e) ==> strings_view(e.available@) == ascending_names(self.spec_vaults()),
    {
        if let Some(d) = cli_dir {
            return Ok(ResolvedDir { path: String::from_str(d), vault_name: None });
        }
        if let Some(n) = cli_vault {
            return self.resolve_vault(n);
        }
        if let Some(n) = &self.default_vault {
            return self.resolve_vault(n.as_str());
        }
        if let Some(d) = &self.dir {
            return Ok(ResolvedDir { path: d.clone(), vault_name: None });
        }
        Ok(ResolvedDir { path: String::from_str("."), vault_name: None })
    }

    /// Resolves a vault name to its path; a missing name yields an error
    /// listing the configured names, sorted.
    pub fn resolve_vault(&self, name: &str) -> (res: Result<ResolvedDir, VaultNotFound>)
        ensures
            resolved_view(res) == lookup_vault(self.spec_vaults(), name@),
            res matches Err(e) ==> strings_view(e.available@) == ascending_names(self.spec_vaults()),
    {
        let ghost v = self.spec_vaults();
        let entries = self.vaults.entries();
        let key = chars_of(name);
        let mut i: usize = 0;
        while i < entries.len()
            invariant
                i <= entries@.len(),
                v == self.spec_vaults(),
                v == vaults_view(entries@),
                key@ == name@,
                forall|k: int| 0 <= k < i ==> v[k].0 != name@,
            decreases entries@.len() - i,
        {
            let entry_name = chars_of(entries[i].0.as_str());
            if crate::text::chars_eq(entry_name.as_slice(), key.as_slice()) {
                proof {
                    assert(v[i as int].0 == name@);
                    let c = choose|j: int| 0 <= j < v.len() && v[j].0 == name@ && forall|k: int|
                        0 <= k < j ==> v[k].0 != name@;
                    if c < i {
                        assert(v[c].0 != name@);
                    }
                    if c > i {
                        assert(v[i as int].0 != name@);
                    }
                }
                return Ok(
                    ResolvedDir {
                        path: entries[i].1.clone(),
                        vault_name: Some(String::from_str(name)),
                    },
                );
            }
            i = i + 1;
        }
        let available = self.list_vault_names();
        Err(VaultNotFound { name: String::from_str(name), available })
    }

    /// The configured vault names, sorted.
    pub fn list_vault_names(&self) -> (r: Vec<String>)
        ensures
            sorted_names(strings_view(r@)),
            strings_view(r@).to_multiset() == vault_names(self.spec_vaults()).to_multiset(),
            strictly_ascending(strings_view(r@)),
            strings_view(r@) == ascending_names(self.spec_vaults()),
    {
        let entries = self.vaults.entries();
        let mut names: Vec<String> = Vec::new();
        let mut i: usize = 0;
        while i < entries.len()
            invariant
                i <= entries@.len(),
                names@.len() == i,
                forall|k: int| 0 <= k < i ==> (#[trigger] names@[k])@ == entries@[k].0@,
            decreases entries@.len() - i,
        {
            names.push(entries[i].0.clone());
            i = i + 1;
        }
        assert(strings_view(names@) =~= vault_names(self.spec_vaults()));
        let r = sort_names(&names);
        proof {
            lemma_sorted_distinct_strict(strings_view(r@), vault_names(self.spec_vaults()));
            lemma_ascending_names(self.spec_vaults(), strings_view(r@));
        }
        r
    }

    /// The configured vaults as (name, path) pairs, ordered by name.
    pub fn list_vaults(&self) -> (r: Vec<(String, String)>)
        ensures
            sorted_by_name(vaults_view(r@)),
            vaults_view(r@).to_multiset() == self.spec_vaults().to_multiset(),
            vault_names(vaults_view(r@)).to_multiset() == vault_names(self.spec_vaults()).to_multiset(),
            vault_names(vaults_view(r@)) == ascending_names(self.spec_vaults()),
            forall|i: int| 0 <= i < r@.len() ==> lookup_vault(self.spec_vaults(), #[trigger] vaults_view(r@)[i].0)
                == Ok::<(Seq<char>, Option<Seq<char>>), Seq<char>>((vaults_view(r@)[i].1, Some(vaults_view(r@)[i].0))),
    {
        let entries = self.vaults.entries();
        let r = sort_vaults(entries);
        proof {
            let l = vaults_view(r@);
            let v = self.spec_vaults();
            assert(sorted_names(vault_names(l)));
            lemma_ascending_names(v, vault_names(l));
            assert forall|i: int| 0 <= i < r@.len() implies lookup_vault(v, #[trigger] vaults_view(r@)[i].0)
                == Ok::<(Seq<char>, Option<Seq<char>>), Seq<char>>((l[i].1, Some(l[i].0))) by {
                lemma_listed_lookup(v, l, i);
            }
        }
        r
    }

    /// The editor command, given the values of `$EDITOR` and `$VISUAL`.
    pub fn editor_with(&self, env_editor: Option<&str>, env_visual: Option<&str>) -> (r: String)
        ensures
            r@ == editor_spec(string_opt(self.editor), str_opt(env_editor), str_opt(env_visual)),
    {
        if let Some(e) = &self.editor {
            if !e.as_str().is_empty() {
                return e.clone();
            }
        }
        if let Some(e) = env_editor {
            if !e.is_empty() {
                return String::from_str(e);
            }
        }
        if let Some(e) = env_visual {
            if !e.is_empty() {
                return String::from_str(e);
            }
        }
        String::from_str("vi")
    }
}

impl Default for Config {
    fn default() -> (r: Config)
        ensures
            r.dir is None,
            r.editor is None,
            r.default_vault is None,
            r.vaults@.len() == 0,
    {
        Config::empty()
    }
}

} // verus!
