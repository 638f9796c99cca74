//! The bookkeeping of entity names in a scene: every name stands for one
//! entity, and an entity is found again by its name.
//!
//! Entities themselves live in the scene's world; here they are their
//! numeric ids.

use vstd::prelude::*;

verus! {

/// The character of decimal digit `d`.
pub open spec fn decimal_digit(d: int) -> char {
    (48 + d) as char
}

/// The decimal digits of `n`, most significant first, without leading
/// zeros.
pub open spec fn decimal(n: nat) -> Seq<char>
    decreases n,
{
    if n < 10 {
        seq![decimal_digit(n as int)]
    } else {
        decimal(n / 10).push(decimal_digit((n % 10) as int))
    }
}

/// The default name of the `k`-th entity: `ent_` and `k` in decimal.
pub open spec fn default_entity_name(k: nat) -> Seq<char> {
    "ent_"@ + decimal(k)
}

/// Formats `n` with `usize::to_string`. Claimed: the result is `n` in
/// decimal, as integers are displayed.
#[verifier::external_body]
fn decimal_string(n: usize) -> (r: String)
    ensures
        r@ == decimal(n as nat),
{
    n.to_string()
}

proof fn lemma_decimal_len(n: nat)
    ensures
        decimal(n).len() >= 1,
        n >= 10 ==> decimal(n).len() >= 2,
    decreases n,
{
    if n >= 10 {
        lemma_decimal_len(n / 10);
    }
}

proof fn lemma_digit_injective(a: int, b: int)
    requires
        0 <= a < 10,
        0 <= b < 10,
        decimal_digit(a) == decimal_digit(b),
    ensures
        a == b,
{
    assert(decimal_digit(a) as int == 48 + a);
    assert(decimal_digit(b) as int == 48 + b);
}

/// Different numbers have different decimal forms.
proof fn lemma_decimal_injective(a: nat, b: nat)
    requires
        decimal(a) == decimal(b),
    ensures
        a == b,
    decreases a,
{
    lemma_decimal_len(a);
    lemma_decimal_len(b);
    if a < 10 && b < 10 {
        assert(decimal(a) == seq![decimal_digit(a as int)]);
        assert(decimal(b) == seq![decimal_digit(b as int)]);
        assert(decimal(a)[0] == decimal_digit(a as int));
        assert(decimal(b)[0] == decimal_digit(b as int));
        lemma_digit_injective(a as int, b as int);
    } else if a >= 10 && b >= 10 {
        let da = decimal(a);
        let db = decimal(b);
        assert(da.last() == db.last());
        lemma_digit_injective((a % 10) as int, (b % 10) as int);
        assert(da.drop_last() =~= decimal(a / 10));
        assert(db.drop_last() =~= decimal(b / 10));
        lemma_decimal_injective(a / 10, b / 10);
    }
}

/// Different numbers have different default names.
proof fn lemma_default_name_injective(a: nat, b: nat)
    requires
        default_entity_name(a) == default_entity_name(b),
    ensures
        a == b,
{
    let p = "ent_"@;
    assert((p + decimal(a)).subrange(p.len() as int, (p + decimal(a)).len() as int) =~= decimal(a));
    assert((p + decimal(b)).subrange(p.len() as int, (p + decimal(b)).len() as int) =~= decimal(b));
    lemma_decimal_injective(a, b);
}

/// The names of a scene's entities and the entity each stands for.
pub struct EntityNames {
    entries: Vec<(String, u64)>,
}

/// Whether `k` is the name of one of the entries.
pub open spec fn has_name(entries: Seq<(String, u64)>, k: Seq<char>) -> bool {
    exists|i: int| 0 <= i < entries.len() && (#[trigger] entries[i]).0@ == k
}

/// The entity that an entry of name `k` stands for.
pub open spec fn entity_of(entries: Seq<(String, u64)>, k: Seq<char>) -> u64 {
    entries[choose|i: int| 0 <= i < entries.len() && (#[trigger] entries[i]).0@ == k].1
}

/// No name occurs twice among the entries.
pub open spec fn names_unique(entries: Seq<(String, u64)>) -> bool {
    forall|i: int, j: int|
        0 <= i < entries.len() && 0 <= j < entries.len() && i != j ==> (#[trigger] entries[i]).0@ != (#[trigger] entries[j]).0@
}

/// The map from names to entities that the entries stand for.
pub open spec fn names_map(entries: Seq<(String, u64)>) -> Map<Seq<char>, u64> {
    Map::new(|k: Seq<char>| has_name(entries, k), |k: Seq<char>| entity_of(entries, k))
}

proof fn lemma_entry_value(entries: Seq<(String, u64)>, j: int)
    requires
        names_unique(entries),
        0 <= j < entries.len(),
    ensures
        has_name(entries, entries[j].0@),
        entity_of(entries, entries[j].0@) == entries[j].1,
{
    let k = entries[j].0@;
    assert(has_name(entries, k));
    let i = choose|i: int| 0 <= i < entries.len() && (#[trigger] entries[i]).0@ == k;
    assert(i == j);
}

impl View for EntityNames {
    type V = Map<Seq<char>, u64>;

    closed spec fn view(&self) -> Map<Seq<char>, u64> {
        names_map(self.entries@)
    }
}

impl EntityNames {
    /// Every name stands for one entity.
    pub closed spec fn wf(&self) -> bool {
        names_unique(self.entries@)
    }

    /// The number of names.
    pub closed spec fn nr_names(&self) -> nat {
        self.entries@.len()
    }

    /// The number of names.
    pub fn len(&self) -> (r: usize)
        ensures
            r == self.nr_names(),
    {
        self.entries.len()
    }

    /// Among the default names `ent_k` for `k` from `start` to `start` plus
    /// the number of names, one is free: these are more names than there
    /// are, and no two of them are the same.
    pub proof fn lemma_a_default_name_is_free(&self, start: int)
        requires
            self.wf(),
            0 <= start,
        ensures
            exists|j: int|
                start <= j <= start + self.nr_names() && !self@.contains_key(#[trigger] default_entity_name(j as nat)),
    {
        let n = self.entries@.len();
        let cands = Seq::new(n + 1, |i: int| default_entity_name((start + i) as nat));
        if forall|j: int|
            start <= j <= start + n ==> self@.contains_key(#[trigger] default_entity_name(j as nat)) {
            assert(cands.no_duplicates()) by {
                assert forall|i: int, k: int| 0 <= i < cands.len() && 0 <= k < cands.len() && i != k implies cands[i]
                    != cands[k] by {
                    if cands[i] == cands[k] {
                        lemma_default_name_injective((start + i) as nat, (start + k) as nat);
                    }
                }
            }
            cands.unique_seq_to_set();
            let names = self.entries@.map_values(|e: (String, u64)| e.0@);
            names.lemma_cardinality_of_set();
            assert(cands.to_set().subset_of(names.to_set())) by {
                assert forall|k: Seq<char>| cands.to_set().contains(k) implies names.to_set().contains(k) by {
                    let i = choose|i: int| 0 <= i < cands.len() && cands[i] == k;
                    assert(cands[i] == default_entity_name((start + i) as nat));
                    assert(self@.contains_key(default_entity_name((start + i) as nat)));
                    let j = choose|j: int| 0 <= j < self.entries@.len() && (#[trigger] self.entries@[j]).0@ == k;
                    assert(names[j] == k);
                }
            }
            vstd::seq_lib::seq_to_set_is_finite(names);
            vstd::set_lib::lemma_len_subset(cands.to_set(), names.to_set());
            assert(false);
        }
    }

    /// No names.
    pub fn new() -> (r: Self)
        ensures
            r.wf(),
            r@ == Map::<Seq<char>, u64>::empty(),
    {
        let r = EntityNames { entries: Vec::new() };
        proof {
            assert(r@ =~= Map::<Seq<char>, u64>::empty());
        }
        r
    }

    /// The position of the entry named `name`, if there is one.
    fn find(&self, name: &String) -> (r: Option<usize>)
        requires
            self.wf(),
        ensures
            match r {
                Some(i) => i < self.entries@.len() && self.entries@[i as int].0@ == name@,
                None => !has_name(self.entries@, name@),
            },
    {
        let mut i: usize = 0;
        while i < self.entries.len()
            invariant
                i <= self.entries@.len(),
                forall|j: int| 0 <= j < i ==> (#[trigger] self.entries@[j]).0@ != name@,
            decreases self.entries@.len() - i,
        {
            if self.entries[i].0 == *name {
                return Some(i);
            }
            i = i + 1;
        }
        None
    }

    /// The entity of that name, if there is one.
    pub fn get(&self, name: &str) -> (r: Option<u64>)
        requires
            self.wf(),
        ensures
            r == (if self@.contains_key(name@) { Some(self@[name@]) } else { None::<u64> }),
    {
        let key: String = name.to_owned();
        match self.find(&key) {
            Some(i) => {
                proof {
                    lemma_entry_value(self.entries@, i as int);
                }
                Some(self.entries[i].1)
            },
            None => None,
        }
    }

    /// Whether an entity has that name.
    pub fn contains(&self, name: &str) -> (r: bool)
        requires
            self.wf(),
        ensures
            r == self@.contains_key(name@),
    {
        let key: String = name.to_owned();
        self.find(&key).is_some()
    }

    /// Lets `name` stand for `entity`, in place of any entity it stood for.
    pub fn insert(&mut self, name: &str, entity: u64)
        requires
            old(self).wf(),
        ensures
            final(self).wf(),
            final(self)@ == old(self)@.insert(name@, entity),
    {
        let key: String = name.to_owned();
        let ghost old_entries = self.entries@;
        match self.find(&key) {
            Some(i) => {
                self.entries.set(i, (key, entity));
                proof {
                    let e = self.entries@;
                    assert(names_unique(e)) by {
                        assert forall|a: int, b: int|
                            0 <= a < e.len() && 0 <= b < e.len() && a != b implies (#[trigger] e[a]).0@ != (#[trigger] e[b]).0@ by {
                            if a != i && b != i {
                                assert(e[a] == old_entries[a] && e[b] == old_entries[b]);
                            } else if a == i {
                                assert(e[b] == old_entries[b]);
                                assert(old_entries[b].0@ != old_entries[a].0@);
                            } else {
                                assert(e[a] == old_entries[a]);
                                assert(old_entries[a].0@ != old_entries[b].0@);
                            }
                        }
                    }
                    assert forall|k: Seq<char>| #[trigger] names_map(e).contains_key(k) == old(self)@.insert(name@, entity).contains_key(k) by {
                        if has_name(old_entries, k) {
                            let j = choose|j: int| 0 <= j < old_entries.len() && (#[trigger] old_entries[j]).0@ == k;
                            assert(e[j].0@ == k);
                        }
                        if has_name(e, k) {
                            let j = choose|j: int| 0 <= j < e.len() && (#[trigger] e[j]).0@ == k;
                            if j != i {
                                assert(old_entries[j].0@ == k);
                            }
                        }
                    }
                    assert forall|k: Seq<char>| #[trigger] names_map(e).contains_key(k) implies names_map(e)[k] == old(self)@.insert(name@, entity)[k] by {
                        let j = choose|j: int| 0 <= j < e.len() && (#[trigger] e[j]).0@ == k;
                        lemma_entry_value(e, j);
                        if j != i {
                            assert(old_entries[j] == e[j]);
                            lemma_entry_value(old_entries, j);
                        }
                    }
                    assert(names_map(e) =~= old(self)@.insert(name@, entity));
                }
            },
            None => {
                self.entries.push((key, entity));
                proof {
                    let e = self.entries@;
                    let n = old_entries.len() as int;
                    assert(names_unique(e)) by {
                        assert forall|a: int, b: int|
                            0 <= a < e.len() && 0 <= b < e.len() && a != b implies (#[trigger] e[a]).0@ != (#[trigger] e[b]).0@ by {
                            if a != n && b != n {
                                assert(e[a] == old_entries[a] && e[b] == old_entries[b]);
                            } else if a == n {
                                assert(e[b] == old_entries[b]);
                            } else {
                                assert(e[a] == old_entries[a]);
                            }
                        }
                    }
                    assert forall|k: Seq<char>| #[trigger] names_map(e).contains_key(k) == old(self)@.insert(name@, entity).contains_key(k) by {
                        if has_name(old_entries, k) {
                            let j = choose|j: int| 0 <= j < old_entries.len() && (#[trigger] old_entries[j]).0@ == k;
                            assert(e[j].0@ == k);
                        }
                        if k == name@ {
                            assert(e[n].0@ == k);
                        }
                        if has_name(e, k) {
                            let j = choose|j: int| 0 <= j < e.len() && (#[trigger] e[j]).0@ == k;
                            if j != n {
                                assert(old_entries[j].0@ == k);
                            }
                        }
                    }
                    assert forall|k: Seq<char>| #[trigger] names_map(e).contains_key(k) implies names_map(e)[k] == old(self)@.insert(name@, entity)[k] by {
                        let j = choose|j: int| 0 <= j < e.len() && (#[trigger] e[j]).0@ == k;
                        lemma_entry_value(e, j);
                        if j != n {
                            assert(old_entries[j] == e[j]);
                            lemma_entry_value(old_entries, j);
                        }
                    }
                    assert(names_map(e) =~= old(self)@.insert(name@, entity));
                }
            },
        }
    }

    /// The entity that `name` stands for; where the name is free it is given
    /// to `fresh`. Returns the entity and whether the name was free.
    pub fn get_or_insert(&mut self, name: &str, fresh: u64) -> (r: (u64, bool))
        requires
            old(self).wf(),
        ensures
            final(self).wf(),
            (final(self)@, r.0, r.1) == get_or_insert_spec(old(self)@, name@, fresh),
    {
        match self.get(name) {
            Some(e) => (e, false),
            None => {
                self.insert(name, fresh);
                (fresh, true)
            },
        }
    }

    /// The first default name `ent_k`, counting `k` up from `start`, that no
    /// entity has. Some such `k` is required to fit in a `usize`.
    pub fn get_unused_name(&self, start: usize) -> (r: String)
        requires
            self.wf(),
            exists|j: int| start <= j <= usize::MAX && !self@.contains_key(#[trigger] default_entity_name(j as nat)),
        ensures
            exists|k: int|
                start <= k <= usize::MAX && r@ == #[trigger] default_entity_name(k as nat) && !self@.contains_key(r@)
                    && forall|j: int| start <= j < k ==> self@.contains_key(#[trigger] default_entity_name(j as nat)),
    {
        let ghost bound: int = choose|j: int| start <= j <= usize::MAX && !self@.contains_key(#[trigger] default_entity_name(j as nat));
        let mut cur: usize = start;
        loop
            invariant
                self.wf(),
                start <= cur <= bound <= usize::MAX,
                !self@.contains_key(default_entity_name(bound as nat)),
                forall|j: int| start <= j < cur ==> self@.contains_key(#[trigger] default_entity_name(j as nat)),
            decreases bound - cur,
        {
            let name = "ent_".to_owned().concat(decimal_string(cur).as_str());
            let ghost k: int = cur as int;
            assert(name@ == default_entity_name(k as nat));
            if !self.contains(name.as_str()) {
                return name;
            }
            cur = cur + 1;
        }
    }

    /// Forgets `name`; returns the entity it stood for, if any.
    pub fn remove(&mut self, name: &str) -> (r: Option<u64>)
        requires
            old(self).wf(),
        ensures
            final(self).wf(),
            final(self)@ == old(self)@.remove(name@),
            r == (if old(self)@.contains_key(name@) { Some(old(self)@[name@]) } else { None::<u64> }),
    {
        let key: String = name.to_owned();
        let ghost old_entries = self.entries@;
        match self.find(&key) {
            Some(i) => {
                proof {
                    lemma_entry_value(old_entries, i as int);
                }
                let removed = self.entries.remove(i);
                proof {
                    let e = self.entries@;
                    assert(e =~= old_entries.remove(i as int));
                    assert forall|a: int| 0 <= a < e.len() implies #[trigger] e[a] == old_entries[if a < i { a } else { a + 1 }] by {}
                    assert(names_unique(e)) by {
                        assert forall|a: int, b: int|
                            0 <= a < e.len() && 0 <= b < e.len() && a != b implies (#[trigger] e[a]).0@ != (#[trigger] e[b]).0@ by {
                            let oa = if a < i { a } else { a + 1 };
                            let ob = if b < i { b } else { b + 1 };
                            assert(e[a] == old_entries[oa] && e[b] == old_entries[ob]);
                        }
                    }
                    assert forall|k: Seq<char>| #[trigger] names_map(e).contains_key(k) == old(self)@.remove(name@).contains_key(k) by {
                        if has_name(old_entries, k) && k != name@ {
                            let j = choose|j: int| 0 <= j < old_entries.len() && (#[trigger] old_entries[j]).0@ == k;
                            assert(j != i);
                            let a = if j < i { j } else { j - 1 };
                            assert(e[a] == old_entries[j]);
                        }
                        if has_name(e, k) {
                            let a = choose|a: int| 0 <= a < e.len() && (#[trigger] e[a]).0@ == k;
                            let oa = if a < i { a } else { a + 1 };
                            assert(e[a] == old_entries[oa]);
                            assert(oa != i);
                        }
                    }
                    assert forall|k: Seq<char>| #[trigger] names_map(e).contains_key(k) implies names_map(e)[k] == old(self)@.remove(name@)[k] by {
                        let a = choose|a: int| 0 <= a < e.len() && (#[trigger] e[a]).0@ == k;
                        lemma_entry_value(e, a);
                        let oa = if a < i { a } else { a + 1 };
                        assert(e[a] == old_entries[oa]);
                        lemma_entry_value(old_entries, oa);
                    }
                    assert(names_map(e) =~= old(self)@.remove(name@));
                }
                Some(removed.1)
            },
            None => {
                proof {
                    assert(self@ =~= old(self)@.remove(name@));
                }
                None
            },
        }
    }

    /// The names, each once.
    pub fn names(&self) -> (r: Vec<String>)
        requires
            self.wf(),
        ensures
            forall|i: int| 0 <= i < r@.len() ==> self@.contains_key((#[trigger] r@[i])@),
            forall|k: Seq<char>| #[trigger] self@.contains_key(k) ==> exists|i: int| 0 <= i < r@.len() && (#[trigger] r@[i])@ == k,
            forall|i: int, j: int| 0 <= i < r@.len() && 0 <= j < r@.len() && i != j ==> (#[trigger] r@[i])@ != (#[trigger] r@[j])@,
    {
        let mut out: Vec<String> = Vec::new();
        let mut i: usize = 0;
        while i < self.entries.len()
            invariant
                i <= self.entries@.len(),
                names_unique(self.entries@),
                out@.len() == i,
                forall|j: int| 0 <= j < i ==> (#[trigger] out@[j])@ == self.entries@[j].0@,
            decreases self.entries@.len() - i,
        {
            out.push(self.entries[i].0.clone());
            i = i + 1;
        }
        proof {
            assert forall|a: int| 0 <= a < out@.len() implies self@.contains_key((#[trigger] out@[a])@) by {
                assert(self.entries@[a].0@ == out@[a]@);
            }
            assert forall|k: Seq<char>| #[trigger] self@.contains_key(k) implies exists|a: int| 0 <= a < out@.len() && (#[trigger] out@[a])@ == k by {
                let j = choose|j: int| 0 <= j < self.entries@.len() && (#[trigger] self.entries@[j]).0@ == k;
                assert(out@[j]@ == k);
            }
            assert forall|a: int, b: int| 0 <= a < out@.len() && 0 <= b < out@.len() && a != b implies (#[trigger] out@[a])@ != (#[trigger] out@[b])@ by {
                assert(self.entries@[a].0@ == out@[a]@);
                assert(self.entries@[b].0@ == out@[b]@);
            }
        }
        out
    }
}

/// What `get_or_insert` does to a names map: a name already taken keeps
/// its entity, which is returned; a free name is given `fresh`. The flag
/// tells whether the name was free.
pub open spec fn get_or_insert_spec(m: Map<Seq<char>, u64>, name: Seq<char>, fresh: u64) -> (Map<Seq<char>, u64>, u64, bool) {
    if m.contains_key(name) {
        (m, m[name], false)
    } else {
        (m.insert(name, fresh), fresh, true)
    }
}

/// Getting or creating an entity by name twice gives the same entity, and
/// the second time nothing is created and the names are unchanged; names
/// other than the one asked for keep their entities.
pub proof fn law_get_or_insert_is_idempotent(m: Map<Seq<char>, u64>, name: Seq<char>, fresh1: u64, fresh2: u64)
    ensures
        ({
            let (m1, e1, _) = get_or_insert_spec(m, name, fresh1);
            &&& get_or_insert_spec(m1, name, fresh2) == (m1, e1, false)
            &&& m1.contains_key(name) && m1[name] == e1
            &&& forall|k: Seq<char>| k != name ==> m1.contains_key(k) == m.contains_key(k)
            &&& forall|k: Seq<char>| k != name && #[trigger] m.contains_key(k) ==> m1[k] == m[k]
        }),
{
}

} // verus!
