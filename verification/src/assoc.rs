//! Keyed sequences: the model behind every registry in the engine.
//!
//! Registries (players, vehicles, ribbons, clients, arenas) are vectors of
//! key/value pairs whose keys are unique. The spec functions here define
//! lookup, insertion, and removal over such sequences; the executable
//! helpers mirror them exactly.

use vstd::prelude::*;

verus! {

/// Index of the first entry with key `k`, or -1 when there is none.
pub open spec fn al_index_of<K, V>(s: Seq<(K, V)>, k: K) -> int
    decreases s.len(),
{
    if s.len() == 0 {
        -1
    } else if s[0].0 == k {
        0
    } else if al_index_of(s.drop_first(), k) < 0 {
        -1
    } else {
        al_index_of(s.drop_first(), k) + 1
    }
}

/// Whether some entry carries key `k`.
pub open spec fn al_contains<K, V>(s: Seq<(K, V)>, k: K) -> bool {
    al_index_of(s, k) >= 0
}

/// The value stored under key `k`.
pub open spec fn al_get<K, V>(s: Seq<(K, V)>, k: K) -> V
    recommends
        al_contains(s, k),
{
    s[al_index_of(s, k)].1
}

/// Store `v` under `k`: replace the existing entry in place, or append.
pub open spec fn al_insert<K, V>(s: Seq<(K, V)>, k: K, v: V) -> Seq<(K, V)> {
    if al_contains(s, k) {
        s.update(al_index_of(s, k), (k, v))
    } else {
        s.push((k, v))
    }
}

/// Drop the entry under `k`, if any.
pub open spec fn al_remove<K, V>(s: Seq<(K, V)>, k: K) -> Seq<(K, V)> {
    if al_contains(s, k) {
        s.remove(al_index_of(s, k))
    } else {
        s
    }
}

/// No two entries share a key.
pub open spec fn al_unique<K, V>(s: Seq<(K, V)>) -> bool {
    forall|i: int, j: int| 0 <= i < j < s.len() ==> s[i].0 != s[j].0
}

/// `al_index_of` finds the first matching entry, and only a matching one.
pub proof fn lemma_al_index_of<K, V>(s: Seq<(K, V)>, k: K)
    ensures
        -1 <= al_index_of(s, k) < s.len(),
        al_index_of(s, k) >= 0 ==> s[al_index_of(s, k)].0 == k,
        forall|j: int| 0 <= j < al_index_of(s, k) ==> s[j].0 != k,
        al_index_of(s, k) == -1 ==> forall|j: int| 0 <= j < s.len() ==> s[j].0 != k,
    decreases s.len(),
{
    if s.len() > 0 && s[0].0 != k {
        let d = s.drop_first();
        lemma_al_index_of(d, k);
        assert forall|j: int| 0 <= j < al_index_of(s, k) implies s[j].0 != k by {
            if j > 0 {
                assert(s[j] == d[j - 1]);
            }
        }
        if al_index_of(s, k) == -1 {
            assert forall|j: int| 0 <= j < s.len() implies s[j].0 != k by {
                if j > 0 {
                    assert(s[j] == d[j - 1]);
                }
            }
        }
    }
}

/// Any position that is the first match is the index `al_index_of` gives.
pub proof fn lemma_al_index_of_is_first<K, V>(s: Seq<(K, V)>, k: K, i: int)
    requires
        0 <= i < s.len(),
        s[i].0 == k,
        forall|j: int| 0 <= j < i ==> s[j].0 != k,
    ensures
        al_index_of(s, k) == i,
    decreases s.len(),
{
    if i > 0 {
        assert(s[0].0 != k);
        assert(s.drop_first()[i - 1] == s[i]);
        assert forall|j: int| 0 <= j < i - 1 implies s.drop_first()[j].0 != k by {
            assert(s.drop_first()[j] == s[j + 1]);
        }
        lemma_al_index_of_is_first(s.drop_first(), k, i - 1);
    }
}

/// Insertion keeps keys unique.
pub proof fn lemma_al_insert_unique<K, V>(s: Seq<(K, V)>, k: K, v: V)
    requires
        al_unique(s),
    ensures
        al_unique(al_insert(s, k, v)),
{
    lemma_al_index_of(s, k);
}

/// Removal keeps keys unique.
pub proof fn lemma_al_remove_unique<K, V>(s: Seq<(K, V)>, k: K)
    requires
        al_unique(s),
    ensures
        al_unique(al_remove(s, k)),
{
    lemma_al_index_of(s, k);
    if al_contains(s, k) {
        let i = al_index_of(s, k);
        let r = s.remove(i);
        assert forall|p: int, q: int| 0 <= p < q < r.len() implies r[p].0 != r[q].0 by {
            if p < i {
                if q < i {
                    assert(r[p] == s[p] && r[q] == s[q]);
                } else {
                    assert(r[p] == s[p] && r[q] == s[q + 1]);
                }
            } else {
                assert(r[p] == s[p + 1] && r[q] == s[q + 1]);
            }
        }
    }
}

/// After an insertion, the key is present and holds the inserted value.
pub proof fn lemma_al_insert_get<K, V>(s: Seq<(K, V)>, k: K, v: V)
    ensures
        al_contains(al_insert(s, k, v), k),
        al_get(al_insert(s, k, v), k) == v,
{
    lemma_al_index_of(s, k);
    if al_contains(s, k) {
        let i = al_index_of(s, k);
        let t = s.update(i, (k, v));
        assert forall|j: int| 0 <= j < i implies t[j].0 != k by {
            assert(t[j] == s[j]);
        }
        lemma_al_index_of_is_first(t, k, i);
    } else {
        let t = s.push((k, v));
        assert forall|j: int| 0 <= j < s.len() implies t[j].0 != k by {
            assert(t[j] == s[j]);
        }
        assert(t[s.len() as int] == (k, v));
        lemma_al_index_of_is_first(t, k, s.len() as int);
    }
}

/// Insertion under one key leaves every other key's entry alone.
pub proof fn lemma_al_insert_other<K, V>(s: Seq<(K, V)>, k: K, v: V, k2: K)
    requires
        k2 != k,
    ensures
        al_contains(al_insert(s, k, v), k2) == al_contains(s, k2),
        al_contains(s, k2) ==> al_get(al_insert(s, k, v), k2) == al_get(s, k2),
{
    lemma_al_index_of(s, k);
    lemma_al_index_of(s, k2);
    if al_contains(s, k) {
        let i = al_index_of(s, k);
        let t = s.update(i, (k, v));
        if al_contains(s, k2) {
            let j = al_index_of(s, k2);
            assert(t[j] == s[j]);
            assert forall|m: int| 0 <= m < j implies t[m].0 != k2 by {
                if m != i {
                    assert(t[m] == s[m]);
                }
            }
            lemma_al_index_of_is_first(t, k2, j);
        } else {
            assert forall|m: int| 0 <= m < t.len() implies t[m].0 != k2 by {
                if m != i {
                    assert(t[m] == s[m]);
                }
            }
            lemma_al_index_of(t, k2);
        }
    } else {
        let t = s.push((k, v));
        if al_contains(s, k2) {
            let j = al_index_of(s, k2);
            assert(t[j] == s[j]);
            assert forall|m: int| 0 <= m < j implies t[m].0 != k2 by {
                assert(t[m] == s[m]);
            }
            lemma_al_index_of_is_first(t, k2, j);
        } else {
            assert forall|m: int| 0 <= m < t.len() implies t[m].0 != k2 by {
                if m < s.len() {
                    assert(t[m] == s[m]);
                } else {
                    assert(t[m] == (k, v));
                }
            }
            lemma_al_index_of(t, k2);
        }
    }
}

/// Insertion entry by entry: every position but the inserted one is
/// untouched.
pub proof fn lemma_al_insert_pointwise<K, V>(s: Seq<(K, V)>, k: K, v: V)
    ensures
        al_insert(s, k, v).len() == (if al_contains(s, k) {
            s.len() as int
        } else {
            s.len() as int + 1
        }),
        forall|j: int|
            0 <= j < s.len() && j != al_index_of(s, k) ==> al_insert(s, k, v)[j] == s[j],
        al_contains(s, k) ==> al_insert(s, k, v)[al_index_of(s, k)] == (k, v),
        !al_contains(s, k) ==> al_insert(s, k, v)[s.len() as int] == (k, v),
{
    lemma_al_index_of(s, k);
}

/// With unique keys, any matching position is the one `al_index_of` gives.
pub proof fn lemma_al_unique_index<K, V>(s: Seq<(K, V)>, i: int)
    requires
        al_unique(s),
        0 <= i < s.len(),
    ensures
        al_index_of(s, s[i].0) == i,
        al_get(s, s[i].0) == s[i].1,
{
    assert forall|j: int| 0 <= j < i implies s[j].0 != s[i].0 by {}
    lemma_al_index_of_is_first(s, s[i].0, i);
}

/// Mapping entry values leaves `al_index_of` unchanged when the mapping
/// keeps keys.
pub proof fn lemma_al_index_of_map<K, V, W>(s: Seq<(K, V)>, k: K, f: spec_fn((K, V)) -> (K, W))
    requires
        forall|e: (K, V)| (#[trigger] f(e)).0 == e.0,
    ensures
        al_index_of(s.map_values(f), k) == al_index_of(s, k),
    decreases s.len(),
{
    if s.len() > 0 {
        assert(s.map_values(f)[0] == f(s[0]));
        if s[0].0 != k {
            lemma_al_index_of_map(s.drop_first(), k, f);
            assert(s.map_values(f).drop_first() =~= s.drop_first().map_values(f));
        }
    }
}

/// Mapping entry values commutes with insertion when the mapping keeps keys.
pub proof fn lemma_map_values_al_insert<K, V, W>(
    s: Seq<(K, V)>,
    k: K,
    v: V,
    f: spec_fn((K, V)) -> (K, W),
)
    requires
        forall|e: (K, V)| (#[trigger] f(e)).0 == e.0,
    ensures
        al_insert(s, k, v).map_values(f) =~= al_insert(s.map_values(f), k, f((k, v)).1),
{
    lemma_al_index_of_map(s, k, f);
    lemma_al_index_of(s, k);
    assert(f((k, v)) == (k, f((k, v)).1));
}

/// Mapping entry values commutes with removal when the mapping keeps keys.
pub proof fn lemma_map_values_al_remove<K, V, W>(s: Seq<(K, V)>, k: K, f: spec_fn((K, V)) -> (K, W))
    requires
        forall|e: (K, V)| (#[trigger] f(e)).0 == e.0,
    ensures
        al_remove(s, k).map_values(f) =~= al_remove(s.map_values(f), k),
{
    lemma_al_index_of_map(s, k, f);
    lemma_al_index_of(s, k);
}

/// Looking a key up after mapping gives the mapped value.
pub proof fn lemma_al_get_map<K, V, W>(s: Seq<(K, V)>, k: K, f: spec_fn((K, V)) -> (K, W))
    requires
        forall|e: (K, V)| (#[trigger] f(e)).0 == e.0,
        al_contains(s, k),
    ensures
        al_contains(s.map_values(f), k),
        al_get(s.map_values(f), k) == f((k, al_get(s, k))).1,
    decreases s.len(),
{
    lemma_al_index_of_map(s, k, f);
    lemma_al_index_of(s, k);
    let i = al_index_of(s, k);
    assert(s.map_values(f)[i] == f(s[i]));
    assert(s[i] == (k, al_get(s, k)));
}

/// Keys whose entries can be compared by the engine's registries.
pub trait RegistryKey: Sized + Copy {
    /// Equality test whose result is exactly value equality.
    fn key_eq(self, other: Self) -> (r: bool)
        ensures
            r == (self == other),
    ;
}

impl RegistryKey for crate::primitives::PlayerId {
    fn key_eq(self, other: Self) -> (r: bool)
        ensures
            r == (self == other),
    {
        self.0 == other.0
    }
}

impl RegistryKey for crate::primitives::ClientId {
    fn key_eq(self, other: Self) -> (r: bool)
        ensures
            r == (self == other),
    {
        self.0 == other.0
    }
}

impl RegistryKey for crate::primitives::ArenaId {
    fn key_eq(self, other: Self) -> (r: bool)
        ensures
            r == (self == other),
    {
        self.0 == other.0
    }
}

/// Position of the entry under `k`, if any.
pub fn al_find<K: RegistryKey, V>(v: &Vec<(K, V)>, k: K) -> (r: Option<usize>)
    ensures
        r is Some ==> al_index_of(v@, k) == r->Some_0 as int,
        r is None ==> !al_contains(v@, k),
{
    let mut i: usize = 0;
    while i < v.len()
        invariant
            i <= v@.len(),
            forall|j: int| 0 <= j < i ==> v@[j].0 != k,
        decreases v@.len() - i,
    {
        if v[i].0.key_eq(k) {
            proof {
                lemma_al_index_of_is_first(v@, k, i as int);
            }
            return Some(i);
        }
        i = i + 1;
    }
    proof {
        lemma_al_index_of(v@, k);
    }
    None
}

/// Store `val` under `k`: replace in place or append, as `al_insert` says.
pub fn al_put<K: RegistryKey, V>(v: &mut Vec<(K, V)>, k: K, val: V)
    ensures
        final(v)@ == al_insert(old(v)@, k, val),
{
    proof {
        lemma_al_index_of(old(v)@, k);
    }
    match al_find(v, k) {
        Some(i) => {
            proof {
                assert(al_contains(old(v)@, k));
                assert(i as int == al_index_of(old(v)@, k));
            }
            let entry = &mut v[i];
            *entry = (k, val);
            proof {
                assert(v@ == old(v)@.update(i as int, (k, val)));
            }
        }
        None => {
            v.push((k, val));
        }
    }
}

/// Drop the entry under `k`, if any, as `al_remove` says.
pub fn al_del<K: RegistryKey, V>(v: &mut Vec<(K, V)>, k: K)
    ensures
        final(v)@ == al_remove(old(v)@, k),
{
    proof {
        lemma_al_index_of(old(v)@, k);
    }
    match al_find(v, k) {
        Some(i) => {
            v.remove(i);
        }
        None => {}
    }
}

} // verus!
