//! A specification-level model of a small key/value table kept as a sequence
//! of pairs with pairwise-distinct keys. Both the byte store (entry name to
//! byte buffer) and the attributes metadata map (string to string) are
//! modelled this way, so that the order of the pairs stays observable.

use vstd::prelude::*;

verus! {

/// Whether some pair of the table carries the key `k`.
pub open spec fn al_has<V>(s: Seq<(Seq<char>, V)>, k: Seq<char>) -> bool {
    exists|i: int| 0 <= i < s.len() && s[i].0 == k
}

/// An index of a pair carrying the key `k` (unique under `al_distinct`).
pub open spec fn al_idx<V>(s: Seq<(Seq<char>, V)>, k: Seq<char>) -> int {
    choose|i: int| 0 <= i < s.len() && s[i].0 == k
}

/// The value stored under `k`, if any.
pub open spec fn al_get<V>(s: Seq<(Seq<char>, V)>, k: Seq<char>) -> Option<V> {
    if al_has(s, k) {
        Some(s[al_idx(s, k)].1)
    } else {
        None
    }
}

/// The table with `v` stored under `k`: an existing pair is replaced in
/// place, a fresh key is appended at the end.
pub open spec fn al_put<V>(s: Seq<(Seq<char>, V)>, k: Seq<char>, v: V) -> Seq<(Seq<char>, V)> {
    if al_has(s, k) {
        s.update(al_idx(s, k), (k, v))
    } else {
        s.push((k, v))
    }
}

/// The table with the pair carrying `k` removed, if any.
pub open spec fn al_del<V>(s: Seq<(Seq<char>, V)>, k: Seq<char>) -> Seq<(Seq<char>, V)> {
    if al_has(s, k) {
        s.remove(al_idx(s, k))
    } else {
        s
    }
}

/// Whether the keys of the table are pairwise distinct.
pub open spec fn al_distinct<V>(s: Seq<(Seq<char>, V)>) -> bool {
    forall|i: int, j: int| 0 <= i < j < s.len() ==> s[i].0 != s[j].0
}

/// The keys of the table, in order.
pub open spec fn al_keys<V>(s: Seq<(Seq<char>, V)>) -> Seq<Seq<char>> {
    Seq::new(s.len(), |i: int| s[i].0)
}

/// The table after storing every pair of `items` in order, later pairs
/// overwriting earlier ones with the same key.
pub open spec fn al_put_all<V>(
    base: Seq<(Seq<char>, V)>,
    items: Seq<(Seq<char>, V)>,
) -> Seq<(Seq<char>, V)>
    decreases items.len(),
{
    if items.len() == 0 {
        base
    } else {
        al_put_all(al_put(base, items[0].0, items[0].1), items.drop_first())
    }
}

/// Under distinct keys, any index whose pair carries `k` is the index that
/// `al_idx` denotes.
pub proof fn lemma_al_idx_unique<V>(s: Seq<(Seq<char>, V)>, k: Seq<char>, i: int)
    requires
        al_distinct(s),
        0 <= i < s.len(),
        s[i].0 == k,
    ensures
        al_has(s, k),
        al_idx(s, k) == i,
{
    assert(al_has(s, k));
    let j = al_idx(s, k);
    if i < j {
        assert(s[i].0 != s[j].0);
    } else if j < i {
        assert(s[j].0 != s[i].0);
    }
}

/// Storing a value keeps the keys pairwise distinct.
pub proof fn lemma_al_put_distinct<V>(s: Seq<(Seq<char>, V)>, k: Seq<char>, v: V)
    requires
        al_distinct(s),
    ensures
        al_distinct(al_put(s, k, v)),
{
    if al_has(s, k) {
        let i = al_idx(s, k);
        assert forall|a: int, b: int|
            0 <= a < b < al_put(s, k, v).len() implies al_put(s, k, v)[a].0 != al_put(
            s,
            k,
            v,
        )[b].0 by {
            assert(al_put(s, k, v)[a].0 == s[a].0);
            assert(al_put(s, k, v)[b].0 == s[b].0);
        }
    } else {
        assert forall|a: int, b: int|
            0 <= a < b < al_put(s, k, v).len() implies al_put(s, k, v)[a].0 != al_put(
            s,
            k,
            v,
        )[b].0 by {
            if b == s.len() {
                assert(al_put(s, k, v)[b].0 == k);
                assert(!al_has(s, k));
                assert(al_put(s, k, v)[a].0 == s[a].0);
                assert(s[a].0 != k);
            }
        }
    }
}

/// Removing a key keeps the keys pairwise distinct.
pub proof fn lemma_al_del_distinct<V>(s: Seq<(Seq<char>, V)>, k: Seq<char>)
    requires
        al_distinct(s),
    ensures
        al_distinct(al_del(s, k)),
{
    if al_has(s, k) {
        let i = al_idx(s, k);
        let t = s.remove(i);
        assert forall|a: int, b: int| 0 <= a < b < t.len() implies t[a].0 != t[b].0 by {
            let a0: int = if a < i {
                a
            } else {
                a + 1
            };
            let b0: int = if b < i {
                b
            } else {
                b + 1
            };
            assert(t[a] == s[a0]);
            assert(t[b] == s[b0]);
        }
    }
}

/// After storing `v` under `k`, `k` maps to `v`.
pub proof fn lemma_al_get_put_same<V>(s: Seq<(Seq<char>, V)>, k: Seq<char>, v: V)
    requires
        al_distinct(s),
    ensures
        al_get(al_put(s, k, v), k) == Some(v),
{
    let t = al_put(s, k, v);
    if al_has(s, k) {
        let i = al_idx(s, k);
        assert(t[i].0 == k);
        lemma_al_put_distinct(s, k, v);
        lemma_al_idx_unique(t, k, i);
    } else {
        assert(t[s.len() as int].0 == k);
        lemma_al_put_distinct(s, k, v);
        lemma_al_idx_unique(t, k, s.len() as int);
    }
}

/// After storing `v` under `k`, every other key maps as before.
pub proof fn lemma_al_get_put_other<V>(s: Seq<(Seq<char>, V)>, k: Seq<char>, v: V, k2: Seq<char>)
    requires
        al_distinct(s),
        k2 != k,
    ensures
        al_get(al_put(s, k, v), k2) == al_get(s, k2),
{
    let t = al_put(s, k, v);
    lemma_al_put_distinct(s, k, v);
    if al_has(s, k2) {
        let i = al_idx(s, k2);
        assert(t[i].0 == k2);
        lemma_al_idx_unique(t, k2, i);
        lemma_al_idx_unique(s, k2, i);
    } else {
        if al_has(t, k2) {
            let i = al_idx(t, k2);
            assert(t[i].0 == k2);
            if al_has(s, k) {
                assert(s[i].0 == k2);
            } else {
                if i < s.len() {
                    assert(s[i].0 == k2);
                } else {
                    assert(t[i].0 == k);
                }
            }
        }
    }
}

/// After removing `k`, `k` maps to nothing.
pub proof fn lemma_al_get_del_same<V>(s: Seq<(Seq<char>, V)>, k: Seq<char>)
    requires
        al_distinct(s),
    ensures
        al_get(al_del(s, k), k) is None,
{
    if al_has(s, k) {
        let i = al_idx(s, k);
        let t = s.remove(i);
        if al_has(t, k) {
            let j = al_idx(t, k);
            let j0: int = if j < i {
                j
            } else {
                j + 1
            };
            assert(t[j] == s[j0]);
            assert(s[j0].0 == k);
            lemma_al_idx_unique(s, k, j0);
        }
    }
}

/// After removing `k`, every other key maps as before.
pub proof fn lemma_al_get_del_other<V>(s: Seq<(Seq<char>, V)>, k: Seq<char>, k2: Seq<char>)
    requires
        al_distinct(s),
        k2 != k,
    ensures
        al_get(al_del(s, k), k2) == al_get(s, k2),
{
    if al_has(s, k) {
        let i = al_idx(s, k);
        let t = s.remove(i);
        lemma_al_del_distinct(s, k);
        if al_has(s, k2) {
            let j = al_idx(s, k2);
            assert(s[j].0 == k2);
            assert(j != i);
            let jt: int = if j < i {
                j
            } else {
                j - 1
            };
            assert(t[jt] == s[j]);
            lemma_al_idx_unique(t, k2, jt);
            lemma_al_idx_unique(s, k2, j);
        } else {
            if al_has(t, k2) {
                let j = al_idx(t, k2);
                let j0: int = if j < i {
                    j
                } else {
                    j + 1
                };
                assert(t[j] == s[j0]);
            }
        }
    }
}

/// Storing a run of pairs keeps the keys pairwise distinct.
pub proof fn lemma_al_put_all_distinct<V>(base: Seq<(Seq<char>, V)>, items: Seq<(Seq<char>, V)>)
    requires
        al_distinct(base),
    ensures
        al_distinct(al_put_all(base, items)),
    decreases items.len(),
{
    if items.len() > 0 {
        lemma_al_put_distinct(base, items[0].0, items[0].1);
        lemma_al_put_all_distinct(al_put(base, items[0].0, items[0].1), items.drop_first());
    }
}

/// Storing a run of pairs and then one more is storing the extended run.
pub proof fn lemma_al_put_all_push<V>(
    base: Seq<(Seq<char>, V)>,
    items: Seq<(Seq<char>, V)>,
    k: Seq<char>,
    v: V,
)
    ensures
        al_put_all(base, items.push((k, v))) == al_put(al_put_all(base, items), k, v),
    decreases items.len(),
{
    let ps = items.push((k, v));
    if items.len() == 0 {
        assert(ps.drop_first() =~= Seq::<(Seq<char>, V)>::empty());
        assert(ps[0] == (k, v));
        assert(ps[0].0 == k && ps[0].1 == v);
        assert(al_put_all(base, ps) == al_put_all(al_put(base, ps[0].0, ps[0].1), ps.drop_first()));
        assert(al_put_all(al_put(base, k, v), ps.drop_first()) == al_put(base, k, v));
        assert(al_put_all(base, items) == base);
    } else {
        assert(ps.drop_first() =~= items.drop_first().push((k, v)));
        assert(ps[0] == items[0]);
        assert(ps[0].0 == items[0].0 && ps[0].1 == items[0].1);
        assert(al_put_all(base, ps) == al_put_all(al_put(base, ps[0].0, ps[0].1), ps.drop_first()));
        assert(al_put_all(base, items) == al_put_all(
            al_put(base, items[0].0, items[0].1),
            items.drop_first(),
        ));
        lemma_al_put_all_push(al_put(base, items[0].0, items[0].1), items.drop_first(), k, v);
    }
}

/// Storing a run of pairs with fresh, pairwise-distinct keys appends them in
/// order.
pub proof fn lemma_al_put_all_fresh<V>(base: Seq<(Seq<char>, V)>, items: Seq<(Seq<char>, V)>)
    requires
        al_distinct(base + items),
    ensures
        al_put_all(base, items) == base + items,
    decreases items.len(),
{
    if items.len() == 0 {
        assert(al_put_all(base, items) =~= base + items);
    } else {
        let k = items[0].0;
        let v = items[0].1;
        assert(!al_has(base, k)) by {
            if al_has(base, k) {
                let i = al_idx(base, k);
                assert((base + items)[i].0 == k);
                assert((base + items)[base.len() as int].0 == k);
            }
        }
        assert(al_put(base, k, v) =~= base.push((k, v)));
        assert(base.push((k, v)) + items.drop_first() =~= base + items);
        lemma_al_put_all_fresh(base.push((k, v)), items.drop_first());
    }
}

} // verus!
