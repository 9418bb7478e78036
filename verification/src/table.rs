//! A small keyed table: a vector of `(key, value)` pairs with distinct
//! keys.  It stands in for a hash map where the correlation passes need
//! one, with a deterministic entry order: replacing keeps an entry's
//! position, storing a new key appends, removing shifts the rest left.

use vstd::prelude::*;

verus! {

/// The value stored under `k`: the first match scanning left to right.
pub open spec fn tbl_get<V>(s: Seq<(u64, V)>, k: u64) -> Option<V>
    decreases s.len(),
{
    if s.len() == 0 {
        None
    } else if s[0].0 == k {
        Some(s[0].1)
    } else {
        tbl_get(s.drop_first(), k)
    }
}

/// The table after storing `v` under `k`: replaced in place when the key
/// is present, appended otherwise.
pub open spec fn tbl_set<V>(s: Seq<(u64, V)>, k: u64, v: V) -> Seq<(u64, V)>
    decreases s.len(),
{
    if s.len() == 0 {
        seq![(k, v)]
    } else if s[0].0 == k {
        seq![(k, v)] + s.drop_first()
    } else {
        seq![s[0]] + tbl_set(s.drop_first(), k, v)
    }
}

/// The table with the entry under `k` removed, the order of the others
/// kept.
pub open spec fn tbl_remove<V>(s: Seq<(u64, V)>, k: u64) -> Seq<(u64, V)>
    decreases s.len(),
{
    if s.len() == 0 {
        s
    } else if s[0].0 == k {
        s.drop_first()
    } else {
        seq![s[0]] + tbl_remove(s.drop_first(), k)
    }
}

/// Some entry carries the key `k`.
pub open spec fn tbl_has<V>(s: Seq<(u64, V)>, k: u64) -> bool {
    exists|i: int| 0 <= i < s.len() && (#[trigger] s[i]).0 == k
}

/// Keys are pairwise distinct.
pub open spec fn tbl_wf<V>(s: Seq<(u64, V)>) -> bool {
    forall|i: int, j: int| 0 <= i < j < s.len() ==> (#[trigger] s[i]).0 != (#[trigger] s[j]).0
}

/// `tbl_get` finds a key exactly when some entry carries it.
pub proof fn lemma_tbl_get_has<V>(s: Seq<(u64, V)>, k: u64)
    ensures
        tbl_get(s, k) is Some <==> tbl_has(s, k),
        tbl_get(s, k) matches Some(v) ==> exists|i: int|
            0 <= i < s.len() && #[trigger] s[i] == (k, v),
    decreases s.len(),
{
    if s.len() == 0 {
    } else if s[0].0 == k {
        assert(s[0] == (k, s[0].1));
    } else {
        lemma_tbl_get_has(s.drop_first(), k);
        if tbl_has(s, k) {
            let i = choose|i: int| 0 <= i < s.len() && (#[trigger] s[i]).0 == k;
            assert(s.drop_first()[i - 1].0 == k);
        }
        if tbl_has(s.drop_first(), k) {
            let i = choose|i: int| 0 <= i < s.drop_first().len() && (#[trigger] s.drop_first()[i]).0
                == k;
            assert(s[i + 1].0 == k);
        }
        if tbl_get(s.drop_first(), k) is Some {
            let v = tbl_get(s.drop_first(), k).unwrap();
            let i = choose|i: int|
                0 <= i < s.drop_first().len() && #[trigger] s.drop_first()[i] == (k, v);
            assert(s[i + 1] == (k, v));
        }
    }
}

/// Storing under `k` makes `tbl_get` return the new value there and leaves
/// every other key unchanged; distinct keys stay distinct.
#[verifier::spinoff_prover]
pub proof fn lemma_tbl_set_get<V>(s: Seq<(u64, V)>, k: u64, v: V, k2: u64)
    ensures
        tbl_get(tbl_set(s, k, v), k) == Some(v),
        k2 != k ==> tbl_get(tbl_set(s, k, v), k2) == tbl_get(s, k2),
    decreases s.len(),
{
    reveal_with_fuel(tbl_get, 3);
    reveal_with_fuel(tbl_set, 3);
    if s.len() == 0 {
        assert(tbl_set(s, k, v)[0] == (k, v));
        assert(tbl_set(s, k, v).drop_first() =~= Seq::<(u64, V)>::empty());
    } else if s[0].0 == k {
        assert(tbl_set(s, k, v)[0] == (k, v));
        assert(tbl_set(s, k, v).drop_first() =~= s.drop_first());
    } else {
        lemma_tbl_set_get(s.drop_first(), k, v, k2);
        assert(tbl_set(s, k, v)[0] == s[0]);
        assert(tbl_set(s, k, v).drop_first() =~= tbl_set(s.drop_first(), k, v));
    }
    assert(tbl_get(tbl_set(s, k, v), k) == Some(v));
    if k2 != k {
        assert(tbl_get(tbl_set(s, k, v), k2) == tbl_get(s, k2));
    }
}

/// Storing keeps keys distinct.
pub proof fn lemma_tbl_set_wf<V>(s: Seq<(u64, V)>, k: u64, v: V)
    requires
        tbl_wf(s),
    ensures
        tbl_wf(tbl_set(s, k, v)),
        tbl_set(s, k, v).len() == if tbl_has(s, k) {
            s.len() as int
        } else {
            s.len() + 1 as int
        },
        forall|i: int|
            0 <= i < tbl_set(s, k, v).len() ==> ((#[trigger] tbl_set(s, k, v)[i]) == (k, v)
                || (0 <= i < s.len() && tbl_set(s, k, v)[i] == s[i])),
    decreases s.len(),
{
    if s.len() == 0 {
        assert(!tbl_has(s, k));
    } else if s[0].0 == k {
        assert(tbl_set(s, k, v).drop_first() =~= s.drop_first());
        assert(s[0].0 == k);
        assert(tbl_has(s, k));
        assert forall|i: int| 0 <= i < tbl_set(s, k, v).len() implies ((#[trigger] tbl_set(
            s,
            k,
            v,
        )[i]) == (k, v) || (0 <= i < s.len() && tbl_set(s, k, v)[i] == s[i])) by {
            if i > 0 {
                assert(tbl_set(s, k, v)[i] == s[i]);
            }
        }
    } else {
        lemma_tbl_set_wf(s.drop_first(), k, v);
        let t = tbl_set(s, k, v);
        assert(t.drop_first() =~= tbl_set(s.drop_first(), k, v));
        if tbl_has(s, k) {
            let i = choose|i: int| 0 <= i < s.len() && (#[trigger] s[i]).0 == k;
            assert(s.drop_first()[i - 1].0 == k);
            assert(tbl_has(s.drop_first(), k));
        }
        if tbl_has(s.drop_first(), k) {
            let i = choose|i: int| 0 <= i < s.drop_first().len() && (#[trigger] s.drop_first()[i]).0
                == k;
            assert(s[i + 1].0 == k);
            assert(tbl_has(s, k));
        }
        assert forall|i: int, j: int| 0 <= i < j < t.len() implies (#[trigger] t[i]).0 != (
        #[trigger] t[j]).0 by {
            if i == 0 {
                // t[j] is either (k, v) or an entry of s at the same index
                assert(t[j] == t.drop_first()[j - 1]);
                if t.drop_first()[j - 1] == (k, v) {
                } else {
                    assert(0 <= j - 1 < s.drop_first().len() && t.drop_first()[j - 1]
                        == s.drop_first()[j - 1]);
                    assert(t[j] == s[j]);
                }
            } else {
                assert(t[i] == t.drop_first()[i - 1] && t[j] == t.drop_first()[j - 1]);
            }
        }
    }
}

/// Removing takes `k` out and leaves every other key unchanged; distinct
/// keys stay distinct.
pub proof fn lemma_tbl_remove_get<V>(s: Seq<(u64, V)>, k: u64, k2: u64)
    requires
        tbl_wf(s),
    ensures
        tbl_get(tbl_remove(s, k), k) is None,
        k2 != k ==> tbl_get(tbl_remove(s, k), k2) == tbl_get(s, k2),
        tbl_wf(tbl_remove(s, k)),
        forall|i: int|
            0 <= i < tbl_remove(s, k).len() ==> exists|j: int|
                0 <= j < s.len() && (#[trigger] tbl_remove(s, k)[i]) == s[j],
    decreases s.len(),
{
    if s.len() == 0 {
    } else if s[0].0 == k {
        lemma_tbl_get_has(s.drop_first(), k);
        if tbl_has(s.drop_first(), k) {
            let i = choose|i: int| 0 <= i < s.drop_first().len() && (#[trigger] s.drop_first()[i]).0
                == k;
            assert(s[i + 1].0 == k && s[0].0 == k);
        }
        assert forall|i: int| 0 <= i < tbl_remove(s, k).len() implies exists|j: int|
            0 <= j < s.len() && (#[trigger] tbl_remove(s, k)[i]) == s[j] by {
            assert(tbl_remove(s, k)[i] == s[i + 1]);
        }
    } else {
        lemma_tbl_remove_get(s.drop_first(), k, k2);
        let t = tbl_remove(s, k);
        assert(t.drop_first() =~= tbl_remove(s.drop_first(), k));
        assert forall|i: int| 0 <= i < t.len() implies exists|j: int|
            0 <= j < s.len() && (#[trigger] t[i]) == s[j] by {
            if i == 0 {
                assert(t[0] == s[0]);
            } else {
                let j = choose|j: int|
                    0 <= j < s.drop_first().len() && tbl_remove(s.drop_first(), k)[i - 1]
                        == s.drop_first()[j];
                assert(t[i] == s[j + 1]);
            }
        }
        assert forall|i: int, j: int| 0 <= i < j < t.len() implies (#[trigger] t[i]).0 != (
        #[trigger] t[j]).0 by {
            if i == 0 {
                let j2 = choose|j2: int|
                    0 <= j2 < s.drop_first().len() && tbl_remove(s.drop_first(), k)[j - 1]
                        == s.drop_first()[j2];
                assert(t[j] == s[j2 + 1]);
            } else {
                assert(t[i] == t.drop_first()[i - 1] && t[j] == t.drop_first()[j - 1]);
            }
        }
    }
}

/// Every entry of a store result is the new pair or an original entry.
pub proof fn lemma_tbl_set_sub<V>(s: Seq<(u64, V)>, k: u64, v: V, i: int)
    requires
        0 <= i < tbl_set(s, k, v).len(),
    ensures
        tbl_set(s, k, v)[i] == (k, v) || exists|j: int|
            0 <= j < s.len() && (#[trigger] s[j]) == tbl_set(s, k, v)[i],
    decreases s.len(),
{
    if s.len() == 0 {
    } else if s[0].0 == k {
        if i > 0 {
            assert(s[i] == tbl_set(s, k, v)[i]);
        }
    } else {
        if i == 0 {
            assert(s[0] == tbl_set(s, k, v)[0]);
        } else {
            assert(tbl_set(s, k, v).drop_first() =~= tbl_set(s.drop_first(), k, v));
            lemma_tbl_set_sub(s.drop_first(), k, v, i - 1);
            if tbl_set(s.drop_first(), k, v)[i - 1] != (k, v) {
                let j = choose|j: int|
                    0 <= j < s.drop_first().len() && (#[trigger] s.drop_first()[j]) == tbl_set(
                        s.drop_first(),
                        k,
                        v,
                    )[i - 1];
                assert(s[j + 1] == tbl_set(s, k, v)[i]);
            }
        }
    }
}

/// Every entry of a removal result is an entry of the original table.
pub proof fn lemma_tbl_remove_sub<V>(s: Seq<(u64, V)>, k: u64, i: int)
    requires
        0 <= i < tbl_remove(s, k).len(),
    ensures
        exists|j: int| 0 <= j < s.len() && (#[trigger] s[j]) == tbl_remove(s, k)[i],
    decreases s.len(),
{
    if s.len() == 0 {
    } else if s[0].0 == k {
        assert(s[i + 1] == tbl_remove(s, k)[i]);
    } else {
        if i == 0 {
            assert(s[0] == tbl_remove(s, k)[0]);
        } else {
            assert(tbl_remove(s, k).drop_first() =~= tbl_remove(s.drop_first(), k));
            lemma_tbl_remove_sub(s.drop_first(), k, i - 1);
            let j = choose|j: int|
                0 <= j < s.drop_first().len() && (#[trigger] s.drop_first()[j]) == tbl_remove(
                    s.drop_first(),
                    k,
                )[i - 1];
            assert(s[j + 1] == tbl_remove(s, k)[i]);
        }
    }
}

/// A keyed table with values of type `V`.
pub struct KeyTable<V> {
    pub entries: Vec<(u64, V)>,
}

impl<V> KeyTable<V> {
    /// Keys are pairwise distinct.
    pub open spec fn wf(&self) -> bool {
        tbl_wf(self.entries@)
    }

    /// An empty table.
    pub fn new() -> (r: KeyTable<V>)
        ensures
            r.entries@ == Seq::<(u64, V)>::empty(),
            r.wf(),
    {
        KeyTable { entries: Vec::new() }
    }

    /// The number of entries.
    pub fn len(&self) -> (r: usize)
        ensures
            r == self.entries@.len(),
    {
        self.entries.len()
    }

    /// Looks the key up.
    #[verifier::loop_isolation(false)]
    pub fn get(&self, k: u64) -> (r: Option<&V>)
        ensures
            match r {
                Some(v) => tbl_get(self.entries@, k) == Some(*v),
                None => tbl_get(self.entries@, k) is None,
            },
    {
        let ghost s = self.entries@;
        proof {
            assert(s.skip(0) =~= s);
        }
        let mut i: usize = 0;
        while i < self.entries.len()
            invariant
                i <= s.len(),
                self.entries@ == s,
                tbl_get(s, k) == tbl_get(s.skip(i as int), k),
            decreases s.len() - i,
        {
            proof {
                assert(s.skip(i as int)[0] == s[i as int]);
                assert(s.skip(i as int).drop_first() =~= s.skip(i as int + 1));
            }
            if self.entries[i].0 == k {
                return Some(&self.entries[i].1);
            }
            i = i + 1;
        }
        proof {
            assert(s.skip(s.len() as int).len() == 0);
        }
        None
    }

    /// Stores `v` under `k`, replacing in place or appending.
    #[verifier::loop_isolation(false)]
    pub fn set(&mut self, k: u64, v: V)
        ensures
            final(self).entries@ == tbl_set(old(self).entries@, k, v),
    {
        let ghost s = self.entries@;
        let mut i: usize = 0;
        while i < self.entries.len()
            invariant
                i <= s.len(),
                self.entries@ == s,
                forall|j: int| 0 <= j < i ==> (#[trigger] s[j]).0 != k,
            decreases s.len() - i,
        {
            if self.entries[i].0 == k {
                self.entries.remove(i);
                self.entries.insert(i, (k, v));
                proof {
                    lemma_tbl_set_prefix_update(s, k, v, i as int);
                    assert(self.entries@ =~= s.update(i as int, (k, v)));
                }
                return ;
            }
            i = i + 1;
        }
        self.entries.push((k, v));
        proof {
            lemma_tbl_set_append(s, k, v);
        }
    }

    /// Stores `v` under `k` only when the key is absent.
    pub fn set_if_absent(&mut self, k: u64, v: V)
        ensures
            final(self).entries@ == if tbl_has(old(self).entries@, k) {
                old(self).entries@
            } else {
                tbl_set(old(self).entries@, k, v)
            },
    {
        proof {
            lemma_tbl_get_has(self.entries@, k);
        }
        let present: bool = match self.get(k) {
            Some(_) => true,
            None => false,
        };
        if !present {
            self.set(k, v);
        }
    }

    /// Removes the entry under `k`, returning its value.
    #[verifier::loop_isolation(false)]
    pub fn remove(&mut self, k: u64) -> (r: Option<V>)
        ensures
            final(self).entries@ == tbl_remove(old(self).entries@, k),
            match r {
                Some(v) => tbl_get(old(self).entries@, k) == Some(v),
                None => tbl_get(old(self).entries@, k) is None,
            },
    {
        let ghost s = self.entries@;
        let mut i: usize = 0;
        while i < self.entries.len()
            invariant
                i <= s.len(),
                self.entries@ == s,
                forall|j: int| 0 <= j < i ==> (#[trigger] s[j]).0 != k,
            decreases s.len() - i,
        {
            if self.entries[i].0 == k {
                let e = self.entries.remove(i);
                proof {
                    lemma_tbl_remove_prefix(s, k, i as int);
                    lemma_tbl_get_prefix(s, k, i as int);
                }
                return Some(e.1);
            }
            i = i + 1;
        }
        proof {
            lemma_tbl_remove_all_other(s, k);
            lemma_tbl_get_all_other(s, k);
            assert(self.entries@ =~= tbl_remove(s, k));
        }
        None
    }
}

/// When the first match sits at `idx`, storing is updating in place.
proof fn lemma_tbl_set_prefix_update<V>(s: Seq<(u64, V)>, k: u64, v: V, idx: int)
    requires
        0 <= idx < s.len(),
        s[idx].0 == k,
        forall|j: int| 0 <= j < idx ==> (#[trigger] s[j]).0 != k,
    ensures
        tbl_set(s, k, v) =~= s.update(idx, (k, v)),
    decreases idx,
{
    if idx == 0 {
        assert(tbl_set(s, k, v) =~= seq![(k, v)] + s.drop_first());
        assert(seq![(k, v)] + s.drop_first() =~= s.update(0, (k, v)));
    } else {
        lemma_tbl_set_prefix_update(s.drop_first(), k, v, idx - 1);
        assert(tbl_set(s, k, v) =~= seq![s[0]] + tbl_set(s.drop_first(), k, v));
        assert(seq![s[0]] + s.drop_first().update(idx - 1, (k, v)) =~= s.update(idx, (k, v)));
    }
}

/// When no entry matches, storing is appending.
proof fn lemma_tbl_set_append<V>(s: Seq<(u64, V)>, k: u64, v: V)
    requires
        forall|j: int| 0 <= j < s.len() ==> (#[trigger] s[j]).0 != k,
    ensures
        tbl_set(s, k, v) =~= s.push((k, v)),
    decreases s.len(),
{
    if s.len() == 0 {
        assert(tbl_set(s, k, v) =~= s.push((k, v)));
    } else {
        lemma_tbl_set_append(s.drop_first(), k, v);
        assert(tbl_set(s, k, v) =~= seq![s[0]] + s.drop_first().push((k, v)));
        assert(seq![s[0]] + s.drop_first().push((k, v)) =~= s.push((k, v)));
    }
}

/// When the first match sits at `idx`, removal drops exactly that entry.
proof fn lemma_tbl_remove_prefix<V>(s: Seq<(u64, V)>, k: u64, idx: int)
    requires
        0 <= idx < s.len(),
        s[idx].0 == k,
        forall|j: int| 0 <= j < idx ==> (#[trigger] s[j]).0 != k,
    ensures
        tbl_remove(s, k) =~= s.remove(idx),
    decreases idx,
{
    if idx == 0 {
        assert(tbl_remove(s, k) =~= s.drop_first());
        assert(s.drop_first() =~= s.remove(0));
    } else {
        lemma_tbl_remove_prefix(s.drop_first(), k, idx - 1);
        assert(tbl_remove(s, k) =~= seq![s[0]] + tbl_remove(s.drop_first(), k));
        assert(seq![s[0]] + s.drop_first().remove(idx - 1) =~= s.remove(idx));
    }
}

/// When the first match sits at `idx`, lookup returns that value.
proof fn lemma_tbl_get_prefix<V>(s: Seq<(u64, V)>, k: u64, idx: int)
    requires
        0 <= idx < s.len(),
        s[idx].0 == k,
        forall|j: int| 0 <= j < idx ==> (#[trigger] s[j]).0 != k,
    ensures
        tbl_get(s, k) == Some(s[idx].1),
    decreases idx,
{
    if idx == 0 {
    } else {
        lemma_tbl_get_prefix(s.drop_first(), k, idx - 1);
    }
}

/// When no entry matches, removal changes nothing.
pub proof fn lemma_tbl_remove_all_other<V>(s: Seq<(u64, V)>, k: u64)
    requires
        forall|j: int| 0 <= j < s.len() ==> (#[trigger] s[j]).0 != k,
    ensures
        tbl_remove(s, k) =~= s,
    decreases s.len(),
{
    if s.len() == 0 {
    } else {
        lemma_tbl_remove_all_other(s.drop_first(), k);
        assert(tbl_remove(s, k) =~= seq![s[0]] + s.drop_first());
        assert(seq![s[0]] + s.drop_first() =~= s);
    }
}

/// When no entry matches, lookup fails.
proof fn lemma_tbl_get_all_other<V>(s: Seq<(u64, V)>, k: u64)
    requires
        forall|j: int| 0 <= j < s.len() ==> (#[trigger] s[j]).0 != k,
    ensures
        tbl_get(s, k) is None,
    decreases s.len(),
{
    if s.len() == 0 {
    } else {
        lemma_tbl_get_all_other(s.drop_first(), k);
    }
}

} // verus!
