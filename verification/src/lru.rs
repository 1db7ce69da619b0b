use vstd::prelude::*;

verus! {

/// An LRU cache of the `lru_cache` crate: a hash map whose entries are kept
/// from least to most recently used, with a fixed capacity.
#[verifier::external_type_specification]
#[verifier::external_body]
#[verifier::reject_recursive_types(K)]
#[verifier::reject_recursive_types(V)]
#[verifier::reject_recursive_types(S)]
pub struct ExLruCache<K: Eq + core::hash::Hash, V, S: core::hash::BuildHasher>(
    lru_cache::LruCache<K, V, S>,
);

/// The value of key `k` among the entries (the last entry of that key).
pub open spec fn lru_get<X>(s: Seq<(u64, X)>, k: u64) -> Option<X>
    decreases s.len(),
{
    if s.len() == 0 {
        None
    } else if s.last().0 == k {
        Some(s.last().1)
    } else {
        lru_get(s.drop_last(), k)
    }
}

/// The entries without those of key `k`, in the same order.
pub open spec fn lru_remove<X>(s: Seq<(u64, X)>, k: u64) -> Seq<(u64, X)>
    decreases s.len(),
{
    if s.len() == 0 {
        s
    } else if s.last().0 == k {
        lru_remove(s.drop_last(), k)
    } else {
        lru_remove(s.drop_last(), k).push(s.last())
    }
}

/// The entries after key `k` is used: its entry moves to the most recent
/// end; nothing changes when the key is absent.
pub open spec fn lru_touch<X>(s: Seq<(u64, X)>, k: u64) -> Seq<(u64, X)> {
    match lru_get(s, k) {
        Some(v) => lru_remove(s, k).push((k, v)),
        None => s,
    }
}

/// The entries after inserting `v` under `k` with capacity `cap`: the entry
/// of `k` goes to the most recent end with the new value, and the least
/// recently used entry leaves when more than `cap` entries remain.
pub open spec fn lru_insert<X>(s: Seq<(u64, X)>, k: u64, v: X, cap: nat) -> Seq<(u64, X)> {
    let t = lru_remove(s, k).push((k, v));
    if t.len() > cap {
        t.drop_first()
    } else {
        t
    }
}

/// Removing key `k` leaves the other keys' values as they were and `k`
/// without one.
pub proof fn lemma_lru_remove_get<X>(s: Seq<(u64, X)>, k: u64, j: u64)
    ensures
        lru_get(lru_remove(s, k), j) == if j == k {
            None
        } else {
            lru_get(s, j)
        },
    decreases s.len(),
{
    if s.len() > 0 {
        lemma_lru_remove_get(s.drop_last(), k, j);
        if s.last().0 != k {
            let r = lru_remove(s.drop_last(), k).push(s.last());
            assert(r.drop_last() =~= lru_remove(s.drop_last(), k));
        }
    }
}

/// After an insertion with a capacity of at least one, the key reads back
/// the inserted value.
pub proof fn lemma_lru_insert_get<X>(s: Seq<(u64, X)>, k: u64, v: X, cap: nat)
    requires
        cap >= 1,
    ensures
        lru_get(lru_insert(s, k, v, cap), k) == Some(v),
{
    let t = lru_remove(s, k).push((k, v));
    if t.len() > cap {
        let d = t.drop_first();
        assert(d.last() == (k, v));
    }
}

/// Using a key changes no key's value.
pub proof fn lemma_lru_touch_get<X>(s: Seq<(u64, X)>, k: u64, j: u64)
    ensures
        lru_get(lru_touch(s, k), j) == lru_get(s, j),
{
    lemma_lru_remove_get(s, k, j);
    match lru_get(s, k) {
        Some(v) => {
            let t = lru_remove(s, k).push((k, v));
            assert(t.drop_last() =~= lru_remove(s, k));
        },
        None => {},
    }
}

/// A found value is the value of an entry of the key.
pub proof fn lemma_lru_get_mem<X>(s: Seq<(u64, X)>, k: u64)
    ensures
        lru_get(s, k) matches Some(v) ==> exists|i: int| 0 <= i < s.len() && s[i] == (k, v),
    decreases s.len(),
{
    if s.len() > 0 && s.last().0 != k {
        lemma_lru_get_mem(s.drop_last(), k);
        if let Some(v) = lru_get(s, k) {
            let i = choose|i: int| 0 <= i < s.drop_last().len() && s.drop_last()[i] == (k, v);
            assert(s[i] == (k, v));
        }
    } else if s.len() > 0 {
        assert(s[s.len() - 1] == s.last());
    }
}

/// Every value among the entries meets `p`.
pub open spec fn lru_all<X>(s: Seq<(u64, X)>, p: spec_fn(X) -> bool) -> bool {
    forall|i: int| 0 <= i < s.len() ==> p(#[trigger] s[i].1)
}

/// Removing a key keeps a property of all values.
pub proof fn lemma_lru_all_remove<X>(s: Seq<(u64, X)>, k: u64, p: spec_fn(X) -> bool)
    requires
        lru_all(s, p),
    ensures
        lru_all(lru_remove(s, k), p),
    decreases s.len(),
{
    if s.len() > 0 {
        assert(lru_all(s.drop_last(), p)) by {
            assert forall|i: int| 0 <= i < s.drop_last().len() implies p(
                #[trigger] s.drop_last()[i].1,
            ) by {
                assert(s.drop_last()[i] == s[i]);
            }
        }
        lemma_lru_all_remove(s.drop_last(), k, p);
        assert(p(s[s.len() - 1].1));
    }
}

/// Using a key keeps a property of all values.
pub proof fn lemma_lru_all_touch<X>(s: Seq<(u64, X)>, k: u64, p: spec_fn(X) -> bool)
    requires
        lru_all(s, p),
    ensures
        lru_all(lru_touch(s, k), p),
{
    lemma_lru_all_remove(s, k, p);
    lemma_lru_get_mem(s, k);
    if let Some(v) = lru_get(s, k) {
        let i = choose|i: int| 0 <= i < s.len() && s[i] == (k, v);
        assert(p(s[i].1));
    }
}

/// Inserting a value that meets a property keeps it of all values.
pub proof fn lemma_lru_all_insert<X>(s: Seq<(u64, X)>, k: u64, v: X, cap: nat, p: spec_fn(X) -> bool)
    requires
        lru_all(s, p),
        p(v),
    ensures
        lru_all(lru_insert(s, k, v, cap), p),
{
    lemma_lru_all_remove(s, k, p);
    let t = lru_remove(s, k).push((k, v));
    assert(lru_all(t, p));
    if t.len() > cap {
        assert forall|i: int| 0 <= i < t.drop_first().len() implies p(
            #[trigger] t.drop_first()[i].1,
        ) by {
            assert(t.drop_first()[i] == t[i + 1]);
        }
    }
}

/// Removing a key that has no entry changes nothing.
pub proof fn lemma_lru_remove_absent<X>(s: Seq<(u64, X)>, k: u64)
    requires
        lru_get(s, k) is None,
    ensures
        lru_remove(s, k) == s,
    decreases s.len(),
{
    if s.len() > 0 {
        lemma_lru_remove_absent(s.drop_last(), k);
        assert(s.drop_last().push(s.last()) =~= s);
    }
}

/// Removing a key leaves no more entries, and fewer when the key has one.
pub proof fn lemma_lru_remove_len<X>(s: Seq<(u64, X)>, k: u64)
    ensures
        lru_remove(s, k).len() <= s.len(),
        lru_get(s, k) is Some ==> lru_remove(s, k).len() < s.len(),
    decreases s.len(),
{
    if s.len() > 0 {
        lemma_lru_remove_len(s.drop_last(), k);
    }
}

/// Using a key leaves no more entries.
pub proof fn lemma_lru_touch_len<X>(s: Seq<(u64, X)>, k: u64)
    ensures
        lru_touch(s, k).len() <= s.len(),
{
    lemma_lru_remove_len(s, k);
}

/// Using a key that has no entry changes nothing.
pub proof fn lemma_lru_touch_absent<X>(s: Seq<(u64, X)>, k: u64)
    requires
        lru_get(s, k) is None,
    ensures
        lru_touch(s, k) == s,
{
}

/// An insertion leaves at most `cap` entries when there were at most `cap`.
pub proof fn lemma_lru_insert_len<X>(s: Seq<(u64, X)>, k: u64, v: X, cap: nat)
    requires
        s.len() <= cap,
    ensures
        lru_insert(s, k, v, cap).len() <= cap,
{
    lemma_lru_remove_len(s, k);
}

/// Taking the entry of a present key out and putting a value back under it
/// evicts nothing: the key reads the value, every other key reads what it
/// read, and the entries stay within the capacity.
pub proof fn lemma_lru_reinsert<X>(s: Seq<(u64, X)>, k: u64, v: X, cap: nat, j: u64)
    requires
        lru_get(s, k) is Some,
        s.len() <= cap,
    ensures
        ({
            let t = lru_insert(lru_remove(lru_touch(s, k), k), k, v, cap);
            &&& lru_get(t, j) == if j == k {
                Some(v)
            } else {
                lru_get(s, j)
            }
            &&& t.len() <= cap
        }),
{
    let touched = lru_touch(s, k);
    let base = lru_remove(touched, k);
    lemma_lru_touch_get(s, k, k);
    lemma_lru_touch_get(s, k, j);
    lemma_lru_remove_len(s, k);
    lemma_lru_remove_len(touched, k);
    lemma_lru_remove_get(touched, k, j);
    lemma_lru_remove_get(touched, k, k);
    lemma_lru_remove_absent(base, k);
    let t = base.push((k, v));
    assert(t.len() <= cap);
    assert(lru_insert(base, k, v, cap) == t);
    if j == k {
        assert(t.last() == (k, v));
    } else {
        assert(t.drop_last() =~= base);
    }
}

} // verus!
