//! Sequences of keyed entries kept sorted by key: where a key goes, finding
//! it, inserting or replacing it, and why the order makes the sequence a
//! function of its entries alone.
use vstd::prelude::*;

verus! {

/// `lt` is a strict total order.
pub open spec fn strict_order<K>(lt: spec_fn(K, K) -> bool) -> bool {
    &&& forall|x: K| !#[trigger] lt(x, x)
    &&& forall|x: K, y: K, z: K| #[trigger] lt(x, y) && #[trigger] lt(y, z) ==> lt(x, z)
    &&& forall|x: K, y: K| x != y ==> #[trigger] lt(x, y) || lt(y, x)
}

/// Keys strictly increase: sorted, and no key twice.
pub open spec fn sorted_by<K, V>(s: Seq<(K, V)>, lt: spec_fn(K, K) -> bool) -> bool {
    forall|i: int, j: int| 0 <= i < j < s.len() ==> lt(#[trigger] s[i].0, #[trigger] s[j].0)
}

/// How many entries have a key before `k`.
pub open spec fn lower_bound<K, V>(s: Seq<(K, V)>, k: K, lt: spec_fn(K, K) -> bool) -> int
    decreases s.len(),
{
    if s.len() == 0 {
        0
    } else if lt(s.last().0, k) {
        s.len() as int
    } else {
        lower_bound(s.drop_last(), k, lt)
    }
}

/// The index of the entry with key `k`, or -1.
pub open spec fn key_pos<K, V>(s: Seq<(K, V)>, k: K, lt: spec_fn(K, K) -> bool) -> int {
    let p = lower_bound(s, k, lt);
    if p < s.len() && s[p].0 == k {
        p
    } else {
        -1
    }
}

/// Sets the entry for `k` to `v`: replaced in place, or inserted where the
/// order puts it.
pub open spec fn upsert<K, V>(s: Seq<(K, V)>, k: K, v: V, lt: spec_fn(K, K) -> bool) -> Seq<(K, V)> {
    if key_pos(s, k, lt) >= 0 {
        s.update(key_pos(s, k, lt), (k, v))
    } else {
        s.insert(lower_bound(s, k, lt), (k, v))
    }
}

pub proof fn lemma_lower_bound<K, V>(s: Seq<(K, V)>, k: K, lt: spec_fn(K, K) -> bool)
    requires
        strict_order(lt),
        sorted_by(s, lt),
    ensures
        0 <= lower_bound(s, k, lt) <= s.len(),
        forall|i: int| 0 <= i < lower_bound(s, k, lt) ==> lt(#[trigger] s[i].0, k),
        forall|i: int| lower_bound(s, k, lt) <= i < s.len() ==> !lt(#[trigger] s[i].0, k),
    decreases s.len(),
{
    if s.len() > 0 {
        if lt(s.last().0, k) {
            assert forall|i: int| 0 <= i < s.len() implies lt(#[trigger] s[i].0, k) by {
                if i < s.len() - 1 {
                    assert(lt(s[i].0, s[s.len() - 1].0));
                }
            }
        } else {
            let t = s.drop_last();
            assert(sorted_by(t, lt)) by {
                assert forall|i: int, j: int| 0 <= i < j < t.len() implies lt(#[trigger] t[i].0, #[trigger] t[j].0) by {
                    assert(t[i] == s[i] && t[j] == s[j]);
                }
            }
            lemma_lower_bound(t, k, lt);
            assert forall|i: int| 0 <= i < lower_bound(s, k, lt) implies lt(#[trigger] s[i].0, k) by {
                assert(t[i] == s[i]);
            }
            assert forall|i: int| lower_bound(s, k, lt) <= i < s.len() implies !lt(#[trigger] s[i].0, k) by {
                if i < s.len() - 1 {
                    assert(t[i] == s[i]);
                }
            }
        }
    }
}

pub proof fn lemma_key_pos<K, V>(s: Seq<(K, V)>, k: K, lt: spec_fn(K, K) -> bool)
    requires
        strict_order(lt),
        sorted_by(s, lt),
    ensures
        -1 <= key_pos(s, k, lt) < s.len(),
        key_pos(s, k, lt) >= 0 ==> s[key_pos(s, k, lt)].0 == k,
        key_pos(s, k, lt) < 0 ==> forall|i: int| 0 <= i < s.len() ==> #[trigger] s[i].0 != k,
        key_pos(s, k, lt) < 0 ==> forall|i: int| lower_bound(s, k, lt) <= i < s.len() ==> lt(k, #[trigger] s[i].0),
{
    lemma_lower_bound(s, k, lt);
    let p = lower_bound(s, k, lt);
    if key_pos(s, k, lt) < 0 {
        assert forall|i: int| p <= i < s.len() implies lt(k, #[trigger] s[i].0) by {
            if i == p {
                assert(s[p].0 != k);
                assert(!lt(s[p].0, k));
            } else {
                assert(lt(s[p].0, s[i].0));
                assert(s[p].0 != k);
                assert(!lt(s[p].0, k));
                assert(lt(k, s[p].0));
            }
        }
        assert forall|i: int| 0 <= i < s.len() implies #[trigger] s[i].0 != k by {
            if i < p {
                assert(lt(s[i].0, k));
            } else {
                assert(lt(k, s[i].0));
            }
        }
    }
}

/// Replacing the value of an entry keeps the order.
pub proof fn lemma_update_sorted<K, V>(s: Seq<(K, V)>, i: int, v: V, lt: spec_fn(K, K) -> bool)
    requires
        sorted_by(s, lt),
        0 <= i < s.len(),
    ensures
        sorted_by(s.update(i, (s[i].0, v)), lt),
{
    let t = s.update(i, (s[i].0, v));
    assert forall|a: int, b: int| 0 <= a < b < t.len() implies lt(#[trigger] t[a].0, #[trigger] t[b].0) by {
        assert(t[a].0 == s[a].0 && t[b].0 == s[b].0);
    }
}

pub proof fn lemma_upsert_sorted<K, V>(s: Seq<(K, V)>, k: K, v: V, lt: spec_fn(K, K) -> bool)
    requires
        strict_order(lt),
        sorted_by(s, lt),
    ensures
        sorted_by(upsert(s, k, v, lt), lt),
{
    lemma_key_pos(s, k, lt);
    lemma_lower_bound(s, k, lt);
    if key_pos(s, k, lt) >= 0 {
        lemma_update_sorted(s, key_pos(s, k, lt), v, lt);
    } else {
        let p = lower_bound(s, k, lt);
        let t = s.insert(p, (k, v));
        assert forall|a: int, b: int| 0 <= a < b < t.len() implies lt(#[trigger] t[a].0, #[trigger] t[b].0) by {
            if b < p {
                assert(t[a] == s[a] && t[b] == s[b]);
            } else if b == p {
                assert(t[a] == s[a]);
            } else if a < p {
                assert(t[a] == s[a] && t[b] == s[b - 1]);
                assert(lt(s[a].0, k));
                assert(lt(k, s[b - 1].0));
            } else if a == p {
                assert(t[b] == s[b - 1]);
            } else {
                assert(t[a] == s[a - 1] && t[b] == s[b - 1]);
            }
        }
    }
}

/// Two sorted sequences with the same entries are the same sequence: the
/// order of insertion leaves no trace.
pub proof fn lemma_sorted_same_entries<K, V>(a: Seq<(K, V)>, b: Seq<(K, V)>, lt: spec_fn(K, K) -> bool)
    requires
        strict_order(lt),
        sorted_by(a, lt),
        sorted_by(b, lt),
        forall|e: (K, V)| a.contains(e) <==> b.contains(e),
    ensures
        a == b,
    decreases a.len(),
{
    if a.len() == 0 {
        if b.len() > 0 {
            assert(b.contains(b[0]));
        }
        assert(a =~= b);
    } else {
        assert(a.contains(a[0]));
        let j = choose|j: int| 0 <= j < b.len() && b[j] == a[0];
        assert(b.contains(b[0]));
        let i = choose|i: int| 0 <= i < a.len() && a[i] == b[0];
        if j > 0 {
            assert(lt(b[0].0, b[j].0));
            if i > 0 {
                assert(lt(a[0].0, a[i].0));
                assert(lt(a[0].0, a[0].0));
            } else {
                assert(lt(a[0].0, a[0].0));
            }
        }
        assert(b[0] == a[0]);
        let a1 = a.drop_first();
        let b1 = b.drop_first();
        assert(sorted_by(a1, lt)) by {
            assert forall|x: int, y: int| 0 <= x < y < a1.len() implies lt(#[trigger] a1[x].0, #[trigger] a1[y].0) by {
                assert(a1[x] == a[x + 1] && a1[y] == a[y + 1]);
            }
        }
        assert(sorted_by(b1, lt)) by {
            assert forall|x: int, y: int| 0 <= x < y < b1.len() implies lt(#[trigger] b1[x].0, #[trigger] b1[y].0) by {
                assert(b1[x] == b[x + 1] && b1[y] == b[y + 1]);
            }
        }
        assert forall|e: (K, V)| a1.contains(e) <==> b1.contains(e) by {
            if a1.contains(e) {
                let x = choose|x: int| 0 <= x < a1.len() && a1[x] == e;
                assert(a[x + 1] == e);
                assert(a.contains(e));
                assert(lt(a[0].0, a[x + 1].0));
                let y = choose|y: int| 0 <= y < b.len() && b[y] == e;
                if y == 0 {
                    assert(lt(a[0].0, a[0].0));
                }
                assert(b1[y - 1] == e);
            }
            if b1.contains(e) {
                let x = choose|x: int| 0 <= x < b1.len() && b1[x] == e;
                assert(b[x + 1] == e);
                assert(b.contains(e));
                assert(lt(b[0].0, b[x + 1].0));
                let y = choose|y: int| 0 <= y < a.len() && a[y] == e;
                if y == 0 {
                    assert(lt(b[0].0, b[0].0));
                }
                assert(a1[y - 1] == e);
            }
        }
        lemma_sorted_same_entries(a1, b1, lt);
        assert(a =~= seq![a[0]] + a1);
        assert(b =~= seq![b[0]] + b1);
    }
}

} // verus!
