//! Helpers over sequences used by the record stores and the custody book:
//! lookup by key in a sequence with pairwise-distinct keys, and summation of
//! a per-element value.

use vstd::prelude::*;

verus! {

/// Every two distinct elements of `s` carry distinct keys under `kf`.
pub open spec fn keys_unique<T, K>(s: Seq<T>, kf: spec_fn(T) -> K) -> bool {
    forall|i: int, j: int| 0 <= i < j < s.len() ==> kf(s[i]) != kf(s[j])
}

/// The first element of `s` whose key under `kf` is `k`, if any.
pub open spec fn first_keyed<T, K>(s: Seq<T>, kf: spec_fn(T) -> K, k: K) -> Option<T>
    decreases s.len(),
{
    if s.len() == 0 {
        None
    } else if kf(s[0]) == k {
        Some(s[0])
    } else {
        first_keyed(s.drop_first(), kf, k)
    }
}

/// The sum of `f` over the elements of `s`.
pub open spec fn sum_by<T>(s: Seq<T>, f: spec_fn(T) -> int) -> int
    decreases s.len(),
{
    if s.len() == 0 {
        0
    } else {
        f(s[0]) + sum_by(s.drop_first(), f)
    }
}

/// A key is found exactly when some element carries it, and what is found
/// carries it.
pub proof fn lemma_first_keyed_some<T, K>(s: Seq<T>, kf: spec_fn(T) -> K, k: K)
    ensures
        (first_keyed(s, kf, k) is Some) <==> exists|i: int| 0 <= i < s.len() && kf(s[i]) == k,
        first_keyed(s, kf, k) matches Some(v) ==> kf(v) == k,
    decreases s.len(),
{
    if s.len() == 0 {
    } else if kf(s[0]) == k {
    } else {
        lemma_first_keyed_some(s.drop_first(), kf, k);
        if first_keyed(s, kf, k) is Some {
            let i = choose|i: int| 0 <= i < s.drop_first().len() && kf(s.drop_first()[i]) == k;
            assert(kf(s[i + 1]) == k);
        }
        if exists|i: int| 0 <= i < s.len() && kf(s[i]) == k {
            let i = choose|i: int| 0 <= i < s.len() && kf(s[i]) == k;
            assert(kf(s.drop_first()[i - 1]) == k);
        }
    }
}

/// Uniqueness of keys restricts to any suffix.
proof fn lemma_keys_unique_drop_first<T, K>(s: Seq<T>, kf: spec_fn(T) -> K)
    requires
        s.len() > 0,
        keys_unique(s, kf),
    ensures
        keys_unique(s.drop_first(), kf),
{
    assert forall|i: int, j: int|
        0 <= i < j < s.drop_first().len() implies kf(s.drop_first()[i]) != kf(
        s.drop_first()[j],
    ) by {
        assert(s.drop_first()[i] == s[i + 1]);
        assert(s.drop_first()[j] == s[j + 1]);
    }
}

/// Under unique keys, looking up the key of the element at `i` finds exactly
/// that element.
pub proof fn lemma_first_keyed_at<T, K>(s: Seq<T>, kf: spec_fn(T) -> K, i: int)
    requires
        keys_unique(s, kf),
        0 <= i < s.len(),
    ensures
        first_keyed(s, kf, kf(s[i])) == Some(s[i]),
    decreases s.len(),
{
    if i == 0 {
    } else {
        assert(kf(s[0]) != kf(s[i]));
        lemma_keys_unique_drop_first(s, kf);
        lemma_first_keyed_at(s.drop_first(), kf, i - 1);
        assert(s.drop_first()[i - 1] == s[i]);
    }
}

/// Replacing the element at `i` by one with the same key keeps the keys
/// unique, makes that key find the new element, and leaves every other
/// lookup unchanged.
pub proof fn lemma_first_keyed_update<T, K>(s: Seq<T>, kf: spec_fn(T) -> K, i: int, v: T)
    requires
        keys_unique(s, kf),
        0 <= i < s.len(),
        kf(v) == kf(s[i]),
    ensures
        keys_unique(s.update(i, v), kf),
        first_keyed(s.update(i, v), kf, kf(v)) == Some(v),
        forall|k: K| k != kf(v) ==> first_keyed(s.update(i, v), kf, k) == first_keyed(s, kf, k),
    decreases s.len(),
{
    let t = s.update(i, v);
    assert forall|p: int, q: int| 0 <= p < q < t.len() implies kf(t[p]) != kf(t[q]) by {
        assert(kf(t[p]) == kf(s[p]) && kf(t[q]) == kf(s[q]));
    }
    if i == 0 {
        assert(t[0] == v);
        assert(t.drop_first() =~= s.drop_first());
        assert(first_keyed(t, kf, kf(v)) == Some(v));
        assert forall|k: K| k != kf(v) implies first_keyed(t, kf, k) == first_keyed(
            s,
            kf,
            k,
        ) by {
            assert(first_keyed(t, kf, k) == first_keyed(t.drop_first(), kf, k));
            assert(first_keyed(s, kf, k) == first_keyed(s.drop_first(), kf, k));
        }
    } else {
        lemma_keys_unique_drop_first(s, kf);
        lemma_first_keyed_update(s.drop_first(), kf, i - 1, v);
        assert(t.drop_first() =~= s.drop_first().update(i - 1, v));
        assert(t[0] == s[0]);
        assert(kf(s[0]) != kf(s[i]));
        assert(first_keyed(t, kf, kf(v)) == first_keyed(s.drop_first().update(i - 1, v), kf, kf(v)));
        assert forall|k: K| k != kf(v) implies first_keyed(t, kf, k) == first_keyed(
            s,
            kf,
            k,
        ) by {
            if kf(s[0]) == k {
                assert(first_keyed(t, kf, k) == Some(t[0]));
                assert(first_keyed(s, kf, k) == Some(s[0]));
            } else {
                assert(first_keyed(t, kf, k) == first_keyed(s.drop_first().update(i - 1, v), kf, k));
                assert(first_keyed(s, kf, k) == first_keyed(s.drop_first(), kf, k));
            }
        }
    }
}

/// Appending an element with a fresh key keeps the keys unique, makes that
/// key find the new element, and leaves every other lookup unchanged.
pub proof fn lemma_first_keyed_push<T, K>(s: Seq<T>, kf: spec_fn(T) -> K, v: T)
    requires
        keys_unique(s, kf),
        first_keyed(s, kf, kf(v)) is None,
    ensures
        keys_unique(s.push(v), kf),
        first_keyed(s.push(v), kf, kf(v)) == Some(v),
        forall|k: K| k != kf(v) ==> first_keyed(s.push(v), kf, k) == first_keyed(s, kf, k),
    decreases s.len(),
{
    let t = s.push(v);
    lemma_first_keyed_some(s, kf, kf(v));
    assert forall|p: int, q: int| 0 <= p < q < t.len() implies kf(t[p]) != kf(t[q]) by {
        if q == s.len() {
            assert(t[p] == s[p] && t[q] == v);
        } else {
            assert(t[p] == s[p] && t[q] == s[q]);
        }
    }
    if s.len() == 0 {
        assert(t[0] == v);
        assert(first_keyed(t, kf, kf(v)) == Some(v));
        assert forall|k: K| k != kf(v) implies first_keyed(t, kf, k) == first_keyed(
            s,
            kf,
            k,
        ) by {
            assert(t.drop_first() =~= Seq::<T>::empty());
            assert(first_keyed(t, kf, k) == first_keyed(t.drop_first(), kf, k));
        }
    } else {
        assert(t[0] == s[0]);
        assert(kf(s[0]) != kf(v));
        lemma_keys_unique_drop_first(s, kf);
        assert(t.drop_first() =~= s.drop_first().push(v));
        lemma_first_keyed_push(s.drop_first(), kf, v);
        assert(first_keyed(t, kf, kf(v)) == first_keyed(s.drop_first().push(v), kf, kf(v)));
        assert forall|k: K| k != kf(v) implies first_keyed(t, kf, k) == first_keyed(
            s,
            kf,
            k,
        ) by {
            if kf(s[0]) == k {
                assert(first_keyed(t, kf, k) == Some(t[0]));
                assert(first_keyed(s, kf, k) == Some(s[0]));
            } else {
                assert(first_keyed(t, kf, k) == first_keyed(s.drop_first().push(v), kf, k));
                assert(first_keyed(s, kf, k) == first_keyed(s.drop_first(), kf, k));
            }
        }
    }
}

/// The sum of a nonnegative value is nonnegative.
pub proof fn lemma_sum_by_nonneg<T>(s: Seq<T>, f: spec_fn(T) -> int)
    requires
        forall|j: int| 0 <= j < s.len() ==> f(s[j]) >= 0,
    ensures
        sum_by(s, f) >= 0,
    decreases s.len(),
{
    if s.len() > 0 {
        assert(forall|j: int| 0 <= j < s.drop_first().len() ==> f(s.drop_first()[j]) >= 0);
        lemma_sum_by_nonneg(s.drop_first(), f);
    }
}

/// Appending an element adds its value to the sum.
pub proof fn lemma_sum_by_push<T>(s: Seq<T>, f: spec_fn(T) -> int, v: T)
    ensures
        sum_by(s.push(v), f) == sum_by(s, f) + f(v),
    decreases s.len(),
{
    let t = s.push(v);
    if s.len() == 0 {
        assert(t[0] == v);
        assert(t.drop_first() =~= Seq::<T>::empty());
        assert(sum_by(t, f) == f(v) + sum_by(t.drop_first(), f));
    } else {
        assert(t[0] == s[0]);
        assert(t.drop_first() =~= s.drop_first().push(v));
        lemma_sum_by_push(s.drop_first(), f, v);
        assert(sum_by(t, f) == f(s[0]) + sum_by(s.drop_first().push(v), f));
    }
}

/// Replacing the element at `i` changes the sum by the difference of values.
pub proof fn lemma_sum_by_update<T>(s: Seq<T>, f: spec_fn(T) -> int, i: int, v: T)
    requires
        0 <= i < s.len(),
    ensures
        sum_by(s.update(i, v), f) == sum_by(s, f) - f(s[i]) + f(v),
    decreases s.len(),
{
    let t = s.update(i, v);
    if i == 0 {
        assert(t.drop_first() =~= s.drop_first());
        assert(t[0] == v);
    } else {
        assert(t.drop_first() =~= s.drop_first().update(i - 1, v));
        assert(t[0] == s[0]);
        assert(s.drop_first()[i - 1] == s[i]);
        lemma_sum_by_update(s.drop_first(), f, i - 1, v);
    }
}

/// Each element's nonnegative value is at most the whole sum.
pub proof fn lemma_sum_by_elem<T>(s: Seq<T>, f: spec_fn(T) -> int, i: int)
    requires
        0 <= i < s.len(),
        forall|j: int| 0 <= j < s.len() ==> f(s[j]) >= 0,
    ensures
        f(s[i]) <= sum_by(s, f),
    decreases s.len(),
{
    if i == 0 {
        assert(forall|j: int| 0 <= j < s.drop_first().len() ==> f(s.drop_first()[j]) >= 0);
        lemma_sum_by_nonneg(s.drop_first(), f);
    } else {
        assert(forall|j: int| 0 <= j < s.drop_first().len() ==> f(s.drop_first()[j]) >= 0);
        lemma_sum_by_elem(s.drop_first(), f, i - 1);
        assert(s.drop_first()[i - 1] == s[i]);
    }
}

/// A prefix of a nonnegative sum is at most the whole sum.
pub proof fn lemma_sum_by_take_le<T>(s: Seq<T>, f: spec_fn(T) -> int, k: int)
    requires
        0 <= k <= s.len(),
        forall|j: int| 0 <= j < s.len() ==> f(s[j]) >= 0,
    ensures
        sum_by(s.take(k), f) <= sum_by(s, f),
    decreases s.len() - k,
{
    if k == s.len() {
        assert(s.take(k) =~= s);
    } else {
        lemma_sum_by_take_step(s, f, k);
        lemma_sum_by_take_le(s, f, k + 1);
    }
}

/// Extending a prefix by one element adds that element's value to its sum.
pub proof fn lemma_sum_by_take_step<T>(s: Seq<T>, f: spec_fn(T) -> int, i: int)
    requires
        0 <= i < s.len(),
    ensures
        sum_by(s.take(i + 1), f) == sum_by(s.take(i), f) + f(s[i]),
{
    assert(s.take(i + 1) =~= s.take(i).push(s[i]));
    lemma_sum_by_push(s.take(i), f, s[i]);
}

} // verus!
