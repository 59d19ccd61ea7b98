use vstd::prelude::*;
use vstd::relations::{sorted_by, total_ordering};
use vstd::seq_lib::lemma_multiset_commutative;

verus! {

/// Inserting `x` at any position adds it once to the multiset of a sequence.
pub proof fn lemma_insert_multiset<T>(s: Seq<T>, j: int, x: T)
    requires
        0 <= j <= s.len(),
    ensures
        s.insert(j, x).to_multiset() == s.to_multiset().insert(x),
{
    broadcast use vstd::seq_lib::group_to_multiset_ensures;

    let a = s.subrange(0, j);
    let b = s.subrange(j, s.len() as int);
    assert(s =~= a + b);
    assert(s.insert(j, x) =~= a.push(x) + b);
    lemma_multiset_commutative(a, b);
    lemma_multiset_commutative(a.push(x), b);
}

/// Under a total order, two sorted sequences with the same elements, counted
/// with multiplicity, are the same sequence.
pub proof fn lemma_sorted_by_unique<T>(s: Seq<T>, t: Seq<T>, leq: spec_fn(T, T) -> bool)
    requires
        total_ordering(leq),
        sorted_by(s, leq),
        sorted_by(t, leq),
        s.to_multiset() == t.to_multiset(),
    ensures
        s == t,
    decreases s.len(),
{
    broadcast use vstd::seq_lib::group_to_multiset_ensures;

    assert(s.len() == s.to_multiset().len());
    assert(t.len() == t.to_multiset().len());
    if s.len() == 0 {
        assert(s =~= t);
    } else {
        assert(s.to_multiset().count(s[0]) > 0);
        assert(t.contains(s[0]));
        let j = choose|j: int| 0 <= j < t.len() && t[j] == s[0];
        assert(t.to_multiset().count(t[0]) > 0);
        assert(s.contains(t[0]));
        let i = choose|i: int| 0 <= i < s.len() && s[i] == t[0];
        if j > 0 {
            assert(leq(t[0], t[j]));
        }
        if i > 0 {
            assert(leq(s[0], s[i]));
        }
        assert(leq(s[0], t[0]) && leq(t[0], s[0]));
        let s1 = s.remove(0);
        let t1 = t.remove(0);
        assert(s1.to_multiset() == s.to_multiset().remove(s[0]));
        assert(t1.to_multiset() == t.to_multiset().remove(t[0]));
        assert forall|a: int, b: int| 0 <= a < b < s1.len() implies #[trigger] leq(s1[a], s1[b]) by {
            assert(leq(s[a + 1], s[b + 1]));
        }
        assert forall|a: int, b: int| 0 <= a < b < t1.len() implies #[trigger] leq(t1[a], t1[b]) by {
            assert(leq(t[a + 1], t[b + 1]));
        }
        lemma_sorted_by_unique(s1, t1, leq);
        assert(s =~= seq![s[0]] + s1);
        assert(t =~= seq![t[0]] + t1);
    }
}

/// The elements of `v`, sorted by the order `leq` that `le` computes.
///
/// Each element is inserted after the elements that go before or with it, so
/// equal elements keep their order.
pub fn sort_by_le<T: Copy, F: Fn(&T, &T) -> bool>(
    v: &Vec<T>,
    le: F,
    Ghost(leq): Ghost<spec_fn(T, T) -> bool>,
) -> (r: Vec<T>)
    requires
        total_ordering(leq),
        forall|a: &T, b: &T| #[trigger] call_requires(le, (a, b)),
        forall|a: &T, b: &T, o: bool| call_ensures(le, (a, b), o) ==> o == leq(*a, *b),
    ensures
        sorted_by(r@, leq),
        r@.to_multiset() == v@.to_multiset(),
{
    broadcast use vstd::seq_lib::group_to_multiset_ensures;

    let mut out: Vec<T> = Vec::new();
    let mut k: usize = 0;
    while k < v.len()
        invariant
            k <= v.len(),
            total_ordering(leq),
            forall|a: &T, b: &T| #[trigger] call_requires(le, (a, b)),
            forall|a: &T, b: &T, o: bool| call_ensures(le, (a, b), o) ==> o == leq(*a, *b),
            sorted_by(out@, leq),
            out@.to_multiset() == v@.subrange(0, k as int).to_multiset(),
        decreases v.len() - k,
    {
        let x = v[k];
        let mut j: usize = 0;
        while j < out.len() && le(&out[j], &x)
            invariant
                j <= out.len(),
                forall|a: &T, b: &T| #[trigger] call_requires(le, (a, b)),
                forall|a: &T, b: &T, o: bool| call_ensures(le, (a, b), o) ==> o == leq(*a, *b),
                forall|i: int| 0 <= i < j ==> #[trigger] leq(out@[i], x),
            decreases out.len() - j,
        {
            j += 1;
        }
        let ghost old_out = out@;
        out.insert(j, x);
        proof {
            assert forall|a: int, b: int| 0 <= a < b < out@.len() implies #[trigger] leq(
                out@[a],
                out@[b],
            ) by {
                if j < old_out.len() {
                    assert(!leq(old_out[j as int], x));
                    assert(leq(x, old_out[j as int]));
                }
                if b < j {
                    assert(leq(old_out[a], old_out[b]));
                } else if b == j {
                } else if a < j {
                    assert(leq(old_out[a], x));
                    if b - 1 > j {
                        assert(leq(old_out[j as int], old_out[b - 1]));
                    }
                } else if a == j {
                    if b - 1 > j {
                        assert(leq(old_out[j as int], old_out[b - 1]));
                    }
                } else {
                    assert(leq(old_out[a - 1], old_out[b - 1]));
                }
            }
            lemma_insert_multiset(old_out, j as int, x);
            assert(v@.subrange(0, k + 1) =~= v@.subrange(0, k as int).push(x));
            vstd::seq_lib::to_multiset_build(v@.subrange(0, k as int), x);
        }
        k += 1;
    }
    assert(v@.subrange(0, v.len() as int) =~= v@);
    out
}

} // verus!
