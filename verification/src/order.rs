//! Ordering of view rows.
//!
//! Every ordered view sorts by the same two-part key: primary key
//! ascending, secondary key descending. A view that needs one direction
//! only puts its column in the matching part and a constant in the other.

use vstd::prelude::*;

verus! {

broadcast use {
    vstd::seq_lib::group_to_multiset_ensures,
    vstd::multiset::group_multiset_axioms,
};

/// A view row paired with its sort key.
pub struct Keyed<T> {
    pub k1: i64,
    pub k2: i64,
    pub item: T,
}

/// Total preorder on keys: `k1` ascending, then `k2` descending.
pub open spec fn key_le<T>(a: Keyed<T>, b: Keyed<T>) -> bool {
    a.k1 < b.k1 || (a.k1 == b.k1 && a.k2 >= b.k2)
}

pub open spec fn sorted_keyed<T>(s: Seq<Keyed<T>>) -> bool {
    forall|i: int, j: int| 0 <= i < j < s.len() ==> key_le(#[trigger] s[i], #[trigger] s[j])
}

fn key_le_exec<T>(a: &Keyed<T>, b: &Keyed<T>) -> (r: bool)
    ensures
        r == key_le(*a, *b),
{
    a.k1 < b.k1 || (a.k1 == b.k1 && a.k2 >= b.k2)
}

/// Insertion sort under `key_le`: the result is sorted and holds exactly
/// the rows that came in.
pub fn sort_keyed<T>(v: &mut Vec<Keyed<T>>)
    ensures
        sorted_keyed(final(v)@),
        final(v)@.to_multiset() == old(v)@.to_multiset(),
{
    if v.len() <= 1 {
        return ;
    }
    let mut i: usize = 1;
    while i < v.len()
        invariant
            v@.len() == old(v)@.len(),
            1 <= i <= v@.len(),
            sorted_keyed(v@.take(i as int)),
            v@.to_multiset() == old(v)@.to_multiset(),
        decreases v@.len() - i,
    {
        let mut j: usize = 0;
        while j < i && key_le_exec(&v[j], &v[i])
            invariant
                j <= i < v@.len(),
                forall|m: int| 0 <= m < j ==> key_le(#[trigger] v@[m], v@[i as int]),
            decreases i - j,
        {
            j = j + 1;
        }
        if j < i {
            let ghost vpre = v@;
            let x = v.remove(i);
            v.insert(j, x);
            proof {
                assert(x == vpre[i as int]);
                assert(v@ == vpre.remove(i as int).insert(j as int, x));
                // the move keeps the contents
                assert(vpre.contains(vpre[i as int]));
                assert(vpre.to_multiset().count(x) > 0);
                assert(v@.to_multiset() =~= vpre.to_multiset());
                // where each row now stands
                assert(forall|m: int| 0 <= m < j ==> v@[m] == vpre[m]);
                assert(v@[j as int] == x);
                assert(forall|m: int| j < m <= i ==> v@[m] == vpre[m - 1]);
                assert(forall|m: int| i < m < v@.len() ==> v@[m] == vpre[m]);
                // the row moved in front of everything it is not below
                assert(!key_le(vpre[j as int], x));
                assert(key_le(x, vpre[j as int]));
                assert forall|m: int| j <= m < i implies key_le(x, #[trigger] vpre[m]) by {
                    if m > j {
                        assert(key_le(vpre.take(i as int)[j as int], vpre.take(i as int)[m]));
                    }
                }
                assert forall|m1: int, m2: int|
                    0 <= m1 < m2 <= i implies key_le(#[trigger] v@[m1], #[trigger] v@[m2]) by {
                    if m1 < j && m2 < j {
                        assert(key_le(vpre.take(i as int)[m1], vpre.take(i as int)[m2]));
                    } else if m1 < j && m2 == j {
                        assert(key_le(vpre[m1], x));
                    } else if m1 < j && m2 > j {
                        assert(key_le(vpre.take(i as int)[m1], vpre.take(i as int)[m2 - 1]));
                    } else if m1 == j {
                        assert(key_le(x, vpre[m2 - 1]));
                    } else {
                        assert(key_le(vpre.take(i as int)[m1 - 1], vpre.take(i as int)[m2 - 1]));
                    }
                }
                assert(sorted_keyed(v@.take(i + 1 as int)));
            }
        } else {
            proof {
                assert forall|m1: int, m2: int|
                    0 <= m1 < m2 <= i implies key_le(#[trigger] v@[m1], #[trigger] v@[m2]) by {
                    if m2 < i {
                        assert(key_le(v@.take(i as int)[m1], v@.take(i as int)[m2]));
                    }
                }
                assert(sorted_keyed(v@.take(i + 1 as int)));
            }
        }
        i = i + 1;
    }
    proof {
        assert(v@.take(v@.len() as int) =~= v@);
    }
}

/// A property of every row survives a reordering of the rows.
pub proof fn lemma_same_contents_pointwise<A>(a: Seq<A>, b: Seq<A>, p: spec_fn(A) -> bool)
    requires
        a.to_multiset() == b.to_multiset(),
        forall|i: int| 0 <= i < a.len() ==> p(#[trigger] a[i]),
    ensures
        forall|i: int| 0 <= i < b.len() ==> p(#[trigger] b[i]),
{
    assert forall|i: int| 0 <= i < b.len() implies p(#[trigger] b[i]) by {
        assert(b.contains(b[i]));
        assert(b.to_multiset().count(b[i]) > 0);
        assert(a.contains(b[i]));
        let n = choose|n: int| 0 <= n < a.len() && a[n] == b[i];
        assert(p(a[n]));
    }
}

/// Two sequences with the same contents keep the same contents under a map.
pub proof fn lemma_map_values_multiset<A, B>(a: Seq<A>, b: Seq<A>, f: spec_fn(A) -> B)
    requires
        a.to_multiset() == b.to_multiset(),
    ensures
        a.map_values(f).to_multiset() == b.map_values(f).to_multiset(),
    decreases a.len(),
{
    if a.len() == 0 {
        assert(a.to_multiset().len() == 0);
        assert(b.len() == b.to_multiset().len());
        assert(b.len() == 0);
        assert(a.map_values(f) =~= Seq::<B>::empty());
        assert(b.map_values(f) =~= Seq::<B>::empty());
    } else {
        let x = a.last();
        assert(a =~= a.drop_last().push(x));
        assert(a.drop_last().push(x).to_multiset() =~= a.drop_last().to_multiset().insert(x));
        assert(a.contains(x));
        assert(b.to_multiset().count(x) > 0);
        assert(b.contains(x));
        let k = choose|k: int| 0 <= k < b.len() && b[k] == x;
        assert(b.remove(k).to_multiset() =~= b.to_multiset().remove(x));
        assert(a.drop_last().to_multiset() =~= b.remove(k).to_multiset());
        lemma_map_values_multiset(a.drop_last(), b.remove(k), f);
        assert(a.map_values(f) =~= a.drop_last().map_values(f).push(f(x)));
        assert(a.map_values(f).to_multiset() =~= a.drop_last().map_values(f).to_multiset().insert(
            f(x),
        ));
        assert(b.map_values(f).remove(k) =~= b.remove(k).map_values(f));
        assert(b.map_values(f).remove(k).to_multiset() =~= b.map_values(f).to_multiset().remove(
            b.map_values(f)[k],
        ));
        assert(b.map_values(f)[k] == f(x));
        assert(0 <= k < b.map_values(f).len() && b.map_values(f)[k] == f(x));
        assert(b.map_values(f).contains(f(x)));
        assert(b.map_values(f).to_multiset().count(f(x)) > 0);
        assert(a.map_values(f).to_multiset() =~= b.map_values(f).to_multiset());
    }
}

/// Drop the keys, keeping the rows in their sorted positions.
pub fn strip_keys<T>(v: Vec<Keyed<T>>) -> (r: Vec<T>)
    ensures
        r@ == v@.map_values(|k: Keyed<T>| k.item),
{
    let ghost orig = v@;
    let mut rest = v;
    let mut out: Vec<T> = Vec::new();
    while rest.len() > 0
        invariant
            orig.map_values(|k: Keyed<T>| k.item) == out@ + rest@.map_values(
                |k: Keyed<T>| k.item,
            ),
        decreases rest@.len(),
    {
        let ghost pre = rest@;
        let x = rest.remove(0);
        out.push(x.item);
        proof {
            assert(pre.map_values(|k: Keyed<T>| k.item) =~= seq![x.item] + rest@.map_values(
                |k: Keyed<T>| k.item,
            ));
            assert(out@ + rest@.map_values(|k: Keyed<T>| k.item) =~= orig.map_values(
                |k: Keyed<T>| k.item,
            ));
        }
    }
    proof {
        assert(out@ =~= orig.map_values(|k: Keyed<T>| k.item));
    }
    out
}

} // verus!
