//! Tables keyed by a small number, read in ascending key order.

use vstd::prelude::*;
use std::collections::BTreeMap;

verus! {

/// `s` lists the pairs of `m`, each once, in ascending key order.
pub open spec fn lists<V>(m: Map<u32, V>, s: Seq<(u32, V)>) -> bool {
    &&& forall|i: int, j: int| 0 <= i < j < s.len() ==> (#[trigger] s[i]).0 < (#[trigger] s[j]).0
    &&& forall|i: int|
        0 <= i < s.len() ==> m.contains_key((#[trigger] s[i]).0) && m[s[i].0] == s[i].1
    &&& forall|k: u32| #[trigger]
        m.contains_key(k) ==> exists|i: int| 0 <= i < s.len() && (#[trigger] s[i]).0 == k
}

/// The pairs of `m` in ascending key order.
pub open spec fn entries<V>(m: Map<u32, V>) -> Seq<(u32, V)> {
    choose|s: Seq<(u32, V)>| lists(m, s)
}

/// Two listings of one map agree on every position they share.
proof fn lemma_lists_agree<V>(m: Map<u32, V>, a: Seq<(u32, V)>, b: Seq<(u32, V)>, i: int)
    requires
        lists(m, a),
        lists(m, b),
        0 <= i < a.len(),
    ensures
        i < b.len(),
        a[i] == b[i],
    decreases i,
{
    assert forall|j: int| 0 <= j < i implies j < b.len() && a[j] == b[j] by {
        lemma_lists_agree(m, a, b, j);
    }
    assert(m.contains_key(a[i].0));
    let k = choose|k: int| 0 <= k < b.len() && (#[trigger] b[k]).0 == a[i].0;
    if k < i {
        assert(a[k] == b[k]);
        assert(false);
    }
    assert(m.contains_key(b[i].0));
    let l = choose|l: int| 0 <= l < a.len() && (#[trigger] a[l]).0 == b[i].0;
    if l < i {
        assert(a[l] == b[l]);
        assert(false);
    }
    if k > i {
        assert(b[i].0 < b[k].0);
        if l > i {
            assert(a[i].0 < a[l].0);
        }
    }
}

/// A map has one listing.
pub proof fn lemma_entries_unique<V>(m: Map<u32, V>, s: Seq<(u32, V)>)
    requires
        lists(m, s),
    ensures
        entries(m) == s,
{
    let e = entries(m);
    assert(lists(m, e));
    assert forall|i: int| 0 <= i < s.len() implies i < e.len() && s[i] == e[i] by {
        lemma_lists_agree(m, s, e, i);
    }
    assert forall|i: int| 0 <= i < e.len() implies i < s.len() && s[i] == e[i] by {
        lemma_lists_agree(m, e, s, i);
    }
    assert(s.len() <= e.len()) by {
        if s.len() > 0 {
            lemma_lists_agree(m, s, e, s.len() - 1);
        }
    }
    assert(e.len() <= s.len()) by {
        if e.len() > 0 {
            lemma_lists_agree(m, e, s, e.len() - 1);
        }
    }
    assert(s =~= e);
}

/// A map whose keys are below `n` has a listing.
pub proof fn lemma_entries_list<V>(m: Map<u32, V>, n: int)
    requires
        0 <= n,
        forall|k: u32| #[trigger] m.contains_key(k) ==> k < n,
    ensures
        lists(m, entries(m)),
    decreases n,
{
    if n == 0 {
        assert(lists(m, Seq::empty()));
    } else if n > u32::MAX + 1 || !m.contains_key((n - 1) as u32) {
        assert forall|k: u32| #[trigger] m.contains_key(k) implies k < n - 1 by {
            assert(k == n - 1 ==> k == (n - 1) as u32);
        }
        lemma_entries_list(m, n - 1);
    } else {
        let last = (n - 1) as u32;
        let rest = m.remove(last);
        lemma_entries_list(rest, n - 1);
        let before = entries(rest);
        let s = before.push((last, m[last]));
        assert forall|i: int| 0 <= i < s.len() implies m.contains_key((#[trigger] s[i]).0)
            && m[s[i].0] == s[i].1 by {
            if i < before.len() {
                assert(rest.contains_key(before[i].0));
            }
        }
        assert forall|i: int, j: int| 0 <= i < j < s.len() implies (#[trigger] s[i]).0 < (
        #[trigger] s[j]).0 by {
            assert(rest.contains_key(before[i].0));
        }
        assert forall|k: u32| #[trigger] m.contains_key(k) implies exists|i: int|
            0 <= i < s.len() && (#[trigger] s[i]).0 == k by {
            if k == last {
                assert(s[before.len() as int].0 == k);
            } else {
                assert(rest.contains_key(k));
                let i = choose|i: int| 0 <= i < before.len() && (#[trigger] before[i]).0 == k;
                assert(s[i].0 == k);
            }
        }
        assert(lists(m, s));
    }
}

/// The pairs of `m` by reference, in ascending key order.
pub fn pairs<V>(m: &BTreeMap<u32, V>) -> (r: Vec<(u32, &V)>)
    ensures
        r@.len() == entries(m@).len(),
        forall|i: int|
            0 <= i < r@.len() ==> (#[trigger] r@[i]).0 == entries(m@)[i].0 && *r@[i].1 == entries(
                m@,
            )[i].1,
{
    let mut v: Vec<(u32, &V)> = Vec::new();
    for kv in it: m.iter()
        invariant
            it.seq() == vstd::std_specs::iter::IteratorSpec::remaining(
                &vstd::std_specs::btree::spec_btree_map_iter(m),
            ),
            v@.len() == it.index(),
            forall|i: int|
                0 <= i < v@.len() ==> (#[trigger] v@[i]).0 == *it.seq()[i].0 && v@[i].1
                    == it.seq()[i].1,
            vstd::std_specs::btree::increasing_seq(it.seq().map_values(|kv: (&u32, &V)| *kv.0)),
    {
        v.push((*kv.0, kv.1));
    }
    proof {
        let s = vstd::std_specs::iter::IteratorSpec::remaining(
                &vstd::std_specs::btree::spec_btree_map_iter(m),
            );
        let keys = s.map_values(|kv: (&u32, &V)| *kv.0);
        let e = Seq::new(v@.len(), |i: int| (v@[i].0, *v@[i].1));
        assert(vstd::std_specs::btree::key_obeys_cmp_spec::<u32>());
        assert(vstd::std_specs::btree::increasing_seq(keys));
        assert forall|i: int, j: int| 0 <= i < j < e.len() implies (#[trigger] e[i]).0
            < (#[trigger] e[j]).0 by {
            assert(vstd::laws_cmp::obeys_cmp::<u32>());
            assert(vstd::std_specs::cmp::OrdSpec::cmp_spec(&keys[i], &keys[j]) is Less);
            assert(keys[i] < keys[j]);
        }
        assert forall|i: int| 0 <= i < e.len() implies m@.contains_key((#[trigger] e[i]).0)
            && m@[e[i].0] == e[i].1 by {
            assert(m@.contains_key(*s[i].0));
        }
        assert forall|k: u32| #[trigger] m@.contains_key(k) implies exists|i: int|
            0 <= i < e.len() && (#[trigger] e[i]).0 == k by {
            assert(s.contains((&k, &m@[k])));
            let i = choose|i: int| 0 <= i < s.len() && s[i] == (&k, &m@[k]);
            assert(e[i].0 == k);
        }
        lemma_entries_unique(m@, e);
    }
    v
}

} // verus!
