//! Ascending order of addresses: the order in which the ordered collections
//! of validators are walked.

use std::collections::{BTreeMap, BTreeSet};
use vstd::prelude::*;
use vstd::std_specs::iter::IteratorSpec;

verus! {

/// Each element is smaller than all that follow it.
pub open spec fn is_ascending(s: Seq<u64>) -> bool {
    forall|i: int, j: int| 0 <= i < j < s.len() ==> s[i] < s[j]
}

/// The elements of a finite set in ascending order.
pub open spec fn ascending(set: Set<u64>) -> Seq<u64> {
    choose|s: Seq<u64>| is_ascending(s) && s.to_set() == set
}

/// Two ascending sequences that hold the same elements are equal.
pub proof fn lemma_ascending_unique(s: Seq<u64>, t: Seq<u64>)
    requires
        is_ascending(s),
        is_ascending(t),
        s.to_set() == t.to_set(),
    ensures
        s == t,
    decreases s.len(),
{
    if s.len() == 0 {
        if t.len() > 0 {
            assert(t.contains(t[0]));
            assert(t.to_set().contains(t[0]));
            assert(s.contains(t[0]));
        }
        assert(s =~= t);
    } else {
        assert(s.contains(s.last()));
        assert(s.to_set().contains(s.last()));
        assert(t.contains(s.last()));
        assert(t.contains(t.last()));
        assert(t.to_set().contains(t.last()));
        assert(s.contains(t.last()));
        assert(s.last() == t.last());
        let s0 = s.drop_last();
        let t0 = t.drop_last();
        assert forall|x: u64| s0.to_set().contains(x) <==> t0.to_set().contains(x) by {
            if s0.contains(x) {
                let i = choose|i: int| 0 <= i < s0.len() && s0[i] == x;
                assert(s[i] == x);
                assert(s.contains(x));
                assert(s.to_set().contains(x));
                assert(t.contains(x));
                let j = choose|j: int| 0 <= j < t.len() && t[j] == x;
                assert(t0[j] == x);
            }
            if t0.contains(x) {
                let i = choose|i: int| 0 <= i < t0.len() && t0[i] == x;
                assert(t[i] == x);
                assert(t.contains(x));
                assert(t.to_set().contains(x));
                assert(s.contains(x));
                let j = choose|j: int| 0 <= j < s.len() && s[j] == x;
                assert(s0[j] == x);
            }
        }
        assert(s0.to_set() =~= t0.to_set());
        lemma_ascending_unique(s0, t0);
        assert(s =~= s0.push(s.last()));
        assert(t =~= t0.push(t.last()));
    }
}

/// An ascending sequence that holds the elements of a set is the set in
/// ascending order.
pub proof fn lemma_ascending_is(set: Set<u64>, s: Seq<u64>)
    requires
        is_ascending(s),
        s.to_set() == set,
    ensures
        ascending(set) == s,
{
    lemma_ascending_unique(ascending(set), s);
}

/// A set of addresses is walked in ascending order.
pub proof fn lemma_set_walk(set: &BTreeSet<u64>)
    ensures
        set.iter().remaining().unref() == ascending(set@),
        is_ascending(ascending(set@)),
        ascending(set@).to_set() == set@,
{
    let refs = set.iter().remaining();
    let s = refs.unref();
    assert(vstd::std_specs::btree::increasing_seq(refs));
    assert(vstd::laws_cmp::obeys_cmp::<&u64>());
    assert forall|i: int, j: int| 0 <= i < j < s.len() implies s[i] < s[j] by {
        assert(vstd::std_specs::cmp::OrdSpec::cmp_spec(&refs[i], &refs[j]) is Less);
    }
    lemma_ascending_is(set@, s);
}

/// The keys of a map keyed by address are walked in ascending order.
pub proof fn lemma_key_walk<V>(map: &BTreeMap<u64, V>)
    ensures
        map.keys().remaining().unref() == ascending(map@.dom()),
        is_ascending(ascending(map@.dom())),
        ascending(map@.dom()).to_set() == map@.dom(),
{
    let refs = map.keys().remaining();
    let s = refs.unref();
    assert(vstd::std_specs::btree::increasing_seq(refs));
    assert(vstd::laws_cmp::obeys_cmp::<&u64>());
    assert forall|i: int, j: int| 0 <= i < j < s.len() implies s[i] < s[j] by {
        assert(vstd::std_specs::cmp::OrdSpec::cmp_spec(&refs[i], &refs[j]) is Less);
    }
    lemma_ascending_is(map@.dom(), s);
}

} // verus!
