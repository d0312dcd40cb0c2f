use std::collections::BTreeMap;
use vstd::laws_cmp::obeys_cmp;
use vstd::prelude::*;
use vstd::std_specs::btree::{increasing_seq, spec_keys_iter};
use vstd::std_specs::cmp::OrdSpec;
use vstd::std_specs::iter::IteratorSpec;

verus! {

pub open spec fn strictly_increasing(s: Seq<u64>) -> bool {
    forall|i: int, j: int| 0 <= i < j < s.len() ==> s[i] < s[j]
}

pub open spec fn strictly_increasing_u16(s: Seq<u16>) -> bool {
    forall|i: int, j: int| 0 <= i < j < s.len() ==> s[i] < s[j]
}

/// The members of a finite set, ascending.
pub open spec fn ascending_seq(s: Set<u64>) -> Seq<u64> {
    choose|q: Seq<u64>| q.to_set() == s && strictly_increasing(q)
}

pub open spec fn ascending_seq_u16(s: Set<u16>) -> Seq<u16> {
    choose|q: Seq<u16>| q.to_set() == s && strictly_increasing_u16(q)
}

/// Two ascending sequences with the same members are equal.
pub proof fn lemma_ascending_unique(a: Seq<u64>, b: Seq<u64>)
    requires
        a.to_set() == b.to_set(),
        strictly_increasing(a),
        strictly_increasing(b),
    ensures
        a == b,
    decreases a.len(),
{
    if a.len() == 0 {
        if b.len() > 0 {
            assert(b.to_set().contains(b[0]));
        }
        assert(a =~= b);
    } else {
        assert(a.to_set().contains(a[0]));
        assert(b.to_set().contains(a[0]));
        let j = choose|j: int| 0 <= j < b.len() && b[j] == a[0];
        assert(b.to_set().contains(b[0]));
        let i = choose|i: int| 0 <= i < a.len() && a[i] == b[0];
        assert(a[0] == b[0]);
        let a1 = a.drop_first();
        let b1 = b.drop_first();
        assert forall|x: u64| a1.to_set().contains(x) <==> b1.to_set().contains(x) by {
            if a1.to_set().contains(x) {
                let k = choose|k: int| 0 <= k < a1.len() && a1[k] == x;
                assert(a.to_set().contains(x));
                let m = choose|m: int| 0 <= m < b.len() && b[m] == x;
                assert(m != 0);
                assert(b1[m - 1] == x);
            }
            if b1.to_set().contains(x) {
                let k = choose|k: int| 0 <= k < b1.len() && b1[k] == x;
                assert(b.to_set().contains(x));
                let m = choose|m: int| 0 <= m < a.len() && a[m] == x;
                assert(m != 0);
                assert(a1[m - 1] == x);
            }
        }
        assert(a1.to_set() =~= b1.to_set());
        lemma_ascending_unique(a1, b1);
        assert(a.len() == b.len());
        assert forall|k: int| 0 <= k < a.len() implies a[k] == b[k] by {
            if k > 0 {
                assert(a[k] == a1[k - 1]);
                assert(b[k] == b1[k - 1]);
            }
        }
        assert(a =~= b);
    }
}

pub proof fn lemma_ascending_unique_u16(a: Seq<u16>, b: Seq<u16>)
    requires
        a.to_set() == b.to_set(),
        strictly_increasing_u16(a),
        strictly_increasing_u16(b),
    ensures
        a == b,
    decreases a.len(),
{
    if a.len() == 0 {
        if b.len() > 0 {
            assert(b.to_set().contains(b[0]));
        }
        assert(a =~= b);
    } else {
        assert(a.to_set().contains(a[0]));
        assert(b.to_set().contains(a[0]));
        let j = choose|j: int| 0 <= j < b.len() && b[j] == a[0];
        assert(b.to_set().contains(b[0]));
        let i = choose|i: int| 0 <= i < a.len() && a[i] == b[0];
        assert(a[0] == b[0]);
        let a1 = a.drop_first();
        let b1 = b.drop_first();
        assert forall|x: u16| a1.to_set().contains(x) <==> b1.to_set().contains(x) by {
            if a1.to_set().contains(x) {
                let k = choose|k: int| 0 <= k < a1.len() && a1[k] == x;
                assert(a.to_set().contains(x));
                let m = choose|m: int| 0 <= m < b.len() && b[m] == x;
                assert(m != 0);
                assert(b1[m - 1] == x);
            }
            if b1.to_set().contains(x) {
                let k = choose|k: int| 0 <= k < b1.len() && b1[k] == x;
                assert(b.to_set().contains(x));
                let m = choose|m: int| 0 <= m < a.len() && a[m] == x;
                assert(m != 0);
                assert(a1[m - 1] == x);
            }
        }
        assert(a1.to_set() =~= b1.to_set());
        lemma_ascending_unique_u16(a1, b1);
        assert(a.len() == b.len());
        assert forall|k: int| 0 <= k < a.len() implies a[k] == b[k] by {
            if k > 0 {
                assert(a[k] == a1[k - 1]);
                assert(b[k] == b1[k - 1]);
            }
        }
        assert(a =~= b);
    }
}

/// The keys of a map, ascending.
pub fn ascending_keys<V>(m: &BTreeMap<u64, V>) -> (r: Vec<u64>)
    ensures
        r@.to_set() == m@.dom(),
        strictly_increasing(r@),
        r@.len() == m@.dom().len(),
        r@ == ascending_seq(m@.dom()),
{
    let mut ids: Vec<u64> = Vec::new();
    let keys = m.keys();
    let ghost all = keys.remaining();
    assert(keys == spec_keys_iter(m));
    for k in it: keys
        invariant
            it.seq() == all,
            ids@ == it.seq().take(it.index()).map_values(|x: &u64| *x),
    {
        ids.push(*k);
    }
    assert(ids@ =~= all.map_values(|x: &u64| *x));
    assert(all.unref() =~= all.map_values(|x: &u64| *x));
    assert(increasing_seq(all));
    assert(obeys_cmp::<&u64>());
    proof {
        vstd::std_specs::btree::axiom_increasing_seq_meaning::<&u64>(all);
    }
    assert forall|i: int, j: int| 0 <= i < j < ids@.len() implies ids@[i] < ids@[j] by {
        assert(OrdSpec::cmp_spec(&all[i], &all[j]) is Less);
    }
    proof {
        let q = ascending_seq(m@.dom());
        assert(ids@.to_set() == m@.dom() && strictly_increasing(ids@));
        lemma_ascending_unique(q, ids@);
    }
    ids
}

/// The keys of a map, ascending.
pub fn ascending_small_keys<V>(m: &BTreeMap<u16, V>) -> (r: Vec<u16>)
    ensures
        r@.to_set() == m@.dom(),
        strictly_increasing_u16(r@),
        r@.len() == m@.dom().len(),
        r@ == ascending_seq_u16(m@.dom()),
{
    let mut ids: Vec<u16> = Vec::new();
    let keys = m.keys();
    let ghost all = keys.remaining();
    assert(keys == spec_keys_iter(m));
    for k in it: keys
        invariant
            it.seq() == all,
            ids@ == it.seq().take(it.index()).map_values(|x: &u16| *x),
    {
        ids.push(*k);
    }
    assert(ids@ =~= all.map_values(|x: &u16| *x));
    assert(all.unref() =~= all.map_values(|x: &u16| *x));
    assert(increasing_seq(all));
    assert(obeys_cmp::<&u16>());
    proof {
        vstd::std_specs::btree::axiom_increasing_seq_meaning::<&u16>(all);
    }
    assert forall|i: int, j: int| 0 <= i < j < ids@.len() implies ids@[i] < ids@[j] by {
        assert(OrdSpec::cmp_spec(&all[i], &all[j]) is Less);
    }
    proof {
        let q = ascending_seq_u16(m@.dom());
        assert(ids@.to_set() == m@.dom() && strictly_increasing_u16(ids@));
        lemma_ascending_unique_u16(q, ids@);
    }
    ids
}

} // verus!
