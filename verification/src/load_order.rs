//! The load order of cluster nodes: node IDs paired with their load, kept sorted by load.

use vstd::prelude::*;
use vstd::seq_lib::*;
use vstd::multiset::*;

verus! {

broadcast use {vstd::seq_lib::group_to_multiset_ensures, vstd::multiset::group_multiset_axioms};

/// A node ID paired with the node's load.
pub type LoadEntry = (u64, u64);

/// Whether a load order is sorted by load, lightest first.
pub open spec fn sorted_by_load(s: Seq<LoadEntry>) -> bool {
    forall|i: int, j: int| 0 <= i <= j < s.len() ==> #[trigger] s[i].1 <= #[trigger] s[j].1
}

/// The first position at or after `i` whose load exceeds `load`, or the length.
pub open spec fn insert_pos_from(s: Seq<LoadEntry>, load: u64, i: int) -> int
    decreases s.len() - i,
{
    if i < 0 || i >= s.len() {
        s.len() as int
    } else if s[i].1 > load {
        i
    } else {
        insert_pos_from(s, load, i + 1)
    }
}

/// Insert an entry after every entry whose load does not exceed its own.
pub open spec fn insert_by_load(s: Seq<LoadEntry>, x: LoadEntry) -> Seq<LoadEntry> {
    s.insert(insert_pos_from(s, x.1, 0), x)
}

/// The stable sort of a load order by load: each entry is inserted, in order, after every
/// earlier entry whose load does not exceed its own.
pub open spec fn sort_by_load(s: Seq<LoadEntry>) -> Seq<LoadEntry>
    decreases s.len(),
{
    if s.len() == 0 {
        s
    } else {
        insert_by_load(sort_by_load(s.drop_last()), s.last())
    }
}

proof fn lemma_insert_pos_bounds(s: Seq<LoadEntry>, load: u64, i: int)
    requires
        0 <= i <= s.len(),
    ensures
        i <= insert_pos_from(s, load, i) <= s.len(),
        forall|j: int| i <= j < insert_pos_from(s, load, i) ==> s[j].1 <= load,
        insert_pos_from(s, load, i) < s.len() ==> s[insert_pos_from(s, load, i)].1 > load,
    decreases s.len() - i,
{
    if i < s.len() && s[i].1 <= load {
        lemma_insert_pos_bounds(s, load, i + 1);
    }
}

/// Inserting by load keeps a sorted load order sorted and adds exactly the inserted entry.
pub proof fn lemma_insert_by_load(s: Seq<LoadEntry>, x: LoadEntry)
    requires
        sorted_by_load(s),
    ensures
        sorted_by_load(insert_by_load(s, x)),
        insert_by_load(s, x).to_multiset() == s.to_multiset().insert(x),
        insert_by_load(s, x).len() == s.len() + 1,
{
    let p = insert_pos_from(s, x.1, 0);
    lemma_insert_pos_bounds(s, x.1, 0);
    to_multiset_insert(s, p, x);
    let r = insert_by_load(s, x);
    assert forall|i: int, j: int| 0 <= i <= j < r.len() implies #[trigger] r[i].1 <= #[trigger] r[j].1 by {
        if i < p && j < p {
        } else if i < p && j == p {
        } else if i < p && j > p {
            assert(r[j] == s[j - 1]);
        } else if i == p && j == p {
        } else if i == p {
            assert(r[j] == s[j - 1]);
            assert(s[j - 1].1 >= s[p].1);
        } else {
            assert(r[i] == s[i - 1]);
            assert(r[j] == s[j - 1]);
        }
    }
}

/// Sorting by load yields a sorted permutation of the load order.
pub proof fn lemma_sort_by_load(s: Seq<LoadEntry>)
    ensures
        sorted_by_load(sort_by_load(s)),
        sort_by_load(s).to_multiset() == s.to_multiset(),
        sort_by_load(s).len() == s.len(),
    decreases s.len(),
{
    if s.len() > 0 {
        lemma_sort_by_load(s.drop_last());
        lemma_insert_by_load(sort_by_load(s.drop_last()), s.last());
        assert(s.drop_last().push(s.last()) =~= s);
    }
}

/// A load order which is already sorted is left unchanged by sorting.
pub proof fn lemma_sort_of_sorted(s: Seq<LoadEntry>)
    requires
        sorted_by_load(s),
    ensures
        sort_by_load(s) == s,
    decreases s.len(),
{
    if s.len() > 0 {
        let t = s.drop_last();
        assert(sorted_by_load(t));
        lemma_sort_of_sorted(t);
        lemma_insert_pos_bounds(t, s.last().1, 0);
        let p = insert_pos_from(t, s.last().1, 0);
        if p < t.len() {
            assert(t[p].1 <= s.last().1);
        }
        assert(t.insert(t.len() as int, s.last()) =~= s);
    }
}

/// Insert an entry into a sorted load order after every entry whose load does not exceed its own.
pub fn insert_by_load_exec(v: &mut Vec<LoadEntry>, x: LoadEntry)
    ensures
        final(v)@ == insert_by_load(old(v)@, x),
{
    let mut p: usize = 0;
    while p < v.len() && v[p].1 <= x.1
        invariant
            p <= v.len(),
            insert_pos_from(v@, x.1, 0) == insert_pos_from(v@, x.1, p as int),
        decreases v.len() - p,
    {
        p = p + 1;
    }
    v.insert(p, x);
}

/// Stable sort of a load order by load.
pub fn sort_load_entries(v: &Vec<LoadEntry>) -> (sorted: Vec<LoadEntry>)
    ensures
        sorted@ == sort_by_load(v@),
{
    let mut sorted: Vec<LoadEntry> = Vec::new();
    let mut i: usize = 0;
    while i < v.len()
        invariant
            i <= v.len(),
            sorted@ == sort_by_load(v@.take(i as int)),
        decreases v.len() - i,
    {
        proof {
            assert(v@.take(i as int + 1).drop_last() =~= v@.take(i as int));
        }
        insert_by_load_exec(&mut sorted, v[i]);
        i = i + 1;
    }
    proof {
        assert(v@.take(v.len() as int) =~= v@);
    }
    sorted
}

} // verus!
