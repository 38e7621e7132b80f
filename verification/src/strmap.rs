//! A map keyed by strings, held as a list of entries with distinct keys.

use vstd::prelude::*;

use crate::auth::str_eq;

verus! {

/// The map that a list of entries describes: later entries win.
pub open spec fn entries_map<V>(s: Seq<(String, V)>) -> Map<Seq<char>, V>
    decreases s.len(),
{
    if s.len() == 0 {
        Map::empty()
    } else {
        entries_map(s.drop_last()).insert(s.last().0@, s.last().1)
    }
}

/// Whether no two entries share a key.
pub open spec fn keys_distinct<V>(s: Seq<(String, V)>) -> bool {
    forall|i: int, j: int| 0 <= i < s.len() && 0 <= j < s.len() && i != j ==> #[trigger] s[i].0@ != #[trigger] s[j].0@
}

proof fn lemma_entries_lookup<V>(s: Seq<(String, V)>, k: Seq<char>)
    requires
        keys_distinct(s),
    ensures
        entries_map(s).contains_key(k) <==> exists|i: int| 0 <= i < s.len() && #[trigger] s[i].0@ == k,
        forall|i: int| 0 <= i < s.len() && #[trigger] s[i].0@ == k ==> entries_map(s)[k] == s[i].1,
    decreases s.len(),
{
    if s.len() > 0 {
        let t = s.drop_last();
        let last = s.len() - 1;
        assert(keys_distinct(t));
        lemma_entries_lookup(t, k);
        if entries_map(s).contains_key(k) {
            if s[last].0@ != k {
                let i = choose|i: int| 0 <= i < t.len() && #[trigger] t[i].0@ == k;
                assert(s[i].0@ == k);
            } else {
                assert(s[last].0@ == k);
            }
        }
        if exists|i: int| 0 <= i < s.len() && #[trigger] s[i].0@ == k {
            let i = choose|i: int| 0 <= i < s.len() && #[trigger] s[i].0@ == k;
            if i < last {
                assert(t[i].0@ == k);
            }
        }
        assert forall|i: int| 0 <= i < s.len() && #[trigger] s[i].0@ == k implies entries_map(s)[k] == s[i].1 by {
            if i < last {
                assert(t[i].0@ == k);
                assert(s[i].0@ != s[last].0@);
            }
        }
    }
}

proof fn lemma_entries_update<V>(s: Seq<(String, V)>, i: int, e: (String, V))
    requires
        keys_distinct(s),
        0 <= i < s.len(),
        e.0@ == s[i].0@,
    ensures
        entries_map(s.update(i, e)) == entries_map(s).insert(e.0@, e.1),
        keys_distinct(s.update(i, e)),
    decreases s.len(),
{
    let u = s.update(i, e);
    assert(keys_distinct(u)) by {
        assert forall|a: int, b: int| 0 <= a < u.len() && 0 <= b < u.len() && a != b implies #[trigger] u[a].0@ != #[trigger] u[b].0@ by {
            assert(s[a].0@ != s[b].0@);
        }
    }
    if i == s.len() - 1 {
        assert(u.drop_last() =~= s.drop_last());
        assert(entries_map(u) =~= entries_map(s).insert(e.0@, e.1));
    } else {
        let t = s.drop_last();
        assert(keys_distinct(t));
        lemma_entries_update(t, i, e);
        assert(u.drop_last() =~= t.update(i, e));
        assert(s.last().0@ != e.0@);
        assert(entries_map(u) =~= entries_map(s).insert(e.0@, e.1));
    }
}

/// A map keyed by strings.
proof fn lemma_entries_remove<V>(s: Seq<(String, V)>, i: int)
    requires
        keys_distinct(s),
        0 <= i < s.len(),
    ensures
        entries_map(s.remove(i)) == entries_map(s).remove(s[i].0@),
        keys_distinct(s.remove(i)),
    decreases s.len(),
{
    let u = s.remove(i);
    assert(keys_distinct(u)) by {
        assert forall|a: int, b: int| 0 <= a < u.len() && 0 <= b < u.len() && a != b implies #[trigger] u[a].0@ != #[trigger] u[b].0@ by {
            let sa = if a < i { a } else { a + 1 };
            let sb = if b < i { b } else { b + 1 };
            assert(u[a] == s[sa] && u[b] == s[sb]);
        }
    }
    let k = s[i].0@;
    if i == s.len() - 1 {
        assert(u =~= s.drop_last());
        lemma_entries_lookup(s.drop_last(), k);
        assert(!entries_map(s.drop_last()).contains_key(k)) by {
            if entries_map(s.drop_last()).contains_key(k) {
                let j = choose|j: int| 0 <= j < s.drop_last().len() && #[trigger] s.drop_last()[j].0@ == k;
                assert(s[j].0@ == s[i].0@);
            }
        }
        assert(entries_map(u) =~= entries_map(s).remove(k));
    } else {
        let t = s.drop_last();
        assert(keys_distinct(t));
        lemma_entries_remove(t, i);
        assert(u.drop_last() =~= t.remove(i));
        assert(u.last() == s.last());
        assert(s.last().0@ != k);
        assert(entries_map(u) =~= entries_map(s).remove(k));
    }
}

#[derive(Debug)]
pub struct StrMap<V> {
    entries: Vec<(String, V)>,
}

impl<V> View for StrMap<V> {
    type V = Map<Seq<char>, V>;

    closed spec fn view(&self) -> Map<Seq<char>, V> {
        entries_map(self.entries@)
    }
}

impl<V> StrMap<V> {
    /// The invariant: no two entries share a key.
    pub closed spec fn wf(&self) -> bool {
        keys_distinct(self.entries@)
    }

    /// An empty map.
    pub fn new() -> (m: Self)
        ensures
            m.wf(),
            m@ == Map::<Seq<char>, V>::empty(),
    {
        StrMap { entries: Vec::new() }
    }

    fn find(&self, key: &str) -> (i: usize)
        requires
            self.wf(),
        ensures
            i <= self.entries.len(),
            i < self.entries.len() ==> self.entries@[i as int].0@ == key@,
            i == self.entries.len() ==> !self@.contains_key(key@),
    {
        let mut i: usize = 0;
        while i < self.entries.len()
            invariant
                i <= self.entries.len(),
                forall|j: int| 0 <= j < i ==> self.entries@[j].0@ != key@,
            decreases self.entries.len() - i,
        {
            if str_eq(self.entries[i].0.as_str(), key) {
                return i;
            }
            i = i + 1;
        }
        proof {
            lemma_entries_lookup(self.entries@, key@);
        }
        i
    }

    /// Insert a value under a key, replacing any previous value.
    pub fn insert(&mut self, key: String, value: V)
        requires
            old(self).wf(),
        ensures
            final(self).wf(),
            final(self)@ == old(self)@.insert(key@, value),
    {
        let i = self.find(key.as_str());
        if i < self.entries.len() {
            proof {
                lemma_entries_update(self.entries@, i as int, (key, value));
            }
            self.entries.set(i, (key, value));
        } else {
            proof {
                lemma_entries_lookup(self.entries@, key@);
                let s = self.entries@.push((key, value));
                assert(s.drop_last() =~= self.entries@);
                assert forall|a: int, b: int| 0 <= a < s.len() && 0 <= b < s.len() && a != b implies #[trigger] s[a].0@ != #[trigger] s[b].0@ by {
                    if a == self.entries.len() {
                        assert(self.entries@[b].0@ != key@);
                    } else if b == self.entries.len() {
                        assert(self.entries@[a].0@ != key@);
                    }
                }
            }
            self.entries.push((key, value));
        }
    }

    /// The value held under a key.
    pub fn get(&self, key: &str) -> (v: Option<&V>)
        requires
            self.wf(),
        ensures
            match v {
                Some(v) => self@.contains_key(key@) && self@[key@] == *v,
                None => !self@.contains_key(key@),
            },
    {
        let i = self.find(key);
        if i < self.entries.len() {
            proof {
                lemma_entries_lookup(self.entries@, key@);
            }
            Some(&self.entries[i].1)
        } else {
            None
        }
    }

    /// Remove every entry.
    /// The entries of the map, in the order in which they are kept.
    pub closed spec fn entry_seq(&self) -> Seq<(String, V)> {
        self.entries@
    }

    /// The entries hold each key of the map once, each with the key's value.
    pub proof fn lemma_entry_seq(&self)
        requires
            self.wf(),
        ensures
            keys_distinct(self.entry_seq()),
            forall|k: Seq<char>| self@.contains_key(k)
                <==> exists|i: int| 0 <= i < self.entry_seq().len() && #[trigger] self.entry_seq()[i].0@ == k,
            forall|i: int| 0 <= i < self.entry_seq().len() ==> self@.contains_key(#[trigger] self.entry_seq()[i].0@)
                && self@[self.entry_seq()[i].0@] == self.entry_seq()[i].1,
    {
        let es = self.entries@;
        assert forall|k: Seq<char>| self@.contains_key(k)
            <==> exists|i: int| 0 <= i < es.len() && #[trigger] es[i].0@ == k by {
            lemma_entries_lookup(es, k);
        }
        assert forall|i: int| 0 <= i < es.len() implies self@.contains_key(#[trigger] es[i].0@) && self@[es[i].0@] == es[i].1 by {
            lemma_entries_lookup(es, es[i].0@);
        }
    }

    /// The number of entries.
    pub fn entry_count(&self) -> (n: usize)
        ensures
            n == self.entry_seq().len(),
    {
        self.entries.len()
    }

    /// The entry at a position.
    pub fn entry_at(&self, i: usize) -> (e: &(String, V))
        requires
            i < self.entry_seq().len(),
        ensures
            *e == self.entry_seq()[i as int],
    {
        &self.entries[i]
    }

    /// Remove a key, handing back the value it held, if any.
    pub fn remove(&mut self, key: &str) -> (v: Option<V>)
        requires
            old(self).wf(),
        ensures
            final(self).wf(),
            final(self)@ == old(self)@.remove(key@),
            match v {
                Some(v) => old(self)@.contains_key(key@) && old(self)@[key@] == v,
                None => !old(self)@.contains_key(key@),
            },
    {
        let i = self.find(key);
        if i < self.entries.len() {
            proof {
                lemma_entries_lookup(self.entries@, key@);
                lemma_entries_remove(self.entries@, i as int);
            }
            let (_, v) = self.entries.remove(i);
            Some(v)
        } else {
            proof {
                assert(self@.remove(key@) =~= self@);
            }
            None
        }
    }

    /// Whether a key is present.
    pub fn contains_key(&self, key: &str) -> (b: bool)
        requires
            self.wf(),
        ensures
            b == self@.contains_key(key@),
    {
        let i = self.find(key);
        proof {
            lemma_entries_lookup(self.entries@, key@);
        }
        i < self.entries.len()
    }

    pub fn clear(&mut self)
        ensures
            final(self).wf(),
            final(self)@ == Map::<Seq<char>, V>::empty(),
    {
        self.entries.clear();
    }

    /// The number of entries.
    pub fn len(&self) -> (n: usize)
        requires
            self.wf(),
        ensures
            n == self@.len(),
    {
        proof {
            lemma_entries_len(self.entries@);
        }
        self.entries.len()
    }
}

proof fn lemma_entries_len<V>(s: Seq<(String, V)>)
    requires
        keys_distinct(s),
    ensures
        entries_map(s).len() == s.len(),
        entries_map(s).dom().finite(),
    decreases s.len(),
{
    if s.len() > 0 {
        let t = s.drop_last();
        assert(keys_distinct(t));
        lemma_entries_len(t);
        lemma_entries_lookup(t, s.last().0@);
        assert(!entries_map(t).contains_key(s.last().0@)) by {
            if entries_map(t).contains_key(s.last().0@) {
                let i = choose|i: int| 0 <= i < t.len() && #[trigger] t[i].0@ == s.last().0@;
                assert(s[i].0@ == s[s.len() - 1].0@);
            }
        }
    }
}

} // verus!
