//! Maps keyed by namespace, with unique keys kept in insertion order.
use vstd::prelude::*;

verus! {

/// The map that a sequence of entries stands for; a later entry overrides
/// an earlier one with the same key.
pub open spec fn entries_map<T>(e: Seq<(String, T)>) -> Map<Seq<char>, T>
    decreases e.len(),
{
    if e.len() == 0 {
        Map::empty()
    } else {
        entries_map(e.drop_last()).insert(e.last().0@, e.last().1)
    }
}

/// No two entries share a key.
pub open spec fn keys_unique<T>(e: Seq<(String, T)>) -> bool {
    forall|i: int, j: int| 0 <= i < j < e.len() ==> (#[trigger] e[i]).0@ != (#[trigger] e[j]).0@
}

/// The keys of the map are those of the entries.
pub proof fn lemma_entries_dom<T>(e: Seq<(String, T)>, k: Seq<char>)
    ensures
        entries_map(e).contains_key(k) <==> exists|j: int| 0 <= j < e.len() && (#[trigger] e[j]).0@ == k,
    decreases e.len(),
{
    if e.len() > 0 {
        lemma_entries_dom(e.drop_last(), k);
        if entries_map(e.drop_last()).contains_key(k) {
            let j = choose|j: int| 0 <= j < e.drop_last().len() && (#[trigger] e.drop_last()[j]).0@ == k;
            assert(e[j] == e.drop_last()[j]);
        }
        if exists|j: int| 0 <= j < e.len() && (#[trigger] e[j]).0@ == k {
            let j = choose|j: int| 0 <= j < e.len() && (#[trigger] e[j]).0@ == k;
            if j < e.len() - 1 {
                assert(e.drop_last()[j] == e[j]);
            }
        }
    }
}

/// With unique keys, the value of a key is that of its one entry.
pub proof fn lemma_entries_value<T>(e: Seq<(String, T)>, i: int)
    requires
        keys_unique(e),
        0 <= i < e.len(),
    ensures
        entries_map(e).contains_key(e[i].0@),
        entries_map(e)[e[i].0@] == e[i].1,
    decreases e.len(),
{
    if i < e.len() - 1 {
        let d = e.drop_last();
        assert(d[i] == e[i]);
        assert(keys_unique(d));
        lemma_entries_value(d, i);
        assert(e.last() == e[e.len() - 1]);
    }
}

/// Replacing the value of an entry, key kept, replaces it in the map.
pub proof fn lemma_entries_update<T>(e: Seq<(String, T)>, i: int, x: (String, T))
    requires
        keys_unique(e),
        0 <= i < e.len(),
        x.0@ == e[i].0@,
    ensures
        entries_map(e.update(i, x)) == entries_map(e).insert(x.0@, x.1),
        keys_unique(e.update(i, x)),
    decreases e.len(),
{
    let u = e.update(i, x);
    let d = e.drop_last();
    if i == e.len() - 1 {
        assert(u.drop_last() =~= d);
        assert(entries_map(u) =~= entries_map(e).insert(x.0@, x.1));
    } else {
        assert(u.drop_last() =~= d.update(i, x));
        assert(keys_unique(d));
        lemma_entries_update(d, i, x);
        assert(e.last() == e[e.len() - 1]);
        assert(e[i].0@ != e[e.len() - 1].0@);
        assert(entries_map(u) =~= entries_map(e).insert(x.0@, x.1));
    }
    assert forall|a: int, b: int| 0 <= a < b < u.len() implies (#[trigger] u[a]).0@ != (
    #[trigger] u[b]).0@ by {
        assert(e[a].0@ != e[b].0@);
    }
}

/// A map from namespace names to values, its keys unique and kept in the
/// order in which they came.
#[derive(Debug)]
pub struct NamespaceMap<T> {
    pub entries: Vec<(String, T)>,
}

impl<T> View for NamespaceMap<T> {
    type V = Map<Seq<char>, T>;

    open spec fn view(&self) -> Map<Seq<char>, T> {
        entries_map(self.entries@)
    }
}

impl<T> NamespaceMap<T> {
    /// The map's invariant: no two entries share a key.
    pub open spec fn wf(&self) -> bool {
        keys_unique(self.entries@)
    }

    /// An empty map.
    pub fn new() -> (r: Self)
        ensures
            r.wf(),
            r@ == Map::<Seq<char>, T>::empty(),
    {
        NamespaceMap { entries: Vec::new() }
    }

    /// The number of namespaces.
    pub fn len(&self) -> (r: usize)
        requires
            self.wf(),
        ensures
            r == self@.dom().len(),
    {
        proof {
            self.lemma_len();
        }
        self.entries.len()
    }

    proof fn lemma_len(&self)
        requires
            self.wf(),
        ensures
            self@.dom().len() == self.entries@.len(),
            self@.dom().finite(),
        decreases self.entries@.len(),
    {
        lemma_len_of(self.entries@);
    }

    /// The position of the entry of key `ns`, if there is one.
    pub fn position(&self, ns: &str) -> (r: Option<usize>)
        ensures
            match r {
                Some(i) => i < self.entries@.len() && self.entries@[i as int].0@ == ns@,
                None => forall|j: int|
                    0 <= j < self.entries@.len() ==> (#[trigger] self.entries@[j]).0@ != ns@,
            },
    {
        let key = String::from_str(ns);
        let mut i: usize = 0;
        while i < self.entries.len()
            invariant
                key@ == ns@,
                i <= self.entries@.len(),
                forall|j: int| 0 <= j < i ==> (#[trigger] self.entries@[j]).0@ != ns@,
            decreases self.entries@.len() - i,
        {
            if self.entries[i].0 == key {
                return Some(i);
            }
            i = i + 1;
        }
        None
    }

    /// The value of namespace `ns`, if it has one.
    pub fn get(&self, ns: &str) -> (r: Option<&T>)
        requires
            self.wf(),
        ensures
            r is Some <==> self@.contains_key(ns@),
            r is Some ==> *r->0 == self@[ns@],
    {
        proof {
            lemma_entries_dom(self.entries@, ns@);
        }
        match self.position(ns) {
            Some(i) => {
                proof {
                    lemma_entries_value(self.entries@, i as int);
                }
                Some(&self.entries[i].1)
            },
            None => None,
        }
    }

    /// Sets the value of namespace `ns` to `v`.
    pub fn insert(&mut self, ns: String, v: T)
        requires
            old(self).wf(),
        ensures
            final(self).wf(),
            final(self)@ == old(self)@.insert(ns@, v),
    {
        match self.position(ns.as_str()) {
            Some(i) => {
                let ghost x = (ns, v);
                proof {
                    lemma_entries_update(self.entries@, i as int, x);
                }
                self.entries.set(i, (ns, v));
            },
            None => {
                self.entries.push((ns, v));
                proof {
                    assert(self.entries@.drop_last() =~= old(self).entries@);
                }
            },
        }
    }
}

proof fn lemma_len_of<T>(e: Seq<(String, T)>)
    requires
        keys_unique(e),
    ensures
        entries_map(e).dom().len() == e.len(),
        entries_map(e).dom().finite(),
    decreases e.len(),
{
    if e.len() > 0 {
        let d = e.drop_last();
        assert(keys_unique(d));
        lemma_len_of(d);
        lemma_entries_dom(d, e.last().0@);
        if entries_map(d).contains_key(e.last().0@) {
            let j = choose|j: int| 0 <= j < d.len() && (#[trigger] d[j]).0@ == e.last().0@;
            assert(e[j] == d[j]);
            assert(e[e.len() - 1] == e.last());
        }
    }
}

} // verus!
