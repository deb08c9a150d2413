//! A table that numbers 64-bit identifiers in the order in which they are first seen.

use std::collections::HashMap;
use vstd::prelude::*;

verus! {

broadcast use vstd::std_specs::hash::group_hash_axioms;

/// The identifiers of `keys`, each kept once, in the order of their first occurrence.
pub open spec fn first_seen(keys: Seq<u64>) -> Seq<u64>
    decreases keys.len(),
{
    if keys.len() == 0 {
        Seq::empty()
    } else {
        let before = first_seen(keys.drop_last());
        if before.contains(keys.last()) {
            before
        } else {
            before.push(keys.last())
        }
    }
}

/// `first_seen` holds no identifier twice and holds exactly the identifiers of its argument.
pub proof fn lemma_first_seen(keys: Seq<u64>)
    ensures
        first_seen(keys).no_duplicates(),
        first_seen(keys).len() <= keys.len(),
        forall|k: u64| first_seen(keys).contains(k) <==> keys.contains(k),
    decreases keys.len(),
{
    if keys.len() > 0 {
        let head = keys.drop_last();
        lemma_first_seen(head);
        let before = first_seen(head);
        let last = keys.last();
        assert(keys[keys.len() - 1] == last);
        assert forall|k: u64| first_seen(keys).contains(k) <==> keys.contains(k) by {
            assert(before.contains(k) <==> head.contains(k));
            if keys.contains(k) {
                let i = choose|i: int| 0 <= i < keys.len() && keys[i] == k;
                if i < keys.len() - 1 {
                    assert(head[i] == k);
                    assert(before.contains(k));
                    if !before.contains(last) {
                        let j = before.index_of(k);
                        assert(before.push(last)[j] == k);
                    }
                } else {
                    assert(k == last);
                    if !before.contains(last) {
                        assert(before.push(last)[before.len() as int] == k);
                    }
                }
                assert(first_seen(keys).contains(k));
            }
            if first_seen(keys).contains(k) {
                if before.contains(k) {
                    assert(head.contains(k));
                    let i = choose|i: int| 0 <= i < head.len() && head[i] == k;
                    assert(keys[i] == k);
                } else {
                    let j = choose|j: int|
                        0 <= j < first_seen(keys).len() && first_seen(keys)[j] == k;
                    assert(k == last);
                }
                assert(keys.contains(k));
            }
        }
    }
}

/// Identifiers numbered `0, 1, 2, ...` in the order of their first insertion.
pub struct IdTable {
    map: HashMap<u64, usize>,
    ids: Vec<u64>,
}

impl IdTable {
    /// The identifiers held, in the order of their numbers.
    pub closed spec fn view(&self) -> Seq<u64> {
        self.ids@
    }

    /// The hash map and the list agree, and no identifier is listed twice.
    pub closed spec fn wf(&self) -> bool {
        &&& self.ids@.no_duplicates()
        &&& forall|i: int|
            0 <= i < self.ids@.len() ==> #[trigger] self.map@.contains_key(self.ids@[i])
                && self.map@[self.ids@[i]] == i
        &&& forall|k: u64| #[trigger] self.map@.contains_key(k) ==> self.ids@.contains(k)
    }

    /// What `wf` promises of the view.
    pub proof fn lemma_wf(&self)
        requires
            self.wf(),
        ensures
            self@.no_duplicates(),
    {
    }

    /// A table without identifiers.
    pub fn new() -> (t: Self)
        ensures
            t.wf(),
            t@ == Seq::<u64>::empty(),
    {
        IdTable { map: HashMap::new(), ids: Vec::new() }
    }

    /// The number of identifiers in the table.
    pub fn len(&self) -> (n: usize)
        ensures
            n == self@.len(),
    {
        self.ids.len()
    }

    /// The number of `id`, if it is in the table.
    pub fn lookup(&self, id: u64) -> (r: Option<usize>)
        requires
            self.wf(),
        ensures
            match r {
                Some(i) => i < self@.len() && self@[i as int] == id,
                None => !self@.contains(id),
            },
    {
        match self.map.get(&id) {
            Some(i) => {
                let i: usize = *i;
                proof {
                    let j = choose|j: int| 0 <= j < self.ids@.len() && self.ids@[j] == id;
                    assert(self.map@.contains_key(self.ids@[j]));
                }
                Some(i)
            },
            None => {
                proof {
                    if self.ids@.contains(id) {
                        let j = choose|j: int| 0 <= j < self.ids@.len() && self.ids@[j] == id;
                        assert(self.map@.contains_key(self.ids@[j]));
                    }
                }
                None
            },
        }
    }

    /// Returns the number of `id`, giving it the next free number if it is new. The flag
    /// tells whether it was new.
    pub fn intern(&mut self, id: u64) -> (r: (usize, bool))
        requires
            old(self).wf(),
        ensures
            final(self).wf(),
            r.1 <==> !old(self)@.contains(id),
            r.1 ==> final(self)@ == old(self)@.push(id) && r.0 == old(self)@.len(),
            !r.1 ==> final(self)@ == old(self)@ && r.0 < old(self)@.len() && old(self)@[r.0 as int]
                == id,
    {
        match self.lookup(id) {
            Some(i) => (i, false),
            None => {
                let n: usize = self.ids.len();
                self.map.insert(id, n);
                self.ids.push(id);
                proof {
                    let old_ids = old(self).ids@;
                    assert(self.ids@ == old_ids.push(id));
                    assert forall|i: int| 0 <= i < self.ids@.len() implies #[trigger]
                        self.map@.contains_key(self.ids@[i]) && self.map@[self.ids@[i]] == i by {
                        if i < n {
                            assert(old_ids[i] == self.ids@[i]);
                            assert(old(self).map@.contains_key(old_ids[i]));
                            assert(old_ids.contains(old_ids[i]));
                        }
                    }
                    assert forall|k: u64| #[trigger] self.map@.contains_key(k) implies
                        self.ids@.contains(k) by {
                        if k == id {
                            assert(self.ids@[n as int] == id);
                        } else {
                            assert(old(self).map@.contains_key(k));
                            let j = choose|j: int| 0 <= j < old_ids.len() && old_ids[j] == k;
                            assert(self.ids@[j] == k);
                        }
                    }
                }
                (n, true)
            },
        }
    }
}

} // verus!
