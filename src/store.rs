use vstd::prelude::*;

use crate::value::{RedisProto, Value};

verus! {

/// The key-value store: each key at most once, the last write winning.
pub struct Store {
    entries: Vec<(String, RedisProto)>,
}

impl View for Store {
    type V = Map<Seq<char>, Value>;

    /// The store as a map from key to value.
    closed spec fn view(&self) -> Map<Seq<char>, Value> {
        Map::new(
            |k: Seq<char>| exists|i: int| self.has_at(k, i),
            |k: Seq<char>| self.entries@[choose|i: int| self.has_at(k, i)].1@,
        )
    }
}

impl Store {
    /// Each key stands in at most one entry.
    pub closed spec fn wf(&self) -> bool {
        forall|i: int, j: int|
            0 <= i < self.entries@.len() && 0 <= j < self.entries@.len() && i != j
                ==> #[trigger] self.entries@[i].0@ != #[trigger] self.entries@[j].0@
    }

    pub closed spec fn has_at(&self, k: Seq<char>, i: int) -> bool {
        0 <= i < self.entries@.len() && self.entries@[i].0@ == k
    }


    /// An empty store.
    pub fn new() -> (r: Store)
        ensures
            r.wf(),
            r@ == Map::<Seq<char>, Value>::empty(),
    {
        let r = Store { entries: Vec::new() };
        assert(r@ =~= Map::<Seq<char>, Value>::empty());
        r
    }

    fn find(&self, key: &String) -> (r: Option<usize>)
        ensures
            r matches Some(i) ==> self.has_at(key@, i as int),
            r is None ==> forall|i: int| !self.has_at(key@, i),
    {
        let mut i: usize = 0;
        while i < self.entries.len()
            invariant
                i <= self.entries@.len(),
                forall|j: int| 0 <= j < i ==> !self.has_at(key@, j),
            decreases self.entries@.len() - i,
        {
            if self.entries[i].0 == *key {
                return Some(i);
            }
            i = i + 1;
        }
        None
    }

    /// The value stored under `key`, if any.
    pub fn get(&self, key: &String) -> (r: Option<RedisProto>)
        requires
            self.wf(),
        ensures
            match r {
                Some(v) => self@.contains_key(key@) && v@ == self@[key@],
                None => !self@.contains_key(key@),
            },
    {
        match self.find(key) {
            Some(i) => {
                proof {
                    let c = choose|j: int| self.has_at(key@, j);
                    assert(c == i as int);
                }
                Some(self.entries[i].1.duplicate())
            },
            None => None,
        }
    }

    /// Stores `value` under `key`, replacing what was there.
    pub fn set(&mut self, key: String, value: RedisProto)
        requires
            old(self).wf(),
        ensures
            final(self).wf(),
            final(self)@ == old(self)@.insert(key@, value@),
    {
        let ghost old_self = *self;
        let ghost k = key@;
        let ghost v = value@;
        match self.find(&key) {
            Some(i) => {
                self.entries.set(i, (key, value));
                proof {
                    assert forall|a: int, b: int|
                        0 <= a < self.entries@.len() && 0 <= b < self.entries@.len() && a != b
                            implies #[trigger] self.entries@[a].0@ != #[trigger] self.entries@[b].0@ by {
                        assert(old_self.entries@[a].0@ != old_self.entries@[b].0@);
                    }
                    assert forall|q: Seq<char>, j: int| #[trigger] self.has_at(q, j) <==> old_self.has_at(q, j) by {}
                    assert forall|q: Seq<char>| #[trigger] self@.contains_key(q) implies
                        self@[q] == old_self@.insert(k, v)[q] by {
                        let c = choose|j: int| self.has_at(q, j);
                        let c0 = choose|j: int| old_self.has_at(q, j);
                        if q == k {
                            assert(c == i);
                        } else {
                            assert(c == c0);
                        }
                    }
                    assert forall|q: Seq<char>| #[trigger] old_self@.insert(k, v).contains_key(q)
                        implies self@.contains_key(q) by {
                        if q == k {
                            assert(self.has_at(q, i as int));
                        } else {
                            let c0 = choose|j: int| old_self.has_at(q, j);
                            assert(self.has_at(q, c0));
                        }
                    }
                    assert forall|q: Seq<char>| #[trigger] self@.contains_key(q)
                        implies old_self@.insert(k, v).contains_key(q) by {
                        if q != k {
                            let c = choose|j: int| self.has_at(q, j);
                            assert(old_self.has_at(q, c));
                        }
                    }
                    assert(self@ =~= old_self@.insert(k, v));
                }
            },
            None => {
                self.entries.push((key, value));
                proof {
                    let n = old_self.entries@.len() as int;
                    assert forall|a: int, b: int|
                        0 <= a < self.entries@.len() && 0 <= b < self.entries@.len() && a != b
                            implies #[trigger] self.entries@[a].0@ != #[trigger] self.entries@[b].0@ by {
                        if a < n && b < n {
                            assert(old_self.entries@[a].0@ != old_self.entries@[b].0@);
                        } else if a < n {
                            assert(!old_self.has_at(k, a));
                        } else {
                            assert(!old_self.has_at(k, b));
                        }
                    }
                    assert forall|q: Seq<char>| #[trigger] self@.contains_key(q) implies
                        self@[q] == old_self@.insert(k, v)[q] by {
                        let c = choose|j: int| self.has_at(q, j);
                        if q == k {
                            assert(self.has_at(q, n));
                            assert(c == n);
                        } else {
                            assert(old_self.has_at(q, c));
                            let c0 = choose|j: int| old_self.has_at(q, j);
                            assert(self.has_at(q, c0));
                            assert(c == c0);
                        }
                    }
                    assert forall|q: Seq<char>| #[trigger] old_self@.insert(k, v).contains_key(q) implies
                        self@.contains_key(q) by {
                        if q == k {
                            assert(self.has_at(q, n));
                        } else {
                            let c0 = choose|j: int| old_self.has_at(q, j);
                            assert(self.has_at(q, c0));
                        }
                    }
                    assert forall|q: Seq<char>| #[trigger] self@.contains_key(q)
                        implies old_self@.insert(k, v).contains_key(q) by {
                        if q != k {
                            let c = choose|j: int| self.has_at(q, j);
                            assert(c != n);
                            assert(old_self.has_at(q, c));
                        }
                    }
                    assert(self@ =~= old_self@.insert(k, v));
                }
            },
        }
    }
}

} // verus!
