//! A table from texts to values: each key stands in it once, in the order in
//! which the keys came.

use crate::text::str_eq;
use vstd::prelude::*;

verus! {

/// Values under text keys.
pub struct Table<T> {
    keys: Vec<String>,
    vals: Vec<T>,
}

impl<T: View> View for Table<T> {
    type V = Map<Seq<char>, T::V>;

    closed spec fn view(&self) -> Map<Seq<char>, T::V> {
        Map::new(
            |k: Seq<char>| self.order().contains(k),
            |k: Seq<char>| self.vals@[self.order().index_of(k)]@,
        )
    }
}

impl<T> Table<T> {
    /// The keys in the order in which they came.
    pub closed spec fn order(&self) -> Seq<Seq<char>> {
        crate::text::views(self.keys@)
    }
}

impl<T: View> Table<T> {
    /// Every key has its value, and no key stands twice.
    pub closed spec fn wf(&self) -> bool {
        &&& self.keys@.len() == self.vals@.len()
        &&& self.order().no_duplicates()
    }

    /// The value at a place is that of the key at that place.
    proof fn lemma_at(&self, i: int)
        requires
            self.wf(),
            0 <= i < self.keys@.len(),
        ensures
            self@.contains_key(self.keys@[i]@),
            self@[self.keys@[i]@] == self.vals@[i]@,
            self.order()[i] == self.keys@[i]@,
    {
        let k = self.order()[i];
        assert(self.order().contains(k));
        assert(self.order()[self.order().index_of(k)] == k);
        assert(self.order().index_of(k) == i);
    }

    /// The keys of the table are those that its order lists, each once.
    pub proof fn lemma_order(&self)
        requires
            self.wf(),
        ensures
            self.order().no_duplicates(),
            forall|k: Seq<char>| self.order().contains(k) <==> #[trigger] self@.contains_key(k),
            self@.dom() == self.order().to_set(),
    {
        assert(self@.dom() =~= self.order().to_set());
    }

    /// An empty table.
    pub fn new() -> (r: Table<T>)
        ensures
            r.wf(),
            r@ == Map::<Seq<char>, T::V>::empty(),
    {
        let r = Table { keys: Vec::new(), vals: Vec::new() };
        assert(r@ =~= Map::<Seq<char>, T::V>::empty());
        r
    }

    /// How many keys there are.
    pub fn len(&self) -> (r: usize)
        requires
            self.wf(),
        ensures
            r == self.order().len(),
    {
        self.keys.len()
    }

    /// The key at a place.
    pub fn key_at(&self, i: usize) -> (r: &String)
        requires
            self.wf(),
            i < self.order().len(),
        ensures
            r@ == self.order()[i as int],
            self@.contains_key(r@),
    {
        proof {
            self.lemma_at(i as int);
        }
        &self.keys[i]
    }

    /// The value at a place.
    pub fn value_at(&self, i: usize) -> (r: &T)
        requires
            self.wf(),
            i < self.order().len(),
        ensures
            r@ == self@[self.order()[i as int]],
    {
        proof {
            self.lemma_at(i as int);
        }
        &self.vals[i]
    }

    /// The place of a key.
    fn place(&self, key: &str) -> (r: Option<usize>)
        requires
            self.wf(),
        ensures
            match r {
                Some(i) => i < self.keys@.len() && self.keys@[i as int]@ == key@ && self@.contains_key(key@),
                None => !self@.contains_key(key@),
            },
    {
        let mut i: usize = 0;
        while i < self.keys.len()
            invariant
                self.wf(),
                i <= self.keys@.len(),
                forall|j: int| 0 <= j < i ==> self.order()[j] != key@,
            decreases self.keys@.len() - i,
        {
            proof {
                self.lemma_at(i as int);
            }
            if str_eq(self.keys[i].as_str(), key) {
                return Some(i);
            }
            i += 1;
        }
        None
    }

    /// The value under a key.
    pub fn get(&self, key: &str) -> (r: Option<&T>)
        requires
            self.wf(),
        ensures
            match r {
                Some(v) => self@.contains_key(key@) && v@ == self@[key@],
                None => !self@.contains_key(key@),
            },
    {
        match self.place(key) {
            Some(i) => {
                proof {
                    self.lemma_at(i as int);
                }
                Some(&self.vals[i])
            },
            None => None,
        }
    }

    /// Puts a value under a key, in place of what stood there.
    pub fn insert(&mut self, key: String, val: T)
        requires
            old(self).wf(),
        ensures
            final(self).wf(),
            final(self)@ == old(self)@.insert(key@, val@),
    {
        let ghost k = key@;
        let ghost v = val@;
        let ghost before = *self;
        match self.place(key.as_str()) {
            Some(i) => {
                proof {
                    before.lemma_at(i as int);
                }
                self.vals.set(i, val);
                assert(self.order() =~= before.order());
                assert forall|x: Seq<char>| self@.contains_key(x) implies #[trigger] self@[x] == before@.insert(
                    k,
                    v,
                )[x] by {
                    let at = self.order().index_of(x);
                    assert(self.order()[at] == x);
                }
                assert(self@ =~= before@.insert(k, v));
            },
            None => {
                self.keys.push(key);
                self.vals.push(val);
                let ghost n = before.keys@.len() as int;
                assert(self.order() =~= before.order().push(k));
                assert(!before.order().contains(k));
                assert(self.order().no_duplicates()) by {
                    assert forall|a: int, b: int|
                        0 <= a < b < self.order().len() implies self.order()[a] != self.order()[b] by {
                        if b == n {
                            assert(before.order().contains(before.order()[a]));
                        }
                    }
                }
                assert forall|x: Seq<char>| #[trigger] self@.contains_key(x) <==> before@.insert(
                    k,
                    v,
                ).contains_key(x) by {
                    if before.order().contains(x) {
                        let at = before.order().index_of(x);
                        assert(self.order()[at] == x);
                    }
                    if x == k {
                        assert(self.order()[n] == k);
                    }
                    if self.order().contains(x) && x != k {
                        let at = self.order().index_of(x);
                        assert(before.order()[at] == x);
                    }
                }
                assert forall|x: Seq<char>| self@.contains_key(x) implies #[trigger] self@[x] == before@.insert(
                    k,
                    v,
                )[x] by {
                    let at = self.order().index_of(x);
                    assert(self.order()[at] == x);
                    if x != k {
                        assert(before.order()[at] == x);
                        assert(before.order().index_of(x) == at);
                    } else {
                        assert(self.order()[n] == k);
                        assert(at == n);
                    }
                }
                assert(self@ =~= before@.insert(k, v));
            },
        }
    }

    /// Takes the value out from under a key.
    pub fn remove(&mut self, key: &str) -> (r: Option<T>)
        requires
            old(self).wf(),
        ensures
            final(self).wf(),
            match r {
                Some(v) => old(self)@.contains_key(key@) && v@ == old(self)@[key@],
                None => !old(self)@.contains_key(key@),
            },
            final(self)@ == old(self)@.remove(key@),
    {
        let ghost before = *self;
        match self.place(key) {
            Some(i) => {
                proof {
                    before.lemma_at(i as int);
                }
                let _ = self.keys.remove(i);
                let v = self.vals.remove(i);
                let ghost k = key@;
                assert(self.order() =~= before.order().remove(i as int));
                assert forall|a: int, b: int|
                    0 <= a < b < self.order().len() implies self.order()[a] != self.order()[b] by {
                    let aa = if a < i {
                        a
                    } else {
                        a + 1
                    };
                    let bb = if b < i {
                        b
                    } else {
                        b + 1
                    };
                    assert(before.order()[aa] != before.order()[bb]);
                }
                assert(self.wf());
                assert forall|x: Seq<char>| #[trigger] self@.contains_key(x) <==> before@.remove(
                    k,
                ).contains_key(x) by {
                    if before.order().contains(x) && x != k {
                        let at = before.order().index_of(x);
                        assert(at != i);
                        assert(self.order()[if at < i {
                            at
                        } else {
                            at - 1
                        }] == x);
                    }
                    if self.order().contains(x) {
                        let at = self.order().index_of(x);
                        let from = if at < i {
                            at
                        } else {
                            at + 1
                        };
                        assert(before.order()[from] == x);
                        assert(before.order()[i as int] == k);
                    }
                }
                assert forall|x: Seq<char>| self@.contains_key(x) implies #[trigger] self@[x] == before@.remove(
                    k,
                )[x] by {
                    let at = self.order().index_of(x);
                    assert(self.order()[at] == x);
                    let from = if at < i {
                        at
                    } else {
                        at + 1
                    };
                    assert(before.order()[from] == x);
                    before.lemma_at(from);
                    assert(self.vals@[at] == before.vals@[from]);
                }
                assert(self@ =~= before@.remove(k));
                Some(v)
            },
            None => {
                assert(self@ =~= before@.remove(key@));
                None
            },
        }
    }
}

} // verus!
