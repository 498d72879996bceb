use vstd::prelude::*;

verus! {

/// Values stored under distinct string keys, in the order in which the keys
/// first arrived.
#[derive(Debug)]
pub struct Keyed<V: Copy> {
    keys: Vec<String>,
    values: Vec<V>,
}

impl<V: Copy> Keyed<V> {
    /// Each key is stored once, beside its value.
    pub closed spec fn wf(&self) -> bool {
        &&& self.keys@.len() == self.values@.len()
        &&& forall|i: int, j: int|
            0 <= i < j < self.keys@.len() ==> #[trigger] self.keys@[i]@ != #[trigger] self.keys@[j]@
    }

    spec fn has_key_at(&self, k: Seq<char>, i: int) -> bool {
        0 <= i < self.keys@.len() && self.keys@[i]@ == k
    }

    spec fn position(&self, k: Seq<char>) -> int {
        choose|i: int| self.has_key_at(k, i)
    }

    /// How many keys are stored.
    pub closed spec fn size(&self) -> nat {
        self.values@.len()
    }

    /// The key at position `i`.
    pub closed spec fn key_at(&self, i: int) -> Seq<char> {
        self.keys@[i]@
    }

    /// The value at position `i`.
    pub closed spec fn value_of(&self, i: int) -> V {
        self.values@[i]
    }

    /// The keys and their values.
    pub closed spec fn view(&self) -> Map<Seq<char>, V> {
        Map::new(
            |k: Seq<char>| exists|i: int| self.has_key_at(k, i),
            |k: Seq<char>| self.values@[self.position(k)],
        )
    }

    proof fn lemma_at(&self, i: int)
        requires
            0 <= i < self.keys@.len(),
            self.wf(),
        ensures
            self.view().dom().contains(self.keys@[i]@),
            self.view()[self.keys@[i]@] == self.values@[i],
    {
        let k = self.keys@[i]@;
        assert(self.has_key_at(k, i));
        let p = self.position(k);
        assert(self.has_key_at(k, p));
        assert(p == i);
    }

    pub fn new() -> (r: Self)
        ensures
            r.wf(),
            r.view() == Map::<Seq<char>, V>::empty(),
    {
        let r = Keyed { keys: Vec::new(), values: Vec::new() };
        assert(r.view() =~= Map::<Seq<char>, V>::empty());
        r
    }

    /// Where `key` is stored, if it is.
    pub fn find(&self, key: &str) -> (r: Option<usize>)
        requires
            self.wf(),
        ensures
            r is Some <==> self.view().dom().contains(key@),
            r matches Some(i) ==> i < self.size() && self.key_at(i as int) == key@
                && self.view()[key@] == self.value_of(i as int),
    {
        let wanted = key.to_owned();
        let mut i: usize = 0;
        while i < self.keys.len()
            invariant
                self.wf(),
                wanted@ == key@,
                i <= self.keys@.len(),
                forall|t: int| 0 <= t < i ==> self.keys@[t]@ != key@,
            decreases self.keys@.len() - i,
        {
            if self.keys[i] == wanted {
                proof {
                    self.lemma_at(i as int);
                }
                return Some(i);
            }
            i = i + 1;
        }
        None
    }

    /// The value stored at position `i`.
    pub fn value_at(&self, i: usize) -> (v: V)
        requires
            i < self.size(),
        ensures
            v == self.value_of(i as int),
    {
        self.values[i]
    }

    /// Replaces the value at position `i`.
    pub fn set_at(&mut self, i: usize, v: V)
        requires
            old(self).wf(),
            i < old(self).size(),
        ensures
            final(self).wf(),
            final(self).view() == old(self).view().insert(old(self).key_at(i as int), v),
            final(self).size() == old(self).size(),
    {
        let ghost before = *self;
        self.values.set(i, v);
        proof {
            let k = before.keys@[i as int]@;
            assert forall|key: Seq<char>| #[trigger]
                self.view().dom().contains(key) implies before.view().insert(k, v).dom().contains(key)
                && self.view()[key] == before.view().insert(k, v)[key] by {
                let p = self.position(key);
                assert(self.has_key_at(key, p));
                assert(before.has_key_at(key, p));
                assert(before.view().dom().contains(key));
                self.lemma_at(p);
                before.lemma_at(p);
            }
            assert forall|key: Seq<char>| #[trigger]
                before.view().insert(k, v).dom().contains(key) implies self.view().dom().contains(
                key,
            ) by {
                if key != k {
                    let p = before.position(key);
                    assert(before.has_key_at(key, p));
                    assert(self.has_key_at(key, p));
                } else {
                    assert(self.has_key_at(key, i as int));
                }
            }
            assert(self.view() =~= before.view().insert(k, v));
        }
    }

    /// Stores `v` under a key that is not present yet.
    pub fn add(&mut self, key: &str, v: V)
        requires
            old(self).wf(),
            !old(self).view().dom().contains(key@),
        ensures
            final(self).wf(),
            final(self).size() == old(self).size() + 1,
            final(self).view() == old(self).view().insert(key@, v),
    {
        let ghost before = *self;
        let n = self.keys.len();
        proof {
            assert forall|t: int| 0 <= t < n implies self.keys@[t]@ != key@ by {
                if self.keys@[t]@ == key@ {
                    assert(before.has_key_at(key@, t));
                }
            }
        }
        self.keys.push(key.to_owned());
        self.values.push(v);
        proof {
            assert forall|k: Seq<char>| #[trigger]
                self.view().dom().contains(k) implies before.view().insert(key@, v).dom().contains(k)
                && self.view()[k] == before.view().insert(key@, v)[k] by {
                let p = self.position(k);
                assert(self.has_key_at(k, p));
                self.lemma_at(p);
                if p < n {
                    assert(before.has_key_at(k, p));
                    assert(before.view().dom().contains(k));
                    before.lemma_at(p);
                }
            }
            assert forall|k: Seq<char>| #[trigger]
                before.view().insert(key@, v).dom().contains(k) implies self.view().dom().contains(
                k,
            ) by {
                if k != key@ {
                    let p = before.position(k);
                    assert(before.has_key_at(k, p));
                    assert(self.has_key_at(k, p));
                } else {
                    assert(self.has_key_at(k, n as int));
                }
            }
            assert(self.view() =~= before.view().insert(key@, v));
        }
    }

    /// Every key with its value, in the order in which the keys arrived.
    pub fn entries(&self) -> (r: Vec<(String, V)>)
        requires
            self.wf(),
        ensures
            r@.len() == self.size(),
            self.view().dom().len() == self.size(),
            forall|i: int|
                0 <= i < r@.len() ==> self.view().dom().contains(#[trigger] r@[i].0@)
                    && self.view()[r@[i].0@] == r@[i].1,
            forall|k: Seq<char>|
                #[trigger] self.view().dom().contains(k) ==> exists|i: int|
                    0 <= i < r@.len() && r@[i].0@ == k,
            forall|i: int, j: int|
                0 <= i < j < r@.len() ==> #[trigger] r@[i].0@ != #[trigger] r@[j].0@,
    {
        let mut r: Vec<(String, V)> = Vec::new();
        let mut i: usize = 0;
        while i < self.keys.len()
            invariant
                self.wf(),
                i <= self.keys@.len(),
                r@.len() == i,
                forall|t: int|
                    0 <= t < i ==> (#[trigger] r@[t]).0@ == self.keys@[t]@ && r@[t].1
                        == self.values@[t],
            decreases self.keys@.len() - i,
        {
            r.push((self.keys[i].clone(), self.values[i]));
            i = i + 1;
        }
        proof {
            assert forall|t: int| 0 <= t < r@.len() implies self.view().dom().contains(
                #[trigger] r@[t].0@,
            ) && self.view()[r@[t].0@] == r@[t].1 by {
                self.lemma_at(t);
            }
            assert forall|k: Seq<char>| #[trigger]
                self.view().dom().contains(k) implies exists|t: int|
                0 <= t < r@.len() && r@[t].0@ == k by {
                let p = self.position(k);
                assert(self.has_key_at(k, p));
                assert(r@[p].0@ == k);
            }
            assert forall|a: int, b: int| 0 <= a < b < r@.len() implies #[trigger] r@[a].0@
                != #[trigger] r@[b].0@ by {
                assert(self.keys@[a]@ != self.keys@[b]@);
            }
            let keys_view = Seq::new(self.keys@.len(), |t: int| self.keys@[t]@);
            assert forall|k: Seq<char>|
                self.view().dom().contains(k) <==> #[trigger] keys_view.to_set().contains(k) by {
                if self.view().dom().contains(k) {
                    let p = self.position(k);
                    assert(self.has_key_at(k, p));
                    assert(keys_view[p] == k);
                }
                if keys_view.contains(k) {
                    let p = choose|p: int| 0 <= p < keys_view.len() && keys_view[p] == k;
                    assert(self.has_key_at(k, p));
                }
            }
            assert(self.view().dom() =~= keys_view.to_set());
            assert forall|a: int, b: int|
                0 <= a < keys_view.len() && 0 <= b < keys_view.len() && a != b implies keys_view[a]
                != keys_view[b] by {
                if a < b {
                    assert(self.keys@[a]@ != self.keys@[b]@);
                } else {
                    assert(self.keys@[b]@ != self.keys@[a]@);
                }
            }
            assert(keys_view.no_duplicates());
            keys_view.unique_seq_to_set();
        }
        r
    }
}

} // verus!
