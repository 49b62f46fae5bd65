use vstd::prelude::*;

verus! {

/// `pairs` lists the map `m`: each name of `m` once, with its value, and
/// nothing else.
pub open spec fn lists<V>(m: Map<Seq<char>, V>, pairs: Seq<(String, V)>) -> bool {
    &&& forall|i: int, j: int| 0 <= i < j < pairs.len() ==> pairs[i].0@ != pairs[j].0@
    &&& forall|i: int|
        0 <= i < pairs.len() ==> m.contains_key((#[trigger] pairs[i]).0@) && m[pairs[i].0@] == pairs[i].1
    &&& forall|k: Seq<char>| #[trigger] m.contains_key(k) ==> exists|i: int| 0 <= i < pairs.len() && pairs[i].0@ == k
}

/// A map from node or log names to values, each name held once.
pub struct NameMap<V> {
    entries: Vec<(String, V)>,
}

impl<V> View for NameMap<V> {
    type V = Map<Seq<char>, V>;

    closed spec fn view(&self) -> Map<Seq<char>, V> {
        Map::new(
            |k: Seq<char>| exists|i: int| 0 <= i < self.entries@.len() && self.entries@[i].0@ == k,
            |k: Seq<char>|
                self.entries@[choose|i: int|
                    0 <= i < self.entries@.len() && self.entries@[i].0@ == k].1,
        )
    }
}

impl<V> NameMap<V> {
    /// No name is held twice.
    pub closed spec fn wf(&self) -> bool {
        forall|i: int, j: int|
            0 <= i < j < self.entries@.len() ==> self.entries@[i].0@ != self.entries@[j].0@
    }

    /// The entries, in the order their names were first inserted.
    pub closed spec fn pairs(&self) -> Seq<(String, V)> {
        self.entries@
    }

    proof fn lemma_entry(&self, i: int)
        requires
            self.wf(),
            0 <= i < self.entries@.len(),
        ensures
            self@.contains_key(self.entries@[i].0@),
            self@[self.entries@[i].0@] == self.entries@[i].1,
    {
        let k = self.entries@[i].0@;
        assert(self@.contains_key(k));
        let c = choose|c: int| 0 <= c < self.entries@.len() && self.entries@[c].0@ == k;
        if c != i {
            if c < i {
                assert(self.entries@[c].0@ != self.entries@[i].0@);
            } else {
                assert(self.entries@[i].0@ != self.entries@[c].0@);
            }
        }
    }

    /// Each entry is what the map holds under its name.
    pub proof fn lemma_pair(&self, i: int)
        requires
            self.wf(),
            0 <= i < self.pairs().len(),
        ensures
            self@.contains_key(self.pairs()[i].0@),
            self@[self.pairs()[i].0@] == self.pairs()[i].1,
    {
        self.lemma_entry(i);
    }

    /// The entries list the map.
    pub proof fn lemma_lists(&self)
        requires
            self.wf(),
        ensures
            lists(self@, self.pairs()),
    {
        assert forall|i: int| 0 <= i < self.pairs().len() implies self@.contains_key(
            (#[trigger] self.pairs()[i]).0@,
        ) && self@[self.pairs()[i].0@] == self.pairs()[i].1 by {
            self.lemma_entry(i);
        }
    }

    pub fn new() -> (r: NameMap<V>)
        ensures
            r.wf(),
            r@ == Map::<Seq<char>, V>::empty(),
            r.pairs() == Seq::<(String, V)>::empty(),
    {
        let r = NameMap { entries: Vec::new() };
        proof {
            assert(r.entries@ =~= Seq::<(String, V)>::empty());
        }
        proof {
            assert(r@ =~= Map::<Seq<char>, V>::empty());
        }
        r
    }

    fn find(&self, name: &String) -> (r: Option<usize>)
        requires
            self.wf(),
        ensures
            match r {
                Some(i) => i < self.entries@.len() && self.entries@[i as int].0@ == name@,
                None => !self@.contains_key(name@),
            },
    {
        let mut i: usize = 0;
        while i < self.entries.len()
            invariant
                0 <= i <= self.entries@.len(),
                forall|j: int| 0 <= j < i ==> self.entries@[j].0@ != name@,
            decreases self.entries@.len() - i,
        {
            if self.entries[i].0 == *name {
                return Some(i);
            }
            i = i + 1;
        }
        None
    }

    pub fn get(&self, name: &String) -> (r: Option<&V>)
        requires
            self.wf(),
        ensures
            match r {
                Some(v) => self@.contains_key(name@) && *v == self@[name@],
                None => !self@.contains_key(name@),
            },
    {
        match self.find(name) {
            Some(i) => {
                proof {
                    self.lemma_entry(i as int);
                }
                Some(&self.entries[i].1)
            },
            None => None,
        }
    }

    /// Sets the value under `name` and hands back the one it replaces.
    pub fn insert(&mut self, name: &String, v: V) -> (r: Option<V>)
        requires
            old(self).wf(),
        ensures
            final(self).wf(),
            final(self)@ == old(self)@.insert(name@, v),
            match r {
                Some(o) => {
                    &&& old(self)@.contains_key(name@)
                    &&& o == old(self)@[name@]
                    &&& exists|j: int|
                        0 <= j < old(self).pairs().len() && old(self).pairs()[j].0@ == name@
                            && final(self).pairs() == old(self).pairs().update(j, (*name, v))
                },
                None => {
                    &&& !old(self)@.contains_key(name@)
                    &&& final(self).pairs() == old(self).pairs().push((*name, v))
                },
            },
    {
        match self.find(name) {
            Some(i) => {
                proof {
                    self.lemma_entry(i as int);
                }
                let mut slot = (name.clone(), v);
                self.entries.set_and_swap(i, &mut slot);
                proof {
                    assert(self.pairs() == old(self).pairs().update(i as int, (*name, v)));
                    let pre = old(self).entries@;
                    let post = self.entries@;
                    assert forall|j: int| 0 <= j < post.len() implies post[j].0@ == pre[j].0@ by {}
                    assert(self.wf());
                    assert forall|k: Seq<char>| #[trigger] self@.contains_key(k) <==> old(self)@.contains_key(k) by {
                        if self@.contains_key(k) {
                            let c = choose|c: int| 0 <= c < post.len() && post[c].0@ == k;
                            assert(pre[c].0@ == k);
                        }
                        if old(self)@.contains_key(k) {
                            let c = choose|c: int| 0 <= c < pre.len() && pre[c].0@ == k;
                            assert(post[c].0@ == k);
                        }
                    }
                    assert forall|k: Seq<char>| #[trigger] self@.contains_key(k) implies self@[k]
                        == old(self)@.insert(name@, v)[k] by {
                        let c = choose|c: int| 0 <= c < post.len() && post[c].0@ == k;
                        self.lemma_entry(c);
                        old(self).lemma_entry(c);
                    }
                    assert(self@ =~= old(self)@.insert(name@, v));
                }
                Some(slot.1)
            },
            None => {
                self.entries.push((name.clone(), v));
                proof {
                    let pre = old(self).entries@;
                    let post = self.entries@;
                    let n = pre.len() as int;
                    assert(post[n].0@ == name@);
                    assert forall|j: int| 0 <= j < n implies post[j] == pre[j] by {}
                    assert forall|j: int| 0 <= j < n implies pre[j].0@ != name@ by {
                        if pre[j].0@ == name@ {
                            assert(old(self)@.contains_key(name@));
                        }
                    }
                    assert(self.wf());
                    assert forall|k: Seq<char>| #[trigger] self@.contains_key(k) <==> (old(self)@.contains_key(k) || k == name@) by {
                        if self@.contains_key(k) {
                            let c = choose|c: int| 0 <= c < post.len() && post[c].0@ == k;
                            if c < n {
                                assert(pre[c].0@ == k);
                            }
                        }
                        if old(self)@.contains_key(k) {
                            let c = choose|c: int| 0 <= c < pre.len() && pre[c].0@ == k;
                            assert(post[c].0@ == k);
                        }
                    }
                    assert forall|k: Seq<char>| #[trigger] self@.contains_key(k) implies self@[k]
                        == old(self)@.insert(name@, v)[k] by {
                        let c = choose|c: int| 0 <= c < post.len() && post[c].0@ == k;
                        self.lemma_entry(c);
                        if c < n {
                            old(self).lemma_entry(c);
                        }
                    }
                    assert(self@ =~= old(self)@.insert(name@, v));
                }
                None
            },
        }
    }
}

impl<V> NameMap<V> {
    pub fn len(&self) -> (r: usize)
        ensures
            r == self.pairs().len(),
    {
        self.entries.len()
    }

    /// The value of the `i`-th entry.
    pub fn value_at(&self, i: usize) -> (r: &V)
        requires
            i < self.pairs().len(),
        ensures
            *r == self.pairs()[i as int].1,
    {
        &self.entries[i].1
    }
}

impl<V: Copy> NameMap<V> {
    /// The entries as a vector, in order.
    pub fn to_vec(&self) -> (r: Vec<(String, V)>)
        ensures
            r@ == self.pairs(),
    {
        let mut r: Vec<(String, V)> = Vec::new();
        let mut i: usize = 0;
        while i < self.entries.len()
            invariant
                0 <= i <= self.entries@.len(),
                r@ == self.entries@.take(i as int),
            decreases self.entries@.len() - i,
        {
            r.push((self.entries[i].0.clone(), self.entries[i].1));
            proof {
                assert(r@ =~= self.entries@.take(i + 1));
            }
            i = i + 1;
        }
        proof {
            assert(r@ =~= self.entries@);
        }
        r
    }
}

} // verus!
