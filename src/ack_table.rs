use vstd::prelude::*;

use crate::value_set::ValueSet;

verus! {

/// For each peer, the values that peer has acknowledged holding.
pub struct AckTable {
    entries: Vec<(String, ValueSet)>,
}

/// `a` with the values `msgs` added to what `peer` has acknowledged; a peer
/// without an entry starts from nothing.
pub open spec fn acknowledged(
    a: Map<Seq<char>, Set<u64>>,
    peer: Seq<char>,
    msgs: Set<u64>,
) -> Map<Seq<char>, Set<u64>> {
    if a.contains_key(peer) {
        a.insert(peer, a[peer].union(msgs))
    } else {
        a.insert(peer, msgs)
    }
}

impl View for AckTable {
    type V = Map<Seq<char>, Set<u64>>;

    closed spec fn view(&self) -> Map<Seq<char>, Set<u64>> {
        Map::new(
            |k: Seq<char>| exists|i: int| 0 <= i < self.entries@.len() && self.entries@[i].0@ == k,
            |k: Seq<char>|
                self.entries@[choose|i: int|
                    0 <= i < self.entries@.len() && self.entries@[i].0@ == k].1@,
        )
    }
}

impl AckTable {
    /// Peers are listed once each.
    pub closed spec fn wf(&self) -> bool {
        forall|i: int, j: int|
            0 <= i < j < self.entries@.len() ==> self.entries@[i].0@ != self.entries@[j].0@
    }

    proof fn lemma_entry(&self, i: int)
        requires
            self.wf(),
            0 <= i < self.entries@.len(),
        ensures
            self@.contains_key(self.entries@[i].0@),
            self@[self.entries@[i].0@] == self.entries@[i].1@,
    {
        let k = self.entries@[i].0@;
        assert(self@.contains_key(k));
        let c = choose|c: int| 0 <= c < self.entries@.len() && self.entries@[c].0@ == k;
        if c != i {
            if c < i {
                assert(self.entries@[c].0@ != self.entries@[i].0@);
            } else {
                assert(self.entries@[i].0@ != self.entries@[c].0@);
            }
        }
    }

    pub fn new() -> (r: AckTable)
        ensures
            r.wf(),
            r@ == Map::<Seq<char>, Set<u64>>::empty(),
    {
        let r = AckTable { entries: Vec::new() };
        proof {
            assert(r@ =~= Map::<Seq<char>, Set<u64>>::empty());
        }
        r
    }

    fn find(&self, peer: &String) -> (r: Option<usize>)
        requires
            self.wf(),
        ensures
            match r {
                Some(i) => i < self.entries@.len() && self.entries@[i as int].0@ == peer@,
                None => !self@.contains_key(peer@),
            },
    {
        let mut i: usize = 0;
        while i < self.entries.len()
            invariant
                0 <= i <= self.entries@.len(),
                forall|j: int| 0 <= j < i ==> self.entries@[j].0@ != peer@,
            decreases self.entries@.len() - i,
        {
            if self.entries[i].0 == *peer {
                return Some(i);
            }
            i = i + 1;
        }
        None
    }

    /// What `peer` has acknowledged, if it has acknowledged anything.
    pub fn get(&self, peer: &String) -> (r: Option<&ValueSet>)
        requires
            self.wf(),
        ensures
            match r {
                Some(s) => self@.contains_key(peer@) && s@ == self@[peer@],
                None => !self@.contains_key(peer@),
            },
    {
        match self.find(peer) {
            Some(i) => {
                proof {
                    self.lemma_entry(i as int);
                }
                Some(&self.entries[i].1)
            },
            None => None,
        }
    }

    /// Records that `peer` holds every value of `msgs`.
    pub fn record(&mut self, peer: &String, msgs: &ValueSet)
        requires
            old(self).wf(),
        ensures
            final(self).wf(),
            final(self)@ == acknowledged(old(self)@, peer@, msgs@),
    {
        match self.find(peer) {
            Some(i) => {
                proof {
                    self.lemma_entry(i as int);
                }
                let mut s = self.entries[i].1.snapshot();
                s.extend(msgs);
                let name = self.entries[i].0.clone();
                self.entries.set(i, (name, s));
                proof {
                    let pre = old(self).entries@;
                    let post = self.entries@;
                    assert(post == pre.update(i as int, post[i as int]));
                    assert forall|j: int| 0 <= j < post.len() implies post[j].0@ == pre[j].0@ by {}
                    assert(self.wf());
                    assert forall|k: Seq<char>| #[trigger] self@.contains_key(k) <==> old(self)@.contains_key(k) by {
                        if self@.contains_key(k) {
                            let c = choose|c: int| 0 <= c < post.len() && post[c].0@ == k;
                            assert(pre[c].0@ == k);
                        }
                        if old(self)@.contains_key(k) {
                            let c = choose|c: int| 0 <= c < pre.len() && pre[c].0@ == k;
                            assert(post[c].0@ == k);
                        }
                    }
                    assert forall|k: Seq<char>| #[trigger] self@.contains_key(k) implies self@[k]
                        == acknowledged(old(self)@, peer@, msgs@)[k] by {
                        let c = choose|c: int| 0 <= c < post.len() && post[c].0@ == k;
                        self.lemma_entry(c);
                        old(self).lemma_entry(c);
                        if c != i {
                            assert(post[c] == pre[c]);
                        }
                    }
                    assert(self@ =~= acknowledged(old(self)@, peer@, msgs@));
                }
            },
            None => {
                let mut s = ValueSet::new();
                s.extend(msgs);
                let name = peer.clone();
                self.entries.push((name, s));
                proof {
                    let pre = old(self).entries@;
                    let post = self.entries@;
                    let n = pre.len() as int;
                    assert(post[n].0@ == peer@);
                    assert forall|j: int| 0 <= j < n implies post[j] == pre[j] by {}
                    assert forall|j: int| 0 <= j < n implies pre[j].0@ != peer@ by {
                        if pre[j].0@ == peer@ {
                            assert(old(self)@.contains_key(peer@));
                        }
                    }
                    assert(self.wf());
                    assert forall|k: Seq<char>| #[trigger] self@.contains_key(k) <==> (old(self)@.contains_key(k) || k == peer@) by {
                        if self@.contains_key(k) {
                            let c = choose|c: int| 0 <= c < post.len() && post[c].0@ == k;
                            if c < n {
                                assert(pre[c].0@ == k);
                            }
                        }
                        if old(self)@.contains_key(k) {
                            let c = choose|c: int| 0 <= c < pre.len() && pre[c].0@ == k;
                            assert(post[c].0@ == k);
                        }
                    }
                    assert forall|k: Seq<char>| #[trigger] self@.contains_key(k) implies self@[k]
                        == acknowledged(old(self)@, peer@, msgs@)[k] by {
                        let c = choose|c: int| 0 <= c < post.len() && post[c].0@ == k;
                        self.lemma_entry(c);
                        if c < n {
                            old(self).lemma_entry(c);
                        }
                    }
                    assert(self@ =~= acknowledged(old(self)@, peer@, msgs@));
                }
            },
        }
    }
}

} // verus!
