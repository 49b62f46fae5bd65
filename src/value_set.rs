use std::collections::HashSet;

use vstd::prelude::*;
use vstd::std_specs::hash::spec_hash_keys_iter;
use vstd::std_specs::iter::IteratorSpec;

verus! {

broadcast use vstd::std_specs::hash::group_hash_axioms;

/// A finite set of broadcast values.
pub struct ValueSet {
    items: HashSet<u64>,
}

impl View for ValueSet {
    type V = Set<u64>;

    closed spec fn view(&self) -> Set<u64> {
        self.items@
    }
}

/// The values among the first `n` of `s`.
spec fn first_values(s: Seq<&u64>, n: int) -> Set<u64> {
    Set::new(|v: u64| exists|i: int| 0 <= i < n && *s[i] == v)
}

proof fn lemma_first_values_all(s: Seq<&u64>, whole: Set<u64>)
    requires
        s.unref().to_set() == whole,
    ensures
        first_values(s, s.len() as int) == whole,
{
    assert forall|v: u64| #[trigger] first_values(s, s.len() as int).contains(v) <==> whole.contains(v) by {
        if first_values(s, s.len() as int).contains(v) {
            let i = choose|i: int| 0 <= i < s.len() && *s[i] == v;
            assert(s.unref()[i] == v);
        }
        if whole.contains(v) {
            let i = choose|i: int| 0 <= i < s.unref().len() && s.unref()[i] == v;
            assert(*s[i] == v);
        }
    }
    assert(first_values(s, s.len() as int) =~= whole);
}

impl ValueSet {
    pub fn new() -> (r: ValueSet)
        ensures
            r@ == Set::<u64>::empty(),
    {
        ValueSet { items: HashSet::new() }
    }

    pub fn contains(&self, v: u64) -> (r: bool)
        ensures
            r == self@.contains(v),
    {
        self.items.contains(&v)
    }

    pub fn len(&self) -> (r: usize)
        ensures
            r as nat == self@.len(),
    {
        self.items.len()
    }

    pub fn is_empty(&self) -> (r: bool)
        ensures
            r == (self@ == Set::<u64>::empty()),
    {
        let r = self.items.is_empty();
        proof {
            if r {
                assert(self@ =~= Set::<u64>::empty());
            }
        }
        r
    }

    /// Adds `v`; a value already held leaves the set unchanged.
    pub fn insert(&mut self, v: u64)
        ensures
            final(self)@ == old(self)@.insert(v),
    {
        self.items.insert(v);
    }

    /// Adds every value of `other`.
    pub fn extend(&mut self, other: &ValueSet)
        ensures
            final(self)@ == old(self)@.union(other@),
    {
        let ghost all = spec_hash_keys_iter(&other.items).remaining();
        for x in it: other.items.iter()
            invariant
                it.seq() == all,
                self@ == old(self)@.union(first_values(all, it.index())),
        {
            self.items.insert(*x);
            proof {
                assert(self@ =~= old(self)@.union(first_values(all, it.index() + 1)));
            }
        }
        proof {
            lemma_first_values_all(all, other@);
        }
    }

    /// The values of `self` that `other` does not hold.
    pub fn difference(&self, other: &ValueSet) -> (r: ValueSet)
        ensures
            r@ == self@.difference(other@),
    {
        let mut r = ValueSet::new();
        let ghost all = spec_hash_keys_iter(&self.items).remaining();
        for x in it: self.items.iter()
            invariant
                it.seq() == all,
                r@ == first_values(all, it.index()).difference(other@),
        {
            let v = *x;
            if !other.contains(v) {
                r.insert(v);
            }
            proof {
                assert(r@ =~= first_values(all, it.index() + 1).difference(other@));
            }
        }
        proof {
            lemma_first_values_all(all, self@);
        }
        r
    }

    /// A copy of the set.
    pub fn snapshot(&self) -> (r: ValueSet)
        ensures
            r@ == self@,
    {
        let mut r = ValueSet::new();
        r.extend(self);
        proof {
            assert(r@ =~= self@);
        }
        r
    }

    /// The values as a vector, each once, in no particular order.
    pub fn to_vec(&self) -> (r: Vec<u64>)
        ensures
            r@.no_duplicates(),
            r@.to_set() == self@,
    {
        let ghost all = spec_hash_keys_iter(&self.items).remaining();
        let mut r: Vec<u64> = Vec::new();
        for x in it: self.items.iter()
            invariant
                it.seq() == all,
                r@.len() == it.index(),
                forall|i: int| 0 <= i < r@.len() ==> r@[i] == *all[i],
        {
            r.push(*x);
        }
        proof {
            assert(r@ =~= all.unref());
        }
        r
    }

    /// The set of the values that `v` holds; a repeated value counts once.
    pub fn from_vec(v: &Vec<u64>) -> (r: ValueSet)
        ensures
            r@ == v@.to_set(),
    {
        let mut r = ValueSet::new();
        let mut i: usize = 0;
        while i < v.len()
            invariant
                0 <= i <= v@.len(),
                r@ == v@.take(i as int).to_set(),
            decreases v@.len() - i,
        {
            r.insert(v[i]);
            proof {
                let a = v@.take(i + 1);
                let b = v@.take(i as int);
                assert forall|x: u64| #[trigger] a.contains(x) <==> (b.contains(x) || x == v@[i as int]) by {
                    if a.contains(x) {
                        let k = choose|k: int| 0 <= k < a.len() && a[k] == x;
                        if k < i {
                            assert(b[k] == x);
                        }
                    }
                    if b.contains(x) {
                        let k = choose|k: int| 0 <= k < b.len() && b[k] == x;
                        assert(a[k] == x);
                    }
                    if x == v@[i as int] {
                        assert(a[i as int] == x);
                    }
                }
                assert(r@ =~= a.to_set());
            }
            i = i + 1;
        }
        proof {
            assert(v@.take(v@.len() as int) =~= v@);
        }
        r
    }
}

} // verus!
