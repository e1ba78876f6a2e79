//! The set of unspent outputs, keyed by each output's hash.
use vstd::prelude::*;
use crate::types::{OutputModel, TransactionOutput};

verus! {

/// Unspent outputs by hash. Keys are unique.
pub struct UtxoSet {
    keys: Vec<crate::hashing::Hash>,
    values: Vec<TransactionOutput>,
    contents: Ghost<Map<crate::hashing::Hash, OutputModel>>,
}

impl View for UtxoSet {
    type V = Map<crate::hashing::Hash, OutputModel>;

    closed spec fn view(&self) -> Map<crate::hashing::Hash, OutputModel> {
        self.contents@
    }
}

impl UtxoSet {
    /// Keys and values are parallel, keys are unique, and the map holds exactly them.
    pub closed spec fn wf(self) -> bool {
        &&& self.keys@.len() == self.values@.len()
        &&& self.keys@.no_duplicates()
        &&& self.contents@.dom() == self.keys@.to_set()
        &&& forall|i: int| 0 <= i < self.keys@.len() ==> self.contents@[#[trigger] self.keys@[i]] == self.values@[i]@
    }

    /// The empty set.
    pub fn new() -> (r: UtxoSet)
        ensures
            r.wf(),
            r@ == Map::<crate::hashing::Hash, OutputModel>::empty(),
    {
        let r = UtxoSet { keys: Vec::new(), values: Vec::new(), contents: Ghost(Map::empty()) };
        assert(r.keys@.to_set() =~= Set::empty());
        r
    }

    /// The position of `h` among the keys.
    fn find(&self, h: &crate::hashing::Hash) -> (r: Option<usize>)
        requires
            self.wf(),
        ensures
            r is Some ==> r->0 < self.keys@.len() && self.keys@[r->0 as int] == *h,
            r is None ==> !self@.contains_key(*h),
    {
        let mut i: usize = 0;
        while i < self.keys.len()
            invariant
                i <= self.keys@.len(),
                forall|k: int| 0 <= k < i ==> self.keys@[k] != *h,
            decreases self.keys@.len() - i,
        {
            if self.keys[i] == *h {
                return Some(i);
            }
            i = i + 1;
        }
        proof {
            if self@.contains_key(*h) {
                assert(self.keys@.to_set().contains(*h));
                let k = choose|k: int| 0 <= k < self.keys@.len() && self.keys@[k] == *h;
                assert(self.keys@[k] != *h);
            }
        }
        None
    }

    /// Whether an output with hash `h` is unspent.
    pub fn contains(&self, h: &crate::hashing::Hash) -> (r: bool)
        requires
            self.wf(),
        ensures
            r == self@.contains_key(*h),
    {
        match self.find(h) {
            Some(i) => {
                assert(self.keys@.to_set().contains(self.keys@[i as int]));
                true
            },
            None => false,
        }
    }

    /// The unspent output with hash `h`, if any.
    pub fn get(&self, h: &crate::hashing::Hash) -> (r: Option<&TransactionOutput>)
        requires
            self.wf(),
        ensures
            r is Some <==> self@.contains_key(*h),
            r is Some ==> r->0@ == self@[*h],
    {
        match self.find(h) {
            Some(i) => {
                assert(self.keys@.to_set().contains(self.keys@[i as int]));
                Some(&self.values[i])
            },
            None => None,
        }
    }

    /// The number of unspent outputs.
    pub fn len(&self) -> (r: usize)
        requires
            self.wf(),
        ensures
            r == self@.len(),
    {
        proof {
            self.keys@.unique_seq_to_set();
        }
        self.keys.len()
    }

    /// Records `o` as unspent under `h`, replacing what `h` held.
    pub fn insert(&mut self, h: crate::hashing::Hash, o: TransactionOutput)
        requires
            old(self).wf(),
        ensures
            final(self).wf(),
            final(self)@ == old(self)@.insert(h, o@),
    {
        let ghost om = o@;
        match self.find(&h) {
            Some(i) => {
                self.values.set(i, o);
                self.contents = Ghost(self.contents@.insert(h, om));
                assert(self.keys@.to_set().contains(self.keys@[i as int]));
                assert(self.contents@.dom() =~= self.keys@.to_set());
                assert forall|k: int| 0 <= k < self.keys@.len() implies self.contents@[#[trigger] self.keys@[k]]
                    == self.values@[k]@ by {
                    if k != i {
                        assert(self.keys@[k] != self.keys@[i as int]);
                    }
                }
            },
            None => {
                proof {
                    assert(!self.keys@.contains(h)) by {
                        if self.keys@.contains(h) {
                            assert(self.keys@.to_set().contains(h));
                        }
                    }
                }
                self.keys.push(h);
                self.values.push(o);
                self.contents = Ghost(self.contents@.insert(h, om));
                assert forall|x: crate::hashing::Hash| self.keys@.to_set().contains(x)
                    <==> old(self).keys@.to_set().insert(h).contains(x) by {
                    if self.keys@.to_set().contains(x) && x != h {
                        let k = choose|k: int| 0 <= k < self.keys@.len() && self.keys@[k] == x;
                        assert(old(self).keys@[k] == x);
                    }
                    if old(self).keys@.to_set().contains(x) {
                        let k = choose|k: int| 0 <= k < old(self).keys@.len() && old(self).keys@[k] == x;
                        assert(self.keys@[k] == x);
                    }
                    if x == h {
                        assert(self.keys@[self.keys@.len() - 1] == h);
                    }
                }
                assert(self.keys@.to_set() =~= old(self).keys@.to_set().insert(h));
                assert(self.contents@.dom() =~= self.keys@.to_set());
                assert forall|k: int| 0 <= k < self.keys@.len() implies self.contents@[#[trigger] self.keys@[k]]
                    == self.values@[k]@ by {
                    if k < old(self).keys@.len() {
                        assert(self.keys@[k] == old(self).keys@[k]);
                        assert(old(self).keys@.contains(old(self).keys@[k]));
                    }
                }
            },
        }
    }

    /// Marks the output with hash `h` as spent.
    pub fn remove(&mut self, h: &crate::hashing::Hash)
        requires
            old(self).wf(),
        ensures
            final(self).wf(),
            final(self)@ == old(self)@.remove(*h),
    {
        match self.find(h) {
            Some(i) => {
                let ghost ok = self.keys@;
                let ghost ov = self.values@;
                self.keys.remove(i);
                self.values.remove(i);
                self.contents = Ghost(self.contents@.remove(*h));
                assert(self.keys@ =~= ok.remove(i as int));
                assert(self.values@ =~= ov.remove(i as int));
                assert forall|a: int, b: int|
                    0 <= a < self.keys@.len() && 0 <= b < self.keys@.len() && a != b implies self.keys@[a]
                    != self.keys@[b] by {
                    let a2 = if a < i { a } else { a + 1 };
                    let b2 = if b < i { b } else { b + 1 };
                    assert(self.keys@[a] == ok[a2]);
                    assert(self.keys@[b] == ok[b2]);
                }
                assert forall|x: crate::hashing::Hash| self.contents@.dom().contains(x) <==> self.keys@.to_set().contains(x) by {
                    if self.contents@.dom().contains(x) {
                        assert(ok.to_set().contains(x));
                        let k = choose|k: int| 0 <= k < ok.len() && ok[k] == x;
                        assert(k != i);
                        let k2 = if k < i { k } else { k - 1 };
                        assert(self.keys@[k2] == x);
                    }
                    if self.keys@.to_set().contains(x) {
                        let k = choose|k: int| 0 <= k < self.keys@.len() && self.keys@[k] == x;
                        let k2 = if k < i { k } else { k + 1 };
                        assert(ok[k2] == x);
                        assert(ok.to_set().contains(x));
                        assert(k2 != i);
                    }
                }
                assert(self.contents@.dom() =~= self.keys@.to_set());
                assert forall|k: int| 0 <= k < self.keys@.len() implies self.contents@[#[trigger] self.keys@[k]]
                    == self.values@[k]@ by {
                    let k2 = if k < i { k } else { k + 1 };
                    assert(self.keys@[k] == ok[k2]);
                    assert(k2 != i);
                    assert(ok[k2] != ok[i as int]);
                }
            },
            None => {
                assert(self.contents@.remove(*h) =~= self.contents@);
            },
        }
    }
}

} // verus!
