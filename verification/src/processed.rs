//! The set of transaction hashes already handled.
use vstd::prelude::*;
use crate::ascii::bytes_eq;

verus! {

/// Transaction hashes (32 bytes each) that a watcher has already acted on.
pub struct ProcessedTxs {
    hashes: Vec<[u8; 32]>,
}

impl View for ProcessedTxs {
    type V = Set<Seq<u8>>;

    closed spec fn view(&self) -> Set<Seq<u8>> {
        Set::new(|h: Seq<u8>| exists|i: int| 0 <= i < self.hashes@.len() && self.hashes@[i]@ == h)
    }
}

impl ProcessedTxs {
    /// An empty set.
    pub fn new() -> (r: ProcessedTxs)
        ensures
            r@ == Set::<Seq<u8>>::empty(),
    {
        let r = ProcessedTxs { hashes: Vec::new() };
        assert(r@ =~= Set::<Seq<u8>>::empty());
        r
    }

    /// Whether `hash` is in the set.
    pub fn contains(&self, hash: &[u8; 32]) -> (r: bool)
        ensures
            r == self@.contains(hash@),
    {
        let n = self.hashes.len();
        let mut i: usize = 0;
        while i < n
            invariant
                n == self.hashes@.len(),
                i <= n,
                forall|j: int| 0 <= j < i ==> self.hashes@[j]@ != hash@,
            decreases n - i,
        {
            if bytes_eq(self.hashes[i].as_slice(), hash.as_slice()) {
                assert(self.hashes@[i as int]@ == hash@);
                return true;
            }
            i = i + 1;
        }
        assert(!self@.contains(hash@));
        false
    }

    /// Adds `hash`; returns whether it was absent before.
    pub fn insert(&mut self, hash: [u8; 32]) -> (r: bool)
        ensures
            r == !old(self)@.contains(hash@),
            final(self)@ == old(self)@.insert(hash@),
    {
        if self.contains(&hash) {
            assert(self@ =~= self@.insert(hash@));
            false
        } else {
            let ghost before = self.hashes@;
            self.hashes.push(hash);
            assert(self.hashes@[before.len() as int] == hash);
            assert forall|h: Seq<u8>| #[trigger] self@.contains(h) == old(self)@.insert(
                hash@,
            ).contains(h) by {
                if old(self)@.contains(h) {
                    let i = choose|i: int| 0 <= i < before.len() && before[i]@ == h;
                    assert(self.hashes@[i] == before[i]);
                }
                if self@.contains(h) && h != hash@ {
                    let i = choose|i: int| 0 <= i < self.hashes@.len() && self.hashes@[i]@ == h;
                    assert(i < before.len());
                    assert(before[i] == self.hashes@[i]);
                }
            }
            assert(self@ =~= old(self)@.insert(hash@));
            true
        }
    }
}

} // verus!
