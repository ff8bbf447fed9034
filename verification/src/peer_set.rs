//! The set of listeners an authoritative peer fans its updates out to:
//! a short vector of distinct peer ids, iterated in insertion order.

use vstd::prelude::*;

use crate::coords::PeerId;

verus! {

#[derive(Debug)]
pub struct PeerSet {
    pub els: Vec<PeerId>,
}

impl View for PeerSet {
    type V = Seq<PeerId>;

    open spec fn view(&self) -> Seq<PeerId> {
        self.els@
    }
}

impl PeerSet {
    pub open spec fn wf(&self) -> bool {
        forall|i: int, j: int| 0 <= i < j < self@.len() ==> self@[i] != self@[j]
    }

    pub fn new() -> (r: PeerSet)
        ensures
            r.wf(),
            r@ == Seq::<PeerId>::empty(),
    {
        let r = PeerSet { els: Vec::new() };
        proof {
            assert(r@ =~= Seq::<PeerId>::empty());
        }
        r
    }

    pub fn len(&self) -> (n: usize)
        ensures
            n == self@.len(),
    {
        self.els.len()
    }

    pub fn at(&self, i: usize) -> (p: PeerId)
        requires
            i < self@.len(),
        ensures
            p == self@[i as int],
            self@.contains(p),
    {
        self.els[i]
    }

    pub fn contains(&self, p: PeerId) -> (r: bool)
        ensures
            r == self@.contains(p),
    {
        let n = self.els.len();
        let mut i: usize = 0;
        while i < n
            invariant
                n == self@.len(),
                i <= n,
                forall|j: int| 0 <= j < i ==> self@[j] != p,
            decreases n - i,
        {
            if self.els[i] == p {
                return true;
            }
            i += 1;
        }
        false
    }

    /// Add `p` if it is not yet present.
    pub fn insert(&mut self, p: PeerId)
        requires
            old(self).wf(),
        ensures
            final(self).wf(),
            final(self)@ == if old(self)@.contains(p) {
                old(self)@
            } else {
                old(self)@.push(p)
            },
    {
        if !self.contains(p) {
            self.els.push(p);
        }
    }

    /// Drop `p` if it is present.
    pub fn remove(&mut self, p: PeerId)
        requires
            old(self).wf(),
        ensures
            final(self).wf(),
            !final(self)@.contains(p),
            forall|q: PeerId| q != p ==> final(self)@.contains(q) == old(self)@.contains(q),
    {
        let n = self.els.len();
        let mut i: usize = 0;
        while i < n
            invariant
                self.wf(),
                *self == *old(self),
                n == self@.len(),
                i <= n,
                forall|j: int| 0 <= j < i ==> self@[j] != p,
            decreases n - i,
        {
            if self.els[i] == p {
                self.els.remove(i);
                proof {
                    let s0 = old(self)@;
                    let s1 = self@;
                    assert(forall|a: int| 0 <= a < s1.len() ==> #[trigger] s1[a] == if a < i {
                        s0[a]
                    } else {
                        s0[a + 1]
                    });
                    assert forall|q: PeerId| q != p implies s1.contains(q) == s0.contains(q) by {
                        if s0.contains(q) {
                            let a = choose|a: int| 0 <= a < s0.len() && s0[a] == q;
                            if a < i {
                                assert(s1[a] == q);
                            } else {
                                assert(a != i);
                                assert(s1[a - 1] == q);
                            }
                        }
                        if s1.contains(q) {
                            let a = choose|a: int| 0 <= a < s1.len() && s1[a] == q;
                            if a < i {
                                assert(s0[a] == q);
                            } else {
                                assert(s0[a + 1] == q);
                            }
                        }
                    }
                    assert(!s1.contains(p)) by {
                        if s1.contains(p) {
                            let a = choose|a: int| 0 <= a < s1.len() && s1[a] == p;
                            if a < i {
                                assert(s0[a] == p);
                            } else {
                                assert(s0[a + 1] == p);
                                assert(i < a + 1 < s0.len());
                            }
                        }
                    }
                }
                return;
            }
            i += 1;
        }
    }

    /// An element-for-element copy.
    pub fn duplicate(&self) -> (r: PeerSet)
        ensures
            r@ == self@,
    {
        let mut els: Vec<PeerId> = Vec::new();
        let mut n: usize = 0;
        while n < self.els.len()
            invariant
                n <= self.els@.len(),
                els@ == self.els@.take(n as int),
            decreases self.els@.len() - n,
        {
            els.push(self.els[n]);
            assert(els@ =~= self.els@.take(n + 1));
            n += 1;
        }
        assert(els@ =~= self.els@);
        PeerSet { els }
    }
}

} // verus!
