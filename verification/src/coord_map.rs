//! A map keyed by chunk coordinate, stored as an association list with
//! distinct keys and viewed as a mathematical `Map`. The chunk counts this
//! protocol touches stay small (a few dozen live chunks around a player), so
//! a linear scan serves; in exchange every operation carries an exact
//! contract over the map view.

use vstd::prelude::*;

use crate::coords::ChunkCoord;

verus! {

/// The map a sequence of entries denotes; later entries win, though with
/// distinct keys the order never matters.
pub open spec fn map_of<V>(s: Seq<(ChunkCoord, V)>) -> Map<ChunkCoord, V>
    decreases s.len(),
{
    if s.len() == 0 {
        Map::empty()
    } else {
        map_of(s.drop_last()).insert(s.last().0, s.last().1)
    }
}

/// No key occurs twice.
pub open spec fn entries_distinct<V>(s: Seq<(ChunkCoord, V)>) -> bool {
    forall|i: int, j: int| 0 <= i < j < s.len() ==> (#[trigger] s[i]).0 != (#[trigger] s[j]).0
}

/// Whether `k` occurs among the entry keys.
pub open spec fn has_key<V>(s: Seq<(ChunkCoord, V)>, k: ChunkCoord) -> bool {
    exists|i: int| 0 <= i < s.len() && (#[trigger] s[i]).0 == k
}

pub proof fn lemma_map_of_dom<V>(s: Seq<(ChunkCoord, V)>)
    ensures
        forall|k: ChunkCoord| #[trigger] map_of(s).dom().contains(k) <==> has_key(s, k),
    decreases s.len(),
{
    if s.len() > 0 {
        lemma_map_of_dom(s.drop_last());
        assert forall|k: ChunkCoord| #[trigger] map_of(s).dom().contains(k) implies has_key(s, k) by {
            if k == s.last().0 {
                assert(s[s.len() - 1].0 == k);
            } else {
                assert(map_of(s.drop_last()).dom().contains(k));
                assert(has_key(s.drop_last(), k));
                let i = choose|i: int| 0 <= i < s.drop_last().len() && (#[trigger] s.drop_last()[i]).0 == k;
                assert(s[i].0 == k);
            }
        }
        assert forall|k: ChunkCoord| has_key(s, k) implies #[trigger] map_of(s).dom().contains(k) by {
            let i = choose|i: int| 0 <= i < s.len() && (#[trigger] s[i]).0 == k;
            if i < s.len() - 1 {
                assert(s.drop_last()[i].0 == k);
                assert(has_key(s.drop_last(), k));
                assert(map_of(s.drop_last()).dom().contains(k));
            } else {
                assert(k == s.last().0);
            }
        }
    }
}

pub proof fn lemma_map_of_index<V>(s: Seq<(ChunkCoord, V)>, i: int)
    requires
        entries_distinct(s),
        0 <= i < s.len(),
    ensures
        map_of(s).contains_pair(s[i].0, s[i].1),
    decreases s.len(),
{
    if i == s.len() - 1 {
    } else {
        assert(s.drop_last()[i] == s[i]);
        lemma_map_of_index(s.drop_last(), i);
    }
}

/// A chunk-keyed map with exact `Map` semantics.
#[derive(Debug)]
pub struct CoordMap<V> {
    pub entries: Vec<(ChunkCoord, V)>,
}

impl<V> View for CoordMap<V> {
    type V = Map<ChunkCoord, V>;

    open spec fn view(&self) -> Map<ChunkCoord, V> {
        map_of(self.entries@)
    }
}

impl<V> CoordMap<V> {
    pub open spec fn wf(&self) -> bool {
        entries_distinct(self.entries@)
    }

    /// The keys in storage order; the order all iteration follows.
    pub open spec fn key_seq(&self) -> Seq<ChunkCoord> {
        self.entries@.map_values(|e: (ChunkCoord, V)| e.0)
    }

    pub proof fn lemma_view(&self)
        requires
            self.wf(),
        ensures
            forall|k: ChunkCoord| #[trigger] self@.dom().contains(k) <==> self.key_seq().contains(k),
            forall|i: int|
                0 <= i < self.entries@.len() ==> self@.contains_pair(
                    (#[trigger] self.entries@[i]).0,
                    self.entries@[i].1,
                ),
    {
        lemma_map_of_dom(self.entries@);
        assert forall|k: ChunkCoord| has_key(self.entries@, k) implies self.key_seq().contains(k) by {
            let i = choose|i: int| 0 <= i < self.entries@.len() && (#[trigger] self.entries@[i]).0 == k;
            assert(self.key_seq()[i] == k);
        }
        assert forall|k: ChunkCoord| self.key_seq().contains(k) implies has_key(self.entries@, k) by {
            let i = choose|i: int| 0 <= i < self.key_seq().len() && self.key_seq()[i] == k;
            assert(self.entries@[i].0 == k);
        }
        assert forall|i: int| 0 <= i < self.entries@.len() implies self@.contains_pair(
            (#[trigger] self.entries@[i]).0,
            self.entries@[i].1,
        ) by {
            lemma_map_of_index(self.entries@, i);
        }
    }

    pub fn new() -> (r: CoordMap<V>)
        ensures
            r.wf(),
            r@ == Map::<ChunkCoord, V>::empty(),
            r.key_seq() == Seq::<ChunkCoord>::empty(),
    {
        let r = CoordMap { entries: Vec::new() };
        proof {
            assert(r.key_seq() =~= Seq::<ChunkCoord>::empty());
        }
        r
    }

    pub fn num_entries(&self) -> (n: usize)
        ensures
            n == self.key_seq().len(),
    {
        self.entries.len()
    }

    pub fn key_at(&self, i: usize) -> (k: ChunkCoord)
        requires
            i < self.key_seq().len(),
        ensures
            k == self.key_seq()[i as int],
    {
        self.entries[i].0
    }

    pub fn val_at(&self, i: usize) -> (v: &V)
        requires
            self.wf(),
            i < self.key_seq().len(),
        ensures
            self@.contains_pair(self.key_seq()[i as int], *v),
    {
        proof {
            lemma_map_of_index(self.entries@, i as int);
        }
        &self.entries[i].1
    }

    /// Replace the value at position `i`, leaving the key layout alone.
    pub fn set_val_at(&mut self, i: usize, v: V)
        requires
            old(self).wf(),
            i < old(self).key_seq().len(),
        ensures
            final(self).wf(),
            final(self)@ == old(self)@.insert(old(self).key_seq()[i as int], v),
            final(self).key_seq() == old(self).key_seq(),
    {
        let k = self.entries[i].0;
        self.entries.set(i, (k, v));
        proof {
            lemma_map_of_update(old(self).entries@, i as int, v);
            assert(final(self).key_seq() =~= old(self).key_seq());
        }
    }

    pub fn get(&self, k: ChunkCoord) -> (r: Option<&V>)
        requires
            self.wf(),
        ensures
            match r {
                Some(v) => self@.dom().contains(k) && *v == self@[k],
                None => !self@.dom().contains(k),
            },
    {
        proof {
            lemma_map_of_dom(self.entries@);
        }
        let n = self.entries.len();
        let mut i: usize = 0;
        while i < n
            invariant
                self.wf(),
                n == self.entries@.len(),
                i <= n,
                forall|j: int| 0 <= j < i ==> (#[trigger] self.entries@[j]).0 != k,
            decreases n - i,
        {
            if self.entries[i].0 == k {
                proof {
                    lemma_map_of_index(self.entries@, i as int);
                }
                return Some(&self.entries[i].1);
            }
            i += 1;
        }
        proof {
            assert(!has_key(self.entries@, k));
        }
        None
    }

    pub fn contains_key(&self, k: ChunkCoord) -> (r: bool)
        requires
            self.wf(),
        ensures
            r == self@.dom().contains(k),
    {
        self.get(k).is_some()
    }

    pub fn insert(&mut self, k: ChunkCoord, v: V)
        requires
            old(self).wf(),
        ensures
            final(self).wf(),
            final(self)@ == old(self)@.insert(k, v),
    {
        proof {
            lemma_map_of_dom(self.entries@);
        }
        let n = self.entries.len();
        let mut i: usize = 0;
        while i < n
            invariant
                self.wf(),
                *self == *old(self),
                n == self.entries@.len(),
                i <= n,
                forall|j: int| 0 <= j < i ==> (#[trigger] self.entries@[j]).0 != k,
            decreases n - i,
        {
            if self.entries[i].0 == k {
                self.entries.set(i, (k, v));
                proof {
                    lemma_map_of_update(old(self).entries@, i as int, v);
                }
                return;
            }
            i += 1;
        }
        self.entries.push((k, v));
        proof {
            assert(self.entries@.drop_last() =~= old(self).entries@);
            assert(!has_key(old(self).entries@, k));
            assert forall|a: int, b: int| 0 <= a < b < self.entries@.len() implies (
                #[trigger] self.entries@[a]).0 != (#[trigger] self.entries@[b]).0 by {
                if b == self.entries@.len() - 1 {
                    assert(self.entries@[a] == old(self).entries@[a]);
                }
            }
        }
    }

    pub fn remove(&mut self, k: ChunkCoord)
        requires
            old(self).wf(),
        ensures
            final(self).wf(),
            final(self)@ == old(self)@.remove(k),
            final(self).key_seq().len() == if old(self)@.dom().contains(k) {
                old(self).key_seq().len() - 1
            } else {
                old(self).key_seq().len() as int
            },
    {
        proof {
            lemma_map_of_dom(self.entries@);
        }
        let n = self.entries.len();
        let mut i: usize = 0;
        while i < n
            invariant
                self.wf(),
                *self == *old(self),
                n == self.entries@.len(),
                i <= n,
                forall|j: int| 0 <= j < i ==> (#[trigger] self.entries@[j]).0 != k,
            decreases n - i,
        {
            if self.entries[i].0 == k {
                proof {
                    lemma_map_of_dom(old(self).entries@);
                    assert(has_key(old(self).entries@, k));
                }
                self.entries.remove(i);
                proof {
                    lemma_map_of_remove(old(self).entries@, i as int);
                    assert(forall|a: int|
                        0 <= a < self.entries@.len() ==> #[trigger] self.entries@[a]
                            == if a < i { old(self).entries@[a] } else { old(self).entries@[a + 1] });
                }
                return;
            }
            i += 1;
        }
        proof {
            assert(!has_key(old(self).entries@, k));
            assert(old(self)@ =~= old(self)@.remove(k));
        }
    }

    /// Remove the entry for `k`, handing its value out.
    pub fn take(&mut self, k: ChunkCoord) -> (r: Option<V>)
        requires
            old(self).wf(),
        ensures
            final(self).wf(),
            final(self)@ == old(self)@.remove(k),
            match r {
                Some(v) => old(self)@.dom().contains(k) && v == old(self)@[k],
                None => !old(self)@.dom().contains(k),
            },
    {
        proof {
            lemma_map_of_dom(self.entries@);
        }
        let n = self.entries.len();
        let mut i: usize = 0;
        while i < n
            invariant
                self.wf(),
                *self == *old(self),
                n == self.entries@.len(),
                i <= n,
                forall|j: int| 0 <= j < i ==> (#[trigger] self.entries@[j]).0 != k,
            decreases n - i,
        {
            if self.entries[i].0 == k {
                proof {
                    lemma_map_of_index(self.entries@, i as int);
                    lemma_map_of_remove(old(self).entries@, i as int);
                }
                let e = self.entries.remove(i);
                proof {
                    assert(forall|a: int|
                        0 <= a < self.entries@.len() ==> #[trigger] self.entries@[a]
                            == if a < i { old(self).entries@[a] } else { old(self).entries@[a + 1] });
                }
                return Some(e.1);
            }
            i += 1;
        }
        proof {
            assert(!has_key(old(self).entries@, k));
            assert(old(self)@ =~= old(self)@.remove(k));
        }
        None
    }

    pub fn clear(&mut self)
        ensures
            final(self).wf(),
            final(self)@ == Map::<ChunkCoord, V>::empty(),
            final(self).key_seq() == Seq::<ChunkCoord>::empty(),
    {
        self.entries.clear();
        proof {
            assert(final(self).key_seq() =~= Seq::<ChunkCoord>::empty());
        }
    }
}

impl<V: Copy> CoordMap<V> {
    pub fn get_copy(&self, k: ChunkCoord) -> (r: Option<V>)
        requires
            self.wf(),
        ensures
            match r {
                Some(v) => self@.dom().contains(k) && v == self@[k],
                None => !self@.dom().contains(k),
            },
    {
        match self.get(k) {
            Some(v) => Some(*v),
            None => None,
        }
    }
}

proof fn lemma_map_of_update<V>(s: Seq<(ChunkCoord, V)>, i: int, v: V)
    requires
        entries_distinct(s),
        0 <= i < s.len(),
    ensures
        map_of(s.update(i, (s[i].0, v))) == map_of(s).insert(s[i].0, v),
    decreases s.len(),
{
    let t = s.update(i, (s[i].0, v));
    if i == s.len() - 1 {
        assert(t.drop_last() =~= s.drop_last());
        assert(map_of(t) =~= map_of(s).insert(s[i].0, v));
    } else {
        assert(t.drop_last() =~= s.drop_last().update(i, (s[i].0, v)));
        assert(s.drop_last()[i] == s[i]);
        lemma_map_of_update(s.drop_last(), i, v);
        assert(map_of(t) == map_of(s.drop_last()).insert(s[i].0, v).insert(s.last().0, s.last().1));
        assert(s[i].0 != s.last().0);
        assert(map_of(s.drop_last()).insert(s[i].0, v).insert(s.last().0, s.last().1)
            =~= map_of(s.drop_last()).insert(s.last().0, s.last().1).insert(s[i].0, v));
    }
}

proof fn lemma_map_of_remove<V>(s: Seq<(ChunkCoord, V)>, i: int)
    requires
        entries_distinct(s),
        0 <= i < s.len(),
    ensures
        map_of(s.remove(i)) == map_of(s).remove(s[i].0),
        entries_distinct(s.remove(i)),
    decreases s.len(),
{
    lemma_map_of_dom(s.drop_last());
    if i == s.len() - 1 {
        assert(s.remove(i) =~= s.drop_last());
        assert(!has_key(s.drop_last(), s[i].0));
        assert(map_of(s.drop_last()) =~= map_of(s.drop_last()).remove(s[i].0));
        assert(map_of(s).remove(s[i].0) =~= map_of(s.drop_last()).remove(s[i].0));
    } else {
        assert(s.remove(i).drop_last() =~= s.drop_last().remove(i));
        assert(s.remove(i).last() == s.last());
        assert(s.drop_last()[i] == s[i]);
        lemma_map_of_remove(s.drop_last(), i);
        assert(map_of(s.remove(i)) == map_of(s.drop_last()).remove(s[i].0).insert(s.last().0, s.last().1));
        assert(s[i].0 != s.last().0);
        assert(map_of(s.drop_last()).remove(s[i].0).insert(s.last().0, s.last().1)
            =~= map_of(s.drop_last()).insert(s.last().0, s.last().1).remove(s[i].0));
    }
}

} // verus!
