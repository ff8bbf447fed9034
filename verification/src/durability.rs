//! The material durability table an explosion ray consults:
//! material id to (minimum hardness tier, energy cost per pixel).

use vstd::prelude::*;

verus! {

/// First match wins; `set` puts new entries in front, so the latest setting
/// shadows older ones.
pub open spec fn dur_lookup(s: Seq<(u16, (u8, u32))>, m: u16) -> Option<(u8, u32)>
    decreases s.len(),
{
    if s.len() == 0 {
        None
    } else if s[0].0 == m {
        Some(s[0].1)
    } else {
        dur_lookup(s.drop_first(), m)
    }
}

/// Material id to (minimum hardness tier, energy cost per pixel).
#[derive(Debug)]
pub struct DurabilityMap {
    pub entries: Vec<(u16, (u8, u32))>,
}

impl View for DurabilityMap {
    type V = Seq<(u16, (u8, u32))>;

    open spec fn view(&self) -> Seq<(u16, (u8, u32))> {
        self.entries@
    }
}

impl DurabilityMap {
    pub fn new() -> (r: DurabilityMap)
        ensures
            r@ == Seq::<(u16, (u8, u32))>::empty(),
            forall|m: u16| dur_lookup(r@, m) is None,
    {
        let r = DurabilityMap { entries: Vec::new() };
        proof {
            assert(r@ =~= Seq::<(u16, (u8, u32))>::empty());
        }
        r
    }

    pub fn get(&self, m: u16) -> (r: Option<(u8, u32)>)
        ensures
            r == dur_lookup(self@, m),
    {
        let n = self.entries.len();
        let mut i: usize = 0;
        proof {
            assert(self@.skip(0) =~= self@);
        }
        while i < n
            invariant
                n == self@.len(),
                i <= n,
                dur_lookup(self@.skip(i as int), m) == dur_lookup(self@, m),
            decreases n - i,
        {
            if self.entries[i].0 == m {
                proof {
                    assert(self@.skip(i as int)[0] == self@[i as int]);
                }
                return Some(self.entries[i].1);
            }
            proof {
                assert(self@.skip(i as int).drop_first() =~= self@.skip(i + 1));
            }
            i += 1;
        }
        proof {
            assert(self@.skip(n as int).len() == 0);
        }
        None
    }

    /// Record that material `m` needs tier `min_tier` and costs `cost` energy
    /// per pixel.
    pub fn set(&mut self, m: u16, min_tier: u8, cost: u32)
        ensures
            dur_lookup(final(self)@, m) == Some((min_tier, cost)),
            forall|x: u16| x != m ==> dur_lookup(final(self)@, x) == dur_lookup(old(self)@, x),
    {
        self.entries.insert(0, (m, (min_tier, cost)));
        proof {
            assert(self@[0] == (m, (min_tier, cost)));
            assert(self@.drop_first() =~= old(self)@);
        }
    }
}

} // verus!
