//! A peer-local pixel-grid view of the world: decoded chunks plus change
//! tracking. Each peer keeps two of these: an inbound model absorbing what
//! remote peers send, and an outbound model fed by the local simulator.

use vstd::prelude::*;

use crate::coord_map::CoordMap;
use crate::coords::{ChunkCoord, CHUNK_LEN};
use crate::pixel::{apply_writes, writes_wf, ChunkData, ChunkDelta, NoitaWorldUpdate, Pixel};
use crate::util::{copy_vec, filled_vec};

verus! {

/// One decoded chunk with a per-pixel changed flag.
#[derive(Debug)]
pub struct ModelChunk {
    pub pixels: Vec<Pixel>,
    pub changed: Vec<bool>,
}

impl ModelChunk {
    pub open spec fn wf(&self) -> bool {
        &&& self.pixels@.len() == CHUNK_LEN
        &&& self.changed@.len() == CHUNK_LEN
    }
}

/// A chunk nobody has written yet: all pixels unknown.
pub open spec fn unknown_chunk() -> Seq<Pixel> {
    Seq::new(CHUNK_LEN as nat, |i: int| Pixel::unknown_spec())
}

/// All change flags down.
pub open spec fn no_flags() -> Seq<bool> {
    Seq::new(CHUNK_LEN as nat, |i: int| false)
}

/// Does any flag stand?
pub open spec fn any_changed(s: Seq<bool>) -> bool {
    exists|i: int| 0 <= i < s.len() && s[i]
}

/// The flags after writing `w`: every written index is now marked.
pub open spec fn marks(ch: Seq<bool>, w: Seq<(u16, Pixel)>) -> Seq<bool> {
    Seq::new(ch.len(), |i: int| ch[i] || exists|j: int| 0 <= j < w.len() && (#[trigger] w[j]).0 == i)
}

/// The pixel writes a chunk's change flags denote, in ascending index order,
/// over the first `n` pixels.
pub open spec fn delta_writes(p: Seq<Pixel>, ch: Seq<bool>, n: int) -> Seq<(u16, Pixel)>
    decreases n,
{
    if n <= 0 {
        Seq::empty()
    } else if ch[n - 1] {
        delta_writes(p, ch, n - 1).push((((n - 1) as u16), p[n - 1]))
    } else {
        delta_writes(p, ch, n - 1)
    }
}

#[derive(Debug)]
pub struct WorldModel {
    pub chunks: CoordMap<ModelChunk>,
    /// The coordinates written since change tracking was last reset, in
    /// first-write order.
    pub dirty: Vec<ChunkCoord>,
}

impl WorldModel {
    pub open spec fn wf(&self) -> bool {
        &&& self.chunks.wf()
        &&& forall|c: ChunkCoord|
            self.chunks@.dom().contains(c) ==> (#[trigger] self.chunks@[c]).wf()
        &&& forall|i: int, j: int|
            0 <= i < j < self.dirty@.len() ==> self.dirty@[i] != self.dirty@[j]
        &&& forall|i: int|
            0 <= i < self.dirty@.len() ==> self.chunks@.dom().contains(#[trigger] self.dirty@[i])
        &&& forall|c: ChunkCoord|
            self.chunks@.dom().contains(c) && any_changed((#[trigger] self.chunks@[c]).changed@)
                ==> self.dirty@.contains(c)
    }

    /// What each present chunk holds.
    pub open spec fn contents(&self) -> Map<ChunkCoord, Seq<Pixel>> {
        Map::new(
            |c: ChunkCoord| self.chunks@.dom().contains(c),
            |c: ChunkCoord| self.chunks@[c].pixels@,
        )
    }

    /// The change flags of chunk `c`; all down when the chunk is absent.
    pub open spec fn chunk_changed(&self, c: ChunkCoord) -> Seq<bool> {
        if self.chunks@.dom().contains(c) {
            self.chunks@[c].changed@
        } else {
            no_flags()
        }
    }

    /// The pixels a write to `c` starts from: the present chunk, or a fresh
    /// unknown one.
    pub open spec fn base_pixels(&self, c: ChunkCoord) -> Seq<Pixel> {
        if self.contents().dom().contains(c) {
            self.contents()[c]
        } else {
            unknown_chunk()
        }
    }

    pub fn new() -> (r: WorldModel)
        ensures
            r.wf(),
            r.contents() == Map::<ChunkCoord, Seq<Pixel>>::empty(),
            r.dirty@ == Seq::<ChunkCoord>::empty(),
    {
        let r = WorldModel { chunks: CoordMap::new(), dirty: Vec::new() };
        proof {
            assert(r.contents() =~= Map::<ChunkCoord, Seq<Pixel>>::empty());
            assert(r.dirty@ =~= Seq::<ChunkCoord>::empty());
        }
        r
    }

    /// Record `c` as written since the last tracking reset.
    fn mark_dirty(&mut self, c: ChunkCoord)
        ensures
            final(self).chunks == old(self).chunks,
            final(self).dirty@ == if old(self).dirty@.contains(c) {
                old(self).dirty@
            } else {
                old(self).dirty@.push(c)
            },
    {
        let n = self.dirty.len();
        let mut i: usize = 0;
        while i < n
            invariant
                *self == *old(self),
                n == self.dirty@.len(),
                i <= n,
                forall|j: int| 0 <= j < i ==> self.dirty@[j] != c,
            decreases n - i,
        {
            if self.dirty[i] == c {
                return;
            }
            i += 1;
        }
        self.dirty.push(c);
    }

    /// Fold one simulator edit into the model, creating the chunk if absent.
    pub fn apply_noita_update(&mut self, u: &NoitaWorldUpdate)
        requires
            old(self).wf(),
            u.wf(),
        ensures
            final(self).wf(),
            final(self).contents() == old(self).contents().insert(
                u.coord,
                apply_writes(old(self).base_pixels(u.coord), u.writes@),
            ),
            final(self).chunk_changed(u.coord) == marks(
                if old(self).contents().dom().contains(u.coord) {
                    old(self).chunk_changed(u.coord)
                } else {
                    no_flags()
                },
                u.writes@,
            ),
            forall|x: ChunkCoord|
                x != u.coord ==> final(self).chunk_changed(x) == old(self).chunk_changed(x),
            forall|x: ChunkCoord|
                final(self).dirty@.contains(x) <==> old(self).dirty@.contains(x) || x == u.coord,
    {
        self.write_chunk(u.coord, &u.writes);
    }

    /// Fold one remote delta into the model, creating the chunk if absent.
    pub fn apply_chunk_delta(&mut self, d: &ChunkDelta)
        requires
            old(self).wf(),
            d.wf(),
        ensures
            final(self).wf(),
            final(self).contents() == old(self).contents().insert(
                d.chunk_coord,
                apply_writes(old(self).base_pixels(d.chunk_coord), d.writes@),
            ),
            forall|x: ChunkCoord|
                x != d.chunk_coord ==> final(self).chunk_changed(x) == old(self).chunk_changed(x),
            forall|x: ChunkCoord|
                final(self).dirty@.contains(x) <==> old(self).dirty@.contains(x) || x
                    == d.chunk_coord,
    {
        self.write_chunk(d.chunk_coord, &d.writes);
    }

    /// The shared write path: apply in-chunk writes at `c` and mark it.
    fn write_chunk(&mut self, c: ChunkCoord, writes: &Vec<(u16, Pixel)>)
        requires
            old(self).wf(),
            writes_wf(writes@),
        ensures
            final(self).wf(),
            final(self).contents() == old(self).contents().insert(
                c,
                apply_writes(old(self).base_pixels(c), writes@),
            ),
            final(self).chunk_changed(c) == marks(
                if old(self).contents().dom().contains(c) {
                    old(self).chunk_changed(c)
                } else {
                    no_flags()
                },
                writes@,
            ),
            forall|x: ChunkCoord|
                x != c ==> final(self).chunk_changed(x) == old(self).chunk_changed(x),
            forall|x: ChunkCoord|
                final(self).dirty@.contains(x) <==> old(self).dirty@.contains(x) || x == c,
    {
        let mut mc = match self.chunks.take(c) {
            Some(m) => m,
            None => ModelChunk {
                pixels: filled_vec(Pixel::unknown(), CHUNK_LEN),
                changed: filled_vec(false, CHUNK_LEN),
            },
        };
        proof {
            assert(mc.pixels@ =~= old(self).base_pixels(c));
            if !old(self).contents().dom().contains(c) {
                assert(mc.changed@ =~= no_flags());
            }
        }
        write_pixels(&mut mc, writes);
        self.chunks.insert(c, mc);
        self.mark_dirty(c);
        proof {
            assert(final(self).contents() =~= old(self).contents().insert(
                c,
                apply_writes(old(self).base_pixels(c), writes@),
            ));
            assert(final(self).chunks@ =~= old(self).chunks@.insert(c, final(self).chunks@[c]));
            lemma_dirty_step(*old(self), *final(self), c, final(self).chunks@[c]);
        }
    }

    /// Overwrite chunk `c` with a full snapshot, marking every pixel changed.
    pub fn apply_chunk_data(&mut self, c: ChunkCoord, data: &ChunkData)
        requires
            old(self).wf(),
            data.wf(),
        ensures
            final(self).wf(),
            final(self).contents() == old(self).contents().insert(c, data@),
            final(self).chunk_changed(c) == Seq::new(CHUNK_LEN as nat, |i: int| true),
            forall|x: ChunkCoord|
                x != c ==> final(self).chunk_changed(x) == old(self).chunk_changed(x),
            forall|x: ChunkCoord|
                final(self).dirty@.contains(x) <==> old(self).dirty@.contains(x) || x == c,
    {
        let mc = ModelChunk { pixels: copy_vec(&data.pixels), changed: filled_vec(true, CHUNK_LEN) };
        proof {
            assert(mc.changed@ =~= Seq::new(CHUNK_LEN as nat, |i: int| true));
        }
        self.chunks.insert(c, mc);
        self.mark_dirty(c);
        proof {
            assert(final(self).chunks@ =~= old(self).chunks@.insert(c, final(self).chunks@[c]));
            lemma_dirty_step(*old(self), *final(self), c, final(self).chunks@[c]);
            assert(final(self).chunk_changed(c) =~= Seq::new(CHUNK_LEN as nat, |i: int| true));
            assert(final(self).contents() =~= old(self).contents().insert(c, data@));
        }
    }

    /// The full snapshot of chunk `c`, if the model holds it.
    pub fn get_chunk_data(&self, c: ChunkCoord) -> (r: Option<ChunkData>)
        requires
            self.wf(),
        ensures
            match r {
                Some(d) => self.contents().dom().contains(c) && d@ == self.contents()[c] && d.wf(),
                None => !self.contents().dom().contains(c),
            },
    {
        match self.chunks.get(c) {
            Some(mc) => Some(ChunkData { pixels: copy_vec(&mc.pixels) }),
            None => None,
        }
    }

    /// The delta of chunk `c` since tracking was last reset; `None` when the
    /// chunk is absent or unchanged.
    pub fn get_chunk_delta(&self, c: ChunkCoord) -> (r: Option<ChunkDelta>)
        requires
            self.wf(),
        ensures
            match r {
                Some(d) => {
                    &&& self.contents().dom().contains(c)
                    &&& d.chunk_coord == c
                    &&& d.writes@ == delta_writes(
                        self.contents()[c],
                        self.chunk_changed(c),
                        CHUNK_LEN as int,
                    )
                    &&& d.wf()
                    &&& d.writes@.len() > 0
                },
                None => !self.contents().dom().contains(c) || !any_changed(self.chunk_changed(c)),
            },
    {
        match self.chunks.get(c) {
            Some(mc) => {
                let writes = build_writes(mc);
                if writes.len() == 0 {
                    proof {
                        lemma_delta_writes_any(mc.pixels@, mc.changed@, CHUNK_LEN as int);
                    }
                    None
                } else {
                    proof {
                        lemma_delta_writes_any(mc.pixels@, mc.changed@, CHUNK_LEN as int);
                        lemma_delta_writes_wf(mc.pixels@, mc.changed@, CHUNK_LEN as int);
                    }
                    Some(ChunkDelta { chunk_coord: c, writes })
                }
            },
            None => None,
        }
    }

    /// The coordinates written since the last tracking reset.
    pub fn updated_chunks(&self) -> (r: Vec<ChunkCoord>)
        ensures
            r@ == self.dirty@,
    {
        copy_vec(&self.dirty)
    }

    /// Lower every change flag and forget the dirty list; contents stay.
    pub fn reset_change_tracking(&mut self)
        requires
            old(self).wf(),
        ensures
            final(self).wf(),
            final(self).contents() == old(self).contents(),
            final(self).dirty@ == Seq::<ChunkCoord>::empty(),
            forall|c: ChunkCoord| !any_changed(final(self).chunk_changed(c)),
    {
        loop
            invariant
                self.chunks.wf(),
                forall|c: ChunkCoord|
                    self.chunks@.dom().contains(c) ==> (#[trigger] self.chunks@[c]).wf(),
                forall|i: int, j: int|
                    0 <= i < j < self.dirty@.len() ==> self.dirty@[i] != self.dirty@[j],
                forall|i: int|
                    0 <= i < self.dirty@.len() ==> self.chunks@.dom().contains(
                        #[trigger] self.dirty@[i],
                    ),
                forall|c: ChunkCoord|
                    self.chunks@.dom().contains(c) && any_changed(
                        (#[trigger] self.chunks@[c]).changed@,
                    ) ==> self.dirty@.contains(c),
                self.contents() == old(self).contents(),
            ensures
                self.wf(),
                self.contents() == old(self).contents(),
                self.dirty@.len() == 0,
            decreases self.dirty@.len(),
        {
            let ghost pre = *self;
            let c = match self.dirty.pop() {
                Some(c) => c,
                None => {
                    break;
                },
            };
            proof {
                assert(pre.dirty@[pre.dirty@.len() - 1] == c);
            }
            let mut mc = match self.chunks.take(c) {
                Some(m) => m,
                None => {
                    // Unreachable: dirty coordinates always name present chunks.
                    proof {
                        assert(false);
                    }
                    ModelChunk { pixels: Vec::new(), changed: Vec::new() }
                },
            };
            mc.changed = filled_vec(false, CHUNK_LEN);
            self.chunks.insert(c, mc);
            proof {
                assert(self.contents() =~= pre.contents());
                assert(!any_changed(self.chunks@[c].changed@));
                assert forall|c2: ChunkCoord|
                    self.chunks@.dom().contains(c2) && any_changed(
                        (#[trigger] self.chunks@[c2]).changed@,
                    ) implies self.dirty@.contains(c2) by {
                    assert(c2 != c);
                    assert(pre.chunks@[c2] == self.chunks@[c2]);
                    assert(pre.dirty@.contains(c2));
                    let a = choose|a: int| 0 <= a < pre.dirty@.len() && pre.dirty@[a] == c2;
                    assert(a != pre.dirty@.len() - 1);
                    assert(self.dirty@[a] == c2);
                }
            }
        }
        proof {
            assert forall|c: ChunkCoord| !any_changed(final(self).chunk_changed(c)) by {
                if self.chunks@.dom().contains(c) {
                    if any_changed(self.chunks@[c].changed@) {
                        assert(self.dirty@.contains(c));
                    }
                } else {
                    assert(final(self).chunk_changed(c) =~= no_flags());
                    if any_changed(no_flags()) {
                        let i = choose|i: int| 0 <= i < no_flags().len() && no_flags()[i];
                        assert(false);
                    }
                }
            }
            assert(final(self).dirty@ =~= Seq::<ChunkCoord>::empty());
        }
    }

    /// Drop chunk `c` entirely.
    pub fn forget_chunk(&mut self, c: ChunkCoord)
        requires
            old(self).wf(),
        ensures
            final(self).wf(),
            final(self).contents() == old(self).contents().remove(c),
            forall|x: ChunkCoord|
                final(self).dirty@.contains(x) <==> old(self).dirty@.contains(x) && x != c,
    {
        self.chunks.remove(c);
        let n = self.dirty.len();
        let mut i: usize = 0;
        let ghost mid = *self;
        proof {
            assert(self.contents() =~= old(self).contents().remove(c));
        }
        while i < n
            invariant
                self.chunks == mid.chunks,
                self.chunks.wf(),
                self.dirty == mid.dirty,
                mid.dirty == old(self).dirty,
                mid.chunks@ == old(self).chunks@.remove(c),
                old(self).wf(),
                n == self.dirty@.len(),
                i <= n,
                forall|j: int| 0 <= j < i ==> self.dirty@[j] != c,
            decreases n - i,
        {
            if self.dirty[i] == c {
                self.dirty.remove(i);
                proof {
                    let s0 = mid.dirty@;
                    let s1 = self.dirty@;
                    assert(forall|a: int| 0 <= a < s1.len() ==> #[trigger] s1[a] == if a < i {
                        s0[a]
                    } else {
                        s0[a + 1]
                    });
                    assert forall|x: ChunkCoord|
                        s1.contains(x) <==> s0.contains(x) && x != c by {
                        if s0.contains(x) && x != c {
                            let a = choose|a: int| 0 <= a < s0.len() && s0[a] == x;
                            if a < i {
                                assert(s1[a] == x);
                            } else {
                                assert(a != i);
                                assert(s1[a - 1] == x);
                            }
                        }
                        if s1.contains(x) {
                            let a = choose|a: int| 0 <= a < s1.len() && s1[a] == x;
                            if a < i {
                                assert(s0[a] == x);
                            } else {
                                assert(s0[a + 1] == x);
                                assert(i < a + 1 < s0.len());
                            }
                            if x == c {
                                if a < i {
                                } else {
                                    assert(s0[i as int] == c);
                                    assert(false);
                                }
                            }
                        }
                    }
                    assert forall|a: int, b: int| 0 <= a < b < s1.len() implies s1[a] != s1[b] by {
                        let a0 = if a < i { a } else { a + 1 };
                        let b0 = if b < i { b } else { b + 1 };
                        assert(s1[a] == s0[a0] && s1[b] == s0[b0]);
                    }
                    lemma_forget_wf(*old(self), *final(self), c);
                }
                return;
            }
            i += 1;
        }
        proof {
            assert(!self.dirty@.contains(c));
            assert forall|x: ChunkCoord|
                final(self).dirty@.contains(x) <==> old(self).dirty@.contains(x) && x != c by {
                if self.dirty@.contains(x) && x == c {
                    assert(false);
                }
            }
            lemma_forget_wf(*old(self), *final(self), c);
        }
    }

    /// Drop everything.
    pub fn reset(&mut self)
        ensures
            final(self).wf(),
            final(self).contents() == Map::<ChunkCoord, Seq<Pixel>>::empty(),
            final(self).dirty@ == Seq::<ChunkCoord>::empty(),
    {
        self.chunks.clear();
        self.dirty.clear();
        proof {
            assert(final(self).contents() =~= Map::<ChunkCoord, Seq<Pixel>>::empty());
            assert(final(self).dirty@ =~= Seq::<ChunkCoord>::empty());
        }
    }

    /// One update per dirty chunk, carrying its changed pixels, for the
    /// simulator to replay.
    pub fn all_updates(&self) -> (r: Vec<NoitaWorldUpdate>)
        requires
            self.wf(),
        ensures
            r@.len() == self.dirty@.len(),
            forall|i: int|
                0 <= i < r@.len() ==> {
                    &&& (#[trigger] r@[i]).coord == self.dirty@[i]
                    &&& r@[i].writes@ == delta_writes(
                        self.contents()[self.dirty@[i]],
                        self.chunk_changed(self.dirty@[i]),
                        CHUNK_LEN as int,
                    )
                },
    {
        let mut r: Vec<NoitaWorldUpdate> = Vec::new();
        let n = self.dirty.len();
        let mut i: usize = 0;
        while i < n
            invariant
                self.wf(),
                n == self.dirty@.len(),
                i <= n,
                r@.len() == i,
                forall|j: int|
                    0 <= j < i ==> {
                        &&& (#[trigger] r@[j]).coord == self.dirty@[j]
                        &&& r@[j].writes@ == delta_writes(
                            self.contents()[self.dirty@[j]],
                            self.chunk_changed(self.dirty@[j]),
                            CHUNK_LEN as int,
                        )
                    },
            decreases n - i,
        {
            let c = self.dirty[i];
            let mc = match self.chunks.get(c) {
                Some(m) => m,
                None => {
                    proof {
                        assert(false);
                    }
                    // Unreachable: dirty coordinates always name present chunks.
                    return r;
                },
            };
            let writes = build_writes(mc);
            r.push(NoitaWorldUpdate { coord: c, writes });
            i += 1;
        }
        r
    }
}

/// Removing a chunk and its dirty record keeps a model well formed.
proof fn lemma_forget_wf(pre: WorldModel, post: WorldModel, c: ChunkCoord)
    requires
        pre.wf(),
        post.chunks.wf(),
        post.chunks@ == pre.chunks@.remove(c),
        forall|x: ChunkCoord| post.dirty@.contains(x) <==> pre.dirty@.contains(x) && x != c,
        forall|i: int, j: int| 0 <= i < j < post.dirty@.len() ==> post.dirty@[i] != post.dirty@[j],
    ensures
        post.wf(),
{
    assert forall|i: int|
        0 <= i < post.dirty@.len() implies post.chunks@.dom().contains(
        #[trigger] post.dirty@[i],
    ) by {
        let x = post.dirty@[i];
        assert(post.dirty@.contains(x));
        assert(pre.dirty@.contains(x) && x != c);
        let a = choose|a: int| 0 <= a < pre.dirty@.len() && pre.dirty@[a] == x;
        assert(pre.chunks@.dom().contains(x));
    }
    assert forall|x: ChunkCoord|
        post.chunks@.dom().contains(x) && any_changed((#[trigger] post.chunks@[x]).changed@)
            implies post.dirty@.contains(x) by {
        assert(x != c);
        assert(pre.chunks@[x] == post.chunks@[x]);
        assert(pre.dirty@.contains(x));
    }
}

/// Inserting one well-formed chunk and marking it dirty keeps a model well
/// formed.
proof fn lemma_dirty_step(pre: WorldModel, post: WorldModel, c: ChunkCoord, v: ModelChunk)
    requires
        pre.wf(),
        post.chunks.wf(),
        post.chunks@ == pre.chunks@.insert(c, v),
        v.wf(),
        post.dirty@ == if pre.dirty@.contains(c) {
            pre.dirty@
        } else {
            pre.dirty@.push(c)
        },
    ensures
        post.wf(),
        forall|x: ChunkCoord| post.dirty@.contains(x) <==> pre.dirty@.contains(x) || x == c,
{
    assert forall|x: ChunkCoord| post.dirty@.contains(x) <==> pre.dirty@.contains(x) || x == c by {
        if pre.dirty@.contains(c) {
        } else {
            let s = pre.dirty@;
            if s.contains(x) {
                let a = choose|a: int| 0 <= a < s.len() && s[a] == x;
                assert(s.push(c)[a] == x);
            }
            if x == c {
                assert(s.push(c)[s.len() as int] == c);
            }
            if s.push(c).contains(x) {
                let a = choose|a: int| 0 <= a < s.push(c).len() && s.push(c)[a] == x;
                if a < s.len() {
                    assert(s[a] == x);
                }
            }
        }
    }
    assert forall|i: int, j: int| 0 <= i < j < post.dirty@.len() implies post.dirty@[i]
        != post.dirty@[j] by {
        if !pre.dirty@.contains(c) && j == post.dirty@.len() - 1 {
            assert(pre.dirty@[i] == post.dirty@[i]);
        }
    }
    assert forall|i: int|
        0 <= i < post.dirty@.len() implies post.chunks@.dom().contains(
        #[trigger] post.dirty@[i],
    ) by {
        if !(pre.dirty@.contains(c)) && i == post.dirty@.len() - 1 {
        } else {
            assert(pre.dirty@[i] == post.dirty@[i]);
        }
    }
    assert forall|x: ChunkCoord|
        post.chunks@.dom().contains(x) && any_changed((#[trigger] post.chunks@[x]).changed@)
            implies post.dirty@.contains(x) by {
        if x != c {
            assert(pre.chunks@[x] == post.chunks@[x]);
            assert(pre.dirty@.contains(x));
        }
    }
}

/// Apply `writes` to a decoded chunk, raising the touched flags.
fn write_pixels(mc: &mut ModelChunk, writes: &Vec<(u16, Pixel)>)
    requires
        old(mc).wf(),
        writes_wf(writes@),
    ensures
        final(mc).wf(),
        final(mc).pixels@ == apply_writes(old(mc).pixels@, writes@),
        final(mc).changed@ == marks(old(mc).changed@, writes@),
{
    let n = writes.len();
    let mut k: usize = 0;
    proof {
        assert(writes@.take(0) =~= Seq::<(u16, Pixel)>::empty());
        assert(mc.changed@ =~= marks(old(mc).changed@, writes@.take(0)));
    }
    while k < n
        invariant
            mc.wf(),
            n == writes@.len(),
            k <= n,
            writes_wf(writes@),
            mc.pixels@ == apply_writes(old(mc).pixels@, writes@.take(k as int)),
            mc.changed@ == marks(old(mc).changed@, writes@.take(k as int)),
        decreases n - k,
    {
        let (idx, p) = writes[k];
        proof {
            assert(writes@[k as int].0 < CHUNK_LEN);
        }
        write_one(mc, idx as usize, p);
        proof {
            let wk = writes@.take(k as int);
            let wk1 = writes@.take(k + 1);
            assert(wk1.drop_last() =~= wk);
            assert(wk1.last() == writes@[k as int]);
            assert(mc.pixels@ == apply_writes(old(mc).pixels@, wk1));
            assert forall|i: int| 0 <= i < CHUNK_LEN implies marks(old(mc).changed@, wk1)[i]
                == marks(old(mc).changed@, wk).update(idx as int, true)[i] by {
                if i == idx as int {
                    assert(wk1[k as int].0 == idx);
                } else {
                    if exists|j: int| 0 <= j < wk1.len() && (#[trigger] wk1[j]).0 == i {
                        let j = choose|j: int| 0 <= j < wk1.len() && (#[trigger] wk1[j]).0 == i;
                        assert(j < wk.len());
                        assert(wk[j].0 == i);
                    }
                    if exists|j: int| 0 <= j < wk.len() && (#[trigger] wk[j]).0 == i {
                        let j = choose|j: int| 0 <= j < wk.len() && (#[trigger] wk[j]).0 == i;
                        assert(wk1[j].0 == i);
                    }
                }
            }
            assert(mc.changed@ =~= marks(old(mc).changed@, wk1));
        }
        k += 1;
    }
    proof {
        assert(writes@.take(n as int) =~= writes@);
    }
}

/// Write one pixel and raise its flag.
fn write_one(mc: &mut ModelChunk, idx: usize, p: Pixel)
    requires
        old(mc).wf(),
        idx < CHUNK_LEN,
    ensures
        final(mc).wf(),
        final(mc).pixels@ == old(mc).pixels@.update(idx as int, p),
        final(mc).changed@ == old(mc).changed@.update(idx as int, true),
{
    mc.pixels.set(idx, p);
    mc.changed.set(idx, true);
}

/// Collect the changed pixels of a chunk as delta writes.
fn build_writes(mc: &ModelChunk) -> (r: Vec<(u16, Pixel)>)
    requires
        mc.wf(),
    ensures
        r@ == delta_writes(mc.pixels@, mc.changed@, CHUNK_LEN as int),
{
    let mut r: Vec<(u16, Pixel)> = Vec::new();
    let mut i: usize = 0;
    while i < CHUNK_LEN
        invariant
            mc.wf(),
            i <= CHUNK_LEN,
            r@ == delta_writes(mc.pixels@, mc.changed@, i as int),
        decreases CHUNK_LEN - i,
    {
        if mc.changed[i] {
            r.push((i as u16, mc.pixels[i]));
        }
        i += 1;
    }
    r
}

/// `delta_writes` is empty exactly when no flag stands below `n`.
pub proof fn lemma_delta_writes_any(p: Seq<Pixel>, ch: Seq<bool>, n: int)
    requires
        0 <= n <= ch.len(),
    ensures
        delta_writes(p, ch, n).len() == 0 <==> !exists|i: int| 0 <= i < n && ch[i],
    decreases n,
{
    if n > 0 {
        lemma_delta_writes_any(p, ch, n - 1);
        if ch[n - 1] {
        } else {
            if exists|i: int| 0 <= i < n && ch[i] {
                let i = choose|i: int| 0 <= i < n && ch[i];
                assert(0 <= i < n - 1 && ch[i]);
            }
        }
    }
}

/// Every index a delta write names is in range.
proof fn lemma_delta_writes_wf(p: Seq<Pixel>, ch: Seq<bool>, n: int)
    requires
        0 <= n <= CHUNK_LEN,
    ensures
        writes_wf(delta_writes(p, ch, n)),
    decreases n,
{
    if n > 0 {
        lemma_delta_writes_wf(p, ch, n - 1);
        let w = delta_writes(p, ch, n);
        let w0 = delta_writes(p, ch, n - 1);
        if ch[n - 1] {
            assert forall|i: int| 0 <= i < w.len() implies (#[trigger] w[i]).0 < CHUNK_LEN by {
                if i < w0.len() {
                    assert(w[i] == w0[i]);
                }
            }
        }
    }
}

} // verus!
