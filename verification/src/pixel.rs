//! Pixels and the encoded forms in which chunk contents travel: full
//! snapshots (`ChunkData`), incremental edits (`ChunkDelta`), and the
//! simulator-facing update (`NoitaWorldUpdate`).

use vstd::prelude::*;

use crate::coords::{ChunkCoord, CHUNK_LEN};

verus! {

/// Classification of a pixel, as the simulator reports it.
#[derive(Clone, Copy, PartialEq, Eq, Structural, Debug)]
pub enum PixelFlags {
    /// Never observed; the placeholder the world starts from.
    Unknown,
    /// An ordinary solid or empty pixel.
    Normal,
    /// A liquid pixel.
    Fluid,
}

/// One world pixel: its classification and its material id.
/// Material 0 is air.
#[derive(Clone, Copy, PartialEq, Eq, Structural, Debug)]
pub struct Pixel {
    pub flags: PixelFlags,
    pub material: u16,
}

impl Pixel {
    /// The pixel terraforming writes: ordinary air.
    pub open spec fn air_spec() -> Pixel {
        Pixel { flags: PixelFlags::Normal, material: 0 }
    }

    /// The pixel a fresh chunk is filled with.
    pub open spec fn unknown_spec() -> Pixel {
        Pixel { flags: PixelFlags::Unknown, material: 0 }
    }

    pub fn air() -> (p: Pixel)
        ensures
            p == Pixel::air_spec(),
    {
        Pixel { flags: PixelFlags::Normal, material: 0 }
    }

    pub fn unknown() -> (p: Pixel)
        ensures
            p == Pixel::unknown_spec(),
    {
        Pixel { flags: PixelFlags::Unknown, material: 0 }
    }
}

/// A full snapshot of one chunk: exactly `CHUNK_LEN` pixels, row-major.
#[derive(Debug)]
pub struct ChunkData {
    pub pixels: Vec<Pixel>,
}

impl View for ChunkData {
    type V = Seq<Pixel>;

    open spec fn view(&self) -> Seq<Pixel> {
        self.pixels@
    }
}

impl ChunkData {
    pub open spec fn wf(&self) -> bool {
        self@.len() == CHUNK_LEN
    }

    /// A chunk filled with one pixel value.
    pub fn filled(p: Pixel) -> (r: ChunkData)
        ensures
            r.wf(),
            forall|i: int| 0 <= i < CHUNK_LEN ==> r@[i] == p,
    {
        let mut pixels: Vec<Pixel> = Vec::new();
        let mut n: usize = 0;
        while n < CHUNK_LEN
            invariant
                n <= CHUNK_LEN,
                pixels@.len() == n,
                forall|i: int| 0 <= i < n ==> pixels@[i] == p,
            decreases CHUNK_LEN - n,
        {
            pixels.push(p);
            n += 1;
        }
        ChunkData { pixels }
    }

    /// An element-for-element copy.
    pub fn duplicate(&self) -> (r: ChunkData)
        ensures
            r@ == self@,
    {
        let mut pixels: Vec<Pixel> = Vec::new();
        let mut n: usize = 0;
        while n < self.pixels.len()
            invariant
                n <= self.pixels@.len(),
                pixels@ == self.pixels@.take(n as int),
            decreases self.pixels@.len() - n,
        {
            pixels.push(self.pixels[n]);
            assert(pixels@ =~= self.pixels@.take(n + 1));
            n += 1;
        }
        assert(pixels@ =~= self.pixels@);
        ChunkData { pixels }
    }
}

/// The effect of writing `w` onto `base`, in order; later writes win.
pub open spec fn apply_writes(base: Seq<Pixel>, w: Seq<(u16, Pixel)>) -> Seq<Pixel>
    decreases w.len(),
{
    if w.len() == 0 {
        base
    } else {
        apply_writes(base, w.drop_last()).update(w.last().0 as int, w.last().1)
    }
}

/// A list of in-chunk pixel writes is well formed when every index is in
/// range.
pub open spec fn writes_wf(w: Seq<(u16, Pixel)>) -> bool {
    forall|i: int| 0 <= i < w.len() ==> (#[trigger] w[i]).0 < CHUNK_LEN
}

pub proof fn lemma_apply_writes_len(base: Seq<Pixel>, w: Seq<(u16, Pixel)>)
    requires
        base.len() == CHUNK_LEN,
        writes_wf(w),
    ensures
        apply_writes(base, w).len() == CHUNK_LEN,
    decreases w.len(),
{
    if w.len() > 0 {
        lemma_apply_writes_len(base, w.drop_last());
    }
}

/// An incremental edit to one chunk: pixel writes at in-chunk indices.
#[derive(Debug)]
pub struct ChunkDelta {
    pub chunk_coord: ChunkCoord,
    pub writes: Vec<(u16, Pixel)>,
}

impl ChunkDelta {
    pub open spec fn wf(&self) -> bool {
        writes_wf(self.writes@)
    }

    /// A copy sharing nothing with the original.
    pub fn duplicate(&self) -> (r: ChunkDelta)
        ensures
            r.chunk_coord == self.chunk_coord,
            r.writes@ == self.writes@,
    {
        let mut writes: Vec<(u16, Pixel)> = Vec::new();
        let mut n: usize = 0;
        while n < self.writes.len()
            invariant
                n <= self.writes@.len(),
                writes@ == self.writes@.take(n as int),
            decreases self.writes@.len() - n,
        {
            writes.push(self.writes[n]);
            assert(writes@ =~= self.writes@.take(n + 1));
            n += 1;
        }
        assert(writes@ =~= self.writes@);
        ChunkDelta { chunk_coord: self.chunk_coord, writes }
    }
}

/// One simulator-produced edit: pixel writes within a single chunk.
#[derive(Debug)]
pub struct NoitaWorldUpdate {
    pub coord: ChunkCoord,
    pub writes: Vec<(u16, Pixel)>,
}

impl NoitaWorldUpdate {
    pub open spec fn wf(&self) -> bool {
        writes_wf(self.writes@)
    }
}

/// What the simulator hands over each frame: either one more edit, or the
/// end-of-frame marker.
#[derive(Debug)]
pub enum WorldUpdateKind {
    Update(NoitaWorldUpdate),
    End,
}

} // verus!
