//! Bulk terraforming: clearing pixels over a circle, a wiggled vertical
//! band, and a line segment, across the canonical storage and — with nice
//! terraforming — the two local models.
//!
//! All geometry is exact integer arithmetic; a projection onto a segment is
//! computed as a truncated rational, matching machine division.

use vstd::prelude::*;

use crate::coords::{ChunkCoord, CHUNK_LEN, CHUNK_SIZE};
use crate::manager::{same_config, WorldManager};
use crate::pixel::{ChunkData, Pixel, PixelFlags};
use crate::util::copy_vec;

verus! {

/// Truncating division, the machine's `/` on signed values; `b > 0`.
pub open spec fn tdiv(a: int, b: int) -> int {
    if a >= 0 {
        a / b
    } else {
        -((-a) / b)
    }
}

/// Floor division by the chunk size: which chunk a pixel coordinate is in.
pub open spec fn cdiv(v: int) -> int {
    v / (CHUNK_SIZE as int)
}

fn floor_div_cs(v: i64) -> (q: i64)
    requires
        -1_000_000_000 <= v <= 1_000_000_000,
    ensures
        q == cdiv(v as int),
        128 * q <= v < 128 * q + 128,
{
    if v >= 0 {
        let q = ((v as u64) / 128) as i64;
        proof {
            assert(128 * q <= v < 128 * q + 128) by (nonlinear_arith)
                requires
                    0 <= v <= 1_000_000_000,
                    q == (v as u64 as int) / 128,
            ;
        }
        q
    } else {
        let a = (-v) as u64;
        let q0 = a / 128;
        let rem = a % 128;
        let q = if rem == 0 {
            -(q0 as i64)
        } else {
            -(q0 as i64) - 1
        };
        proof {
            assert(a == 128 * q0 + rem && rem < 128) by (nonlinear_arith)
                requires
                    q0 == a as int / 128,
                    rem == a as int % 128,
                    a <= 1_000_000_000,
            ;
            if rem == 0 {
                assert(v as int == 128 * q && 0 <= 0 < 128) by (nonlinear_arith)
                    requires
                        v == -(a as i64),
                        a == 128 * q0 + rem,
                        rem == 0,
                        q == -(q0 as i64),
                        a <= 1_000_000_000,
                ;
                assert(v as int / 128 == q) by (nonlinear_arith)
                    requires
                        v as int == 128 * q,
                ;
            } else {
                assert(v as int == 128 * q + (128 - rem) && 0 < 128 - rem < 128) by (
                nonlinear_arith)
                    requires
                        v == -(a as i64),
                        a == 128 * q0 + rem,
                        0 < rem < 128,
                        q == -(q0 as i64) - 1,
                        a <= 1_000_000_000,
                ;
                assert(v as int / 128 == q) by (nonlinear_arith)
                    requires
                        v as int == 128 * q + (128 - rem),
                        0 < 128 - rem < 128,
                ;
            }
        }
        proof {
            assert(128 * q <= v < 128 * q + 128) by (nonlinear_arith)
                requires
                    q == (v as int) / 128,
                    -1_000_000_000 <= v < 0,
            ;
        }
        q
    }
}

/// The corner of chunk `(ccx, ccy)` closest to `(x, y)`, per axis: the far
/// edge when the chunk lies before the point's chunk, its near edge
/// otherwise.
pub open spec fn close_coord(cc: int, point_chunk: int) -> int {
    if cc < point_chunk {
        (cc + 1) * (CHUNK_SIZE as int) - 1
    } else {
        cc * (CHUNK_SIZE as int)
    }
}

/// Does the circle pass touch chunk `(ccx, ccy)`? Within the bounding box,
/// and cheap-accepted outright for a small radius, else the closest corner
/// must lie within the radius.
pub open spec fn circle_visited(x: int, y: int, r: int, ccx: int, ccy: int) -> bool {
    &&& cdiv(x - r) <= ccx <= cdiv(x + r)
    &&& cdiv(y - r) <= ccy <= cdiv(y + r)
    &&& (r <= CHUNK_SIZE as int || {
        let dx = close_coord(ccx, cdiv(x)) - x;
        let dy = close_coord(ccy, cdiv(y)) - y;
        dx * dx + dy * dy <= r * r
    })
}

/// Does the circle pass overwrite this stored pixel? Inside the radius;
/// and when the cut carries a material, only where the stored material is
/// not already air. A plain clear (material 0) takes every pixel in range.
pub open spec fn circle_hits(orig: Pixel, pcx: int, pcy: int, x: int, y: int, r: int, mat: u16) -> bool {
    let dx = pcx - x;
    let dy = pcy - y;
    dx * dx + dy * dy <= r * r && (mat == 0 || orig.material != 0)
}

/// One pixel after the circle pass; see `circle_hits`.
pub open spec fn circle_pixel(orig: Pixel, pcx: int, pcy: int, x: int, y: int, r: int, mat: u16) -> Pixel {
    if circle_hits(orig, pcx, pcy, x, y, r, mat) {
        Pixel { flags: PixelFlags::Normal, material: mat }
    } else {
        orig
    }
}

/// A whole stored chunk after the circle pass.
pub open spec fn circle_data(orig: Seq<Pixel>, coord: ChunkCoord, x: int, y: int, r: int, mat: u16) -> Seq<Pixel> {
    Seq::new(
        orig.len(),
        |i: int|
            circle_pixel(
                orig[i],
                coord.0 * (CHUNK_SIZE as int) + i % (CHUNK_SIZE as int),
                coord.1 * (CHUNK_SIZE as int) + i / (CHUNK_SIZE as int),
                x,
                y,
                r,
                mat,
            ),
    )
}

/// A model chunk after the circle pass: the same cut, gated by the stored
/// (or fresh) pixels, lands on the model's own data.
pub open spec fn circle_model(
    model_orig: Seq<Pixel>,
    gate: Seq<Pixel>,
    coord: ChunkCoord,
    x: int,
    y: int,
    r: int,
    mat: u16,
) -> Seq<Pixel> {
    Seq::new(
        model_orig.len(),
        |i: int|
            if circle_hits(
                gate[i],
                coord.0 * (CHUNK_SIZE as int) + i % (CHUNK_SIZE as int),
                coord.1 * (CHUNK_SIZE as int) + i / (CHUNK_SIZE as int),
                x,
                y,
                r,
                mat,
            ) {
                Pixel { flags: PixelFlags::Normal, material: mat }
            } else {
                model_orig[i]
            },
    )
}

/// Does the circle pass work on chunk `c` at all, once accepted? A chunk
/// with no stored data is processed only for a plain clear under nice
/// terraforming; a material splash skips it entirely.
pub open spec fn circle_procd(pre: WorldManager, c: ChunkCoord, mat: u16) -> bool {
    pre.chunk_storage@.dom().contains(c) || (mat == 0 && pre.nice_terraforming)
}

/// The stored pixels that gate the cut at chunk `c`: the canonical data,
/// or a fresh unknown chunk where none is stored.
pub open spec fn circle_gate(pre: WorldManager, c: ChunkCoord) -> Seq<Pixel> {
    if pre.chunk_storage@.dom().contains(c) {
        pre.chunk_storage@[c]@
    } else {
        crate::model::unknown_chunk()
    }
}

/// What the circle pass does to the two models at one accepted chunk:
/// the inbound model absorbs the cut of its own data — or, when it holds
/// none, of the outbound data — and the outbound model absorbs the cut of
/// its data; a chunk neither model holds stays out of both.
pub open spec fn circle_model_at(
    pre: WorldManager,
    post: WorldManager,
    c: ChunkCoord,
    x: int,
    y: int,
    r: int,
    m: u16,
) -> bool {
    let gate = circle_gate(pre, c);
    if !circle_procd(pre, c, m) {
        &&& (post.inbound_model.contents().dom().contains(c)
            <==> pre.inbound_model.contents().dom().contains(c))
        &&& (pre.inbound_model.contents().dom().contains(c)
            ==> post.inbound_model.contents()[c] == pre.inbound_model.contents()[c])
        &&& (post.outbound_model.contents().dom().contains(c)
            <==> pre.outbound_model.contents().dom().contains(c))
        &&& (pre.outbound_model.contents().dom().contains(c)
            ==> post.outbound_model.contents()[c] == pre.outbound_model.contents()[c])
    } else {
        &&& (pre.inbound_model.contents().dom().contains(c)
            ==> post.inbound_model.contents().dom().contains(c)
                && post.inbound_model.contents()[c] == circle_model(
                pre.inbound_model.contents()[c],
                gate,
                c,
                x,
                y,
                r,
                m,
            ))
        &&& (!pre.inbound_model.contents().dom().contains(c)
            && pre.outbound_model.contents().dom().contains(c)
            ==> post.inbound_model.contents().dom().contains(c)
                && post.inbound_model.contents()[c] == circle_model(
                pre.outbound_model.contents()[c],
                gate,
                c,
                x,
                y,
                r,
                m,
            ))
        &&& (!pre.inbound_model.contents().dom().contains(c)
            && !pre.outbound_model.contents().dom().contains(c)
            ==> !post.inbound_model.contents().dom().contains(c))
        &&& (pre.outbound_model.contents().dom().contains(c)
            ==> post.outbound_model.contents().dom().contains(c)
                && post.outbound_model.contents()[c] == circle_model(
                pre.outbound_model.contents()[c],
                gate,
                c,
                x,
                y,
                r,
                m,
            ))
        &&& (!pre.outbound_model.contents().dom().contains(c)
            ==> !post.outbound_model.contents().dom().contains(c))
    }
}

/// Everything the circle pass promises, for a cut of material `m` at
/// `(x, y)` with radius `r`.
pub open spec fn circle_post(
    pre: WorldManager,
    post: WorldManager,
    x: int,
    y: int,
    r: int,
    m: u16,
) -> bool {
    &&& (!pre.is_host && !pre.nice_terraforming ==> post == pre)
    &&& forall|c: ChunkCoord|
        !circle_visited(x, y, r, c.0 as int, c.1 as int) ==> #[trigger] circle_untouched(
            pre,
            post,
            c,
        )
    &&& (pre.is_host ==> forall|c: ChunkCoord|
        circle_visited(x, y, r, c.0 as int, c.1 as int) && (
        #[trigger] pre.chunk_storage@.dom().contains(c)) ==> post.chunk_storage@.dom().contains(c)
            && post.chunk_storage@[c]@ == circle_data(pre.chunk_storage@[c]@, c, x, y, r, m))
    &&& (!pre.is_host ==> post.chunk_storage == pre.chunk_storage)
    &&& (!pre.nice_terraforming ==> post.inbound_model == pre.inbound_model
        && post.outbound_model == pre.outbound_model)
    &&& (pre.nice_terraforming ==> forall|c: ChunkCoord|
        #[trigger] circle_visited(x, y, r, c.0 as int, c.1 as int) ==> circle_model_at(
            pre,
            post,
            c,
            x,
            y,
            r,
            m,
        ))
    // a plain clear under nice terraforming materializes visited unstored
    // chunks on the host; nothing else ever creates or drops storage
    &&& forall|c: ChunkCoord|
        #[trigger] post.chunk_storage@.dom().contains(c) <==> pre.chunk_storage@.dom().contains(c)
            || (pre.is_host && m == 0 && pre.nice_terraforming && circle_visited(
            x,
            y,
            r,
            c.0 as int,
            c.1 as int,
        ))
}

/// The terraform passes touch only the storage and the two models.
pub open spec fn terraform_frame(pre: WorldManager, post: WorldManager) -> bool {
    &&& same_config(pre, post)
    &&& post.authority_map == pre.authority_map
    &&& post.chunk_state == pre.chunk_state
    &&& post.emitted_messages == pre.emitted_messages
    &&& post.chunk_last_update == pre.chunk_last_update
    &&& post.last_request_priority == pre.last_request_priority
}

impl WorldManager {
    /// Clear (or fill with `mat`) every stored pixel within distance `r` of
    /// `(x, y)`. On the host this rewrites the canonical storage; with nice
    /// terraforming the local models absorb the same cut wherever storage
    /// data gates it. A non-host without nice terraforming does nothing.
    pub fn cut_through_world_circle(&mut self, x: i32, y: i32, r: i32, mat: Option<u16>)
        requires
            old(self).wf(),
            -100_000 <= x <= 100_000,
            -100_000 <= y <= 100_000,
            0 <= r <= 100_000,
        ensures
            final(self).wf(),
            terraform_frame(*old(self), *final(self)),
            circle_post(*old(self), *final(self), x as int, y as int, r as int, mat_of(mat)),
    {
        if !self.is_host && !self.nice_terraforming {
            return;
        }
        let ghost pre = *old(self);
        let min_cx = floor_div_cs(x as i64 - r as i64) as i32;
        let max_cx = floor_div_cs(x as i64 + r as i64) as i32;
        let min_cy = floor_div_cs(y as i64 - r as i64) as i32;
        let max_cy = floor_div_cs(y as i64 + r as i64) as i32;
        let chunkx = floor_div_cs(x as i64) as i32;
        let chunky = floor_div_cs(y as i64) as i32;
        let m = match mat {
            Some(m) => m,
            None => 0,
        };
        let do_continue = m != 0;
        let mut ccx = min_cx;
        while ccx <= max_cx
            invariant
                self.wf(),
                min_cx == cdiv(x as int - r as int),
                max_cx == cdiv(x as int + r as int),
                min_cy == cdiv(y as int - r as int),
                max_cy == cdiv(y as int + r as int),
                chunkx == cdiv(x as int),
                chunky == cdiv(y as int),
                -100_000 <= x <= 100_000,
                -100_000 <= y <= 100_000,
                0 <= r <= 100_000,
                min_cx <= ccx,
                ccx <= max_cx + 1,
                -1600 <= min_cx <= 1600,
                -1600 <= max_cx <= 1600,
                -1600 <= min_cy <= 1600,
                -1600 <= max_cy <= 1600,
                m == mat_of(mat),
                do_continue == (m != 0),
                pre.is_host || pre.nice_terraforming,
                self.is_host == pre.is_host,
                self.nice_terraforming == pre.nice_terraforming,
                terraform_frame(pre, *self),
                circle_inv(pre, *self, x as int, y as int, r as int, m, ccx as int, min_cy as int),
            decreases max_cx + 1 - ccx,
        {
            let mut ccy = min_cy;
            while ccy <= max_cy
                invariant
                    self.wf(),
                    min_cx == cdiv(x as int - r as int),
                    max_cx == cdiv(x as int + r as int),
                    min_cy == cdiv(y as int - r as int),
                    max_cy == cdiv(y as int + r as int),
                    chunkx == cdiv(x as int),
                    chunky == cdiv(y as int),
                    -100_000 <= x <= 100_000,
                    -100_000 <= y <= 100_000,
                    0 <= r <= 100_000,
                    min_cx <= ccx <= max_cx,
                    min_cy <= ccy,
                    ccy <= max_cy + 1,
                    -1600 <= min_cx <= 1600,
                    -1600 <= max_cx <= 1600,
                    -1600 <= min_cy <= 1600,
                    -1600 <= max_cy <= 1600,
                    m == mat_of(mat),
                    do_continue == (m != 0),
                    pre.is_host || pre.nice_terraforming,
                    self.is_host == pre.is_host,
                    self.nice_terraforming == pre.nice_terraforming,
                    terraform_frame(pre, *self),
                    circle_inv(pre, *self, x as int, y as int, r as int, m, ccx as int, ccy as int),
                decreases max_cy + 1 - ccy,
            {
                let accept = if r <= CHUNK_SIZE as i32 {
                    true
                } else {
                    let close_x: i64 = if ccx < chunkx {
                        (ccx as i64 + 1) * 128 - 1
                    } else {
                        ccx as i64 * 128
                    };
                    let close_y: i64 = if ccy < chunky {
                        (ccy as i64 + 1) * 128 - 1
                    } else {
                        ccy as i64 * 128
                    };
                    let dx = close_x - x as i64;
                    let dy = close_y - y as i64;
                    proof {
                        assert(dx * dx + dy * dy <= 2_000_000_000_000 && 0 <= dx * dx && 0 <= dy
                            * dy && (r as i64) * (r as i64) <= 10_000_000_000) by (
                        nonlinear_arith)
                            requires
                                -600_000 <= dx <= 600_000,
                                -600_000 <= dy <= 600_000,
                                0 <= r <= 100_000,
                        ;
                    }
                    dx * dx + dy * dy <= (r as i64) * (r as i64)
                };
                let ghost before = *self;
                proof {
                    assert(accept == circle_visited(
                        x as int,
                        y as int,
                        r as int,
                        ccx as int,
                        ccy as int,
                    ));
                }
                if accept {
                    self.circle_one(ChunkCoord(ccx, ccy), x, y, r, m, do_continue);
                }
                proof {
                    let cur = ChunkCoord(ccx, ccy);
                    assert forall|c: ChunkCoord|
                        !(circle_processed(x as int, y as int, r as int, c, ccx as int, ccy + 1)
                            && circle_visited(x as int, y as int, r as int, c.0 as int, c.1 as int))
                        implies #[trigger] circle_untouched(pre, *self, c) by {
                        assert(circle_untouched(pre, before, c));
                        if c != cur {
                            if accept {
                                assert(circle_untouched(before, *self, c));
                            }
                        }
                    }
                    if pre.is_host {
                        assert forall|c: ChunkCoord|
                            circle_processed(x as int, y as int, r as int, c, ccx as int, ccy + 1)
                                && circle_visited(
                                x as int,
                                y as int,
                                r as int,
                                c.0 as int,
                                c.1 as int,
                            ) && (#[trigger] pre.chunk_storage@.dom().contains(c)) implies
                            self.chunk_storage@.dom().contains(c) && self.chunk_storage@[c]@
                                == circle_data(
                                pre.chunk_storage@[c]@,
                                c,
                                x as int,
                                y as int,
                                r as int,
                                m,
                            ) by {
                            if c == cur {
                                assert(circle_untouched(pre, before, c));
                                assert(before.chunk_storage@[c] == pre.chunk_storage@[c]);
                            } else {
                                if accept {
                                    assert(circle_untouched(before, *self, c));
                                }
                            }
                        }
                    }
                    if pre.nice_terraforming {
                        assert forall|c: ChunkCoord|
                            circle_processed(x as int, y as int, r as int, c, ccx as int, ccy + 1)
                                && #[trigger] circle_visited(
                                x as int,
                                y as int,
                                r as int,
                                c.0 as int,
                                c.1 as int,
                            ) implies circle_model_at(
                            pre,
                            *self,
                            c,
                            x as int,
                            y as int,
                            r as int,
                            m,
                        ) by {
                            if c == cur {
                                assert(circle_untouched(pre, before, c));
                                assert(circle_model_at(
                                    before,
                                    *self,
                                    c,
                                    x as int,
                                    y as int,
                                    r as int,
                                    m,
                                ));
                                assert(circle_procd(before, c, m) == circle_procd(pre, c, m));
                                if pre.chunk_storage@.dom().contains(c) {
                                    assert(before.chunk_storage@[c] == pre.chunk_storage@[c]);
                                }
                                assert(circle_gate(before, c) == circle_gate(pre, c));
                            } else {
                                assert(circle_model_at(
                                    pre,
                                    before,
                                    c,
                                    x as int,
                                    y as int,
                                    r as int,
                                    m,
                                ));
                                if accept {
                                    assert(circle_untouched(before, *self, c));
                                }
                            }
                        }
                    }
                }
                ccy += 1;
            }
            ccx += 1;
        }
        proof {
            assert forall|c: ChunkCoord|
                !circle_visited(x as int, y as int, r as int, c.0 as int, c.1 as int) implies
                #[trigger] circle_untouched(pre, *final(self), c) by {
                assert(circle_untouched(pre, *self, c));
            }
            if pre.nice_terraforming {
                assert forall|c: ChunkCoord|
                    #[trigger] circle_visited(x as int, y as int, r as int, c.0 as int, c.1 as int)
                    implies circle_model_at(
                    pre,
                    *final(self),
                    c,
                    x as int,
                    y as int,
                    r as int,
                    m,
                ) by {
                    assert(circle_processed(
                        x as int,
                        y as int,
                        r as int,
                        c,
                        max_cx as int + 1,
                        min_cy as int,
                    ));
                }
            }
            if pre.is_host {
                assert forall|c: ChunkCoord|
                    circle_visited(x as int, y as int, r as int, c.0 as int, c.1 as int) && (
                    #[trigger] pre.chunk_storage@.dom().contains(c)) implies
                    final(self).chunk_storage@.dom().contains(c) && final(self).chunk_storage@[c]@
                    == circle_data(
                    pre.chunk_storage@[c]@,
                    c,
                    x as int,
                    y as int,
                    r as int,
                    m,
                ) by {
                    assert(circle_processed(
                        x as int,
                        y as int,
                        r as int,
                        c,
                        max_cx as int + 1,
                        min_cy as int,
                    ));
                }
            }
        }
    }

    /// Cut a vertical band of half-width `radius` around `x`, between the
    /// global heights `y_min` and `y_max`, through the canonical storage
    /// alone. `wiggles` holds one horizontal offset per row: the caller
    /// samples the band's sinusoidal wiggle, one entry per `gy - y_min`.
    pub fn cut_through_world(
        &mut self,
        x: i32,
        y_min: i32,
        y_max: i32,
        radius: i32,
        wiggles: &Vec<i32>,
    )
        requires
            old(self).wf(),
            -100_000 <= x <= 100_000,
            -100_000 <= y_min <= y_max <= 100_000,
            0 <= radius <= 100_000,
            wiggles@.len() == y_max - y_min + 1,
            forall|i: int| 0 <= i < wiggles@.len() ==> -16 <= #[trigger] wiggles@[i] <= 16,
        ensures
            final(self).wf(),
            terraform_frame(*old(self), *final(self)),
            final(self).inbound_model == old(self).inbound_model,
            final(self).outbound_model == old(self).outbound_model,
            final(self).chunk_storage@.dom() == old(self).chunk_storage@.dom(),
            forall|c: ChunkCoord|
                #[trigger] old(self).chunk_storage@.dom().contains(c) ==> final(self).chunk_storage@.dom().contains(c) && final(self).chunk_storage@[c]@ == vcut_data(
                    old(self).chunk_storage@[c]@,
                    c,
                    x as int,
                    y_min as int,
                    y_max as int,
                    radius as int,
                    wiggles@,
                ),
    {
        let ghost pre = *old(self);
        proof {
            self.chunk_storage.lemma_view();
        }
        let n = self.chunk_storage.num_entries();
        let mut i: usize = 0;
        while i < n
            invariant
                self.wf(),
                n == pre.chunk_storage.key_seq().len(),
                i <= n,
                -100_000 <= x <= 100_000,
                -100_000 <= y_min <= y_max <= 100_000,
                0 <= radius <= 100_000,
                wiggles@.len() == y_max - y_min + 1,
                forall|j: int| 0 <= j < wiggles@.len() ==> -16 <= #[trigger] wiggles@[j] <= 16,
                self.chunk_storage.key_seq() == pre.chunk_storage.key_seq(),
                self.chunk_storage@.dom() == pre.chunk_storage@.dom(),
                self.inbound_model == pre.inbound_model,
                self.outbound_model == pre.outbound_model,
                terraform_frame(pre, *self),
                forall|k: int, l: int|
                    0 <= k < l < pre.chunk_storage.key_seq().len()
                        ==> pre.chunk_storage.key_seq()[k] != pre.chunk_storage.key_seq()[l],
                forall|k: int|
                    0 <= k < n ==> pre.chunk_storage@.dom().contains(
                        #[trigger] pre.chunk_storage.key_seq()[k],
                    ),
                forall|c: ChunkCoord|
                    #[trigger] pre.chunk_storage@.dom().contains(c)
                        ==> pre.chunk_storage.key_seq().contains(c),
                forall|k: int|
                    i <= k < n
                        ==> #[trigger] self.chunk_storage@[pre.chunk_storage.key_seq()[k]]
                        == pre.chunk_storage@[pre.chunk_storage.key_seq()[k]],
                forall|k: int|
                    0 <= k < i
                        ==> #[trigger] self.chunk_storage@[pre.chunk_storage.key_seq()[k]]@
                        == vcut_data(
                        pre.chunk_storage@[pre.chunk_storage.key_seq()[k]]@,
                        pre.chunk_storage.key_seq()[k],
                        x as int,
                        y_min as int,
                        y_max as int,
                        radius as int,
                        wiggles@,
                    ),
            decreases n - i,
        {
            let coord = self.chunk_storage.key_at(i);
            let ghost pk = pre.chunk_storage.key_seq()[i as int];
            let csx: i64 = coord.0 as i64 * 128;
            let in_clip = x as i64 - radius as i64 - 5 - 128 <= csx && csx < x as i64 + radius
                as i64 + 5;
            if in_clip {
                let orig_data = self.chunk_storage.val_at(i);
                let mut buf = copy_vec(&orig_data.pixels);
                let ghost orig = buf@;
                let air0 = Pixel { flags: PixelFlags::Normal, material: 0u16 };
                let base_y: i64 = coord.1 as i64 * 128;
                let mut px: usize = 0;
                let mut icx: usize = 0;
                let mut icy: usize = 0;
                while px < CHUNK_LEN
                    invariant
                        px == icy * CHUNK_SIZE + icx,
                        icx < CHUNK_SIZE,
                        px <= CHUNK_LEN,
                        buf@.len() == orig.len(),
                        orig.len() == CHUNK_LEN,
                        csx == coord.0 as int * 128,
                        base_y == coord.1 as int * 128,
                        air0 == (Pixel { flags: PixelFlags::Normal, material: 0u16 }),
                        -100_000 <= x <= 100_000,
                        -100_000 <= y_min <= y_max <= 100_000,
                        0 <= radius <= 100_000,
                        wiggles@.len() == y_max - y_min + 1,
                        forall|j: int|
                            0 <= j < wiggles@.len() ==> -16 <= #[trigger] wiggles@[j] <= 16,
                        vcut_clip(coord.0 * (CHUNK_SIZE as int), x as int, radius as int),
                        forall|j: int|
                            0 <= j < px ==> #[trigger] buf@[j] == vcut_data(
                                orig,
                                coord,
                                x as int,
                                y_min as int,
                                y_max as int,
                                radius as int,
                                wiggles@,
                            )[j],
                        forall|j: int| px <= j < CHUNK_LEN ==> #[trigger] buf@[j] == orig[j],
                    decreases CHUNK_LEN - px,
                {
                    proof {
                        assert((px as int) % (CHUNK_SIZE as int) == icx as int && (px as int) / (
                        CHUNK_SIZE as int) == icy as int) by (nonlinear_arith)
                            requires
                                px as int == (icy as int) * (CHUNK_SIZE as int) + icx as int,
                                0 <= (icx as int) < CHUNK_SIZE as int,
                                0 <= icy as int,
                                CHUNK_SIZE as int == 128,
                        ;
                    }
                    let gy: i64 = base_y + icy as i64;
                    if y_min as i64 <= gy && gy <= y_max as i64 {
                        let wig = wiggles[(gy - y_min as i64) as usize] as i64;
                        let raw_start = x as i64 - radius as i64 - csx + wig;
                        let raw_end = x as i64 + radius as i64 - csx + wig;
                        let start = if raw_start < 0 {
                            0
                        } else if raw_start > 127 {
                            127
                        } else {
                            raw_start
                        };
                        let end = if raw_end < 0 {
                            0
                        } else if raw_end > 128 {
                            128
                        } else {
                            raw_end
                        };
                        if start <= icx as i64 && (icx as i64) < end {
                            buf.set(px, air0);
                        }
                    }
                    proof {
                        assert(buf@[px as int] == vcut_data(
                            orig,
                            coord,
                            x as int,
                            y_min as int,
                            y_max as int,
                            radius as int,
                            wiggles@,
                        )[px as int]);
                    }
                    px += 1;
                    icx += 1;
                    if icx == CHUNK_SIZE {
                        icx = 0;
                        icy += 1;
                    }
                }
                let v = ChunkData { pixels: buf };
                proof {
                    crate::protocol::lemma_st_insert_wf(self.chunk_storage@, coord, v);
                    assert(v@ =~= vcut_data(
                        orig,
                        coord,
                        x as int,
                        y_min as int,
                        y_max as int,
                        radius as int,
                        wiggles@,
                    ));
                }
                self.chunk_storage.set_val_at(i, v);
            } else {
                proof {
                    assert(!vcut_clip(coord.0 * (CHUNK_SIZE as int), x as int, radius as int));
                    assert(self.chunk_storage@[pk]@ == vcut_data(
                        pre.chunk_storage@[pk]@,
                        pk,
                        x as int,
                        y_min as int,
                        y_max as int,
                        radius as int,
                        wiggles@,
                    ));
                }
            }
            i += 1;
        }
        proof {
            assert forall|c: ChunkCoord|
                #[trigger] pre.chunk_storage@.dom().contains(c) implies final(self).chunk_storage@.dom().contains(c) && final(self).chunk_storage@[c]@ == vcut_data(
                pre.chunk_storage@[c]@,
                c,
                x as int,
                y_min as int,
                y_max as int,
                radius as int,
                wiggles@,
            ) by {
                let ks = pre.chunk_storage.key_seq();
                let k = choose|k: int| 0 <= k < ks.len() && ks[k] == c;
                assert(self.chunk_storage@[ks[k]]@ == vcut_data(
                    pre.chunk_storage@[ks[k]]@,
                    ks[k],
                    x as int,
                    y_min as int,
                    y_max as int,
                    radius as int,
                    wiggles@,
                ));
            }
        }
    }

    /// Clear every pixel within distance `r` of the segment from `(x, y)`
    /// to `(lx, ly)`. A degenerate segment delegates to the circle pass and
    /// promises exactly what that pass promises. Otherwise every chunk the
    /// pass visits (`line_visited`) is cut exactly: the canonical storage on
    /// the host, and — with nice terraforming — both models; chunks it does
    /// not visit stay untouched everywhere.
    pub fn cut_through_world_line(&mut self, x: i32, y: i32, lx: i32, ly: i32, r: i32)
        requires
            old(self).wf(),
            -100_000 <= x <= 100_000,
            -100_000 <= y <= 100_000,
            -100_000 <= lx <= 100_000,
            -100_000 <= ly <= 100_000,
            0 <= r <= 100_000,
        ensures
            final(self).wf(),
            terraform_frame(*old(self), *final(self)),
            !old(self).is_host && !old(self).nice_terraforming ==> *final(self) == *old(self),
            x == lx && y == ly ==> circle_post(
                *old(self),
                *final(self),
                x as int,
                y as int,
                r as int,
                0,
            ),
            !(x == lx && y == ly) ==> forall|c: ChunkCoord|
                !line_visited(x as int, y as int, lx as int, ly as int, r as int, c)
                    ==> #[trigger] circle_untouched(*old(self), *final(self), c),
            !(x == lx && y == ly) && old(self).is_host ==> forall|c: ChunkCoord|
                line_visited(x as int, y as int, lx as int, ly as int, r as int, c) && (
                #[trigger] old(self).chunk_storage@.dom().contains(c))
                    ==> final(self).chunk_storage@.dom().contains(c)
                        && final(self).chunk_storage@[c]@ == line_cut_of(
                        old(self).chunk_storage@[c]@,
                        c,
                        x as int,
                        y as int,
                        lx as int,
                        ly as int,
                        r as int,
                    ),
            !(x == lx && y == ly) && old(self).nice_terraforming ==> forall|c: ChunkCoord|
                #[trigger] line_visited(x as int, y as int, lx as int, ly as int, r as int, c)
                    ==> line_model_at(
                    *old(self),
                    *final(self),
                    c,
                    x as int,
                    y as int,
                    lx as int,
                    ly as int,
                    r as int,
                ),
            !old(self).is_host ==> final(self).chunk_storage == old(self).chunk_storage,
            !old(self).nice_terraforming ==> final(self).inbound_model == old(self).inbound_model
                && final(self).outbound_model == old(self).outbound_model,
            // under nice terraforming the host materializes visited
            // unstored chunks; nothing else creates or drops storage
            !(x == lx && y == ly) ==> forall|c: ChunkCoord|
                #[trigger] final(self).chunk_storage@.dom().contains(c)
                    <==> old(self).chunk_storage@.dom().contains(c) || (old(self).is_host && old(
                    self,
                ).nice_terraforming && line_visited(
                    x as int,
                    y as int,
                    lx as int,
                    ly as int,
                    r as int,
                    c,
                )),
    {
        if !self.is_host && !self.nice_terraforming {
            return;
        }
        let ghost pre = *old(self);
        if x == lx && y == ly {
            self.cut_through_world_circle(x, y, r, None);
            return;
        }
        let (min_cx, max_cx) = if x < lx {
            (floor_div_cs(x as i64 - r as i64) as i32, floor_div_cs(lx as i64 + r as i64) as i32)
        } else {
            (floor_div_cs(lx as i64 - r as i64) as i32, floor_div_cs(x as i64 + r as i64) as i32)
        };
        let (min_cy, max_cy) = if y < ly {
            (floor_div_cs(y as i64 - r as i64) as i32, floor_div_cs(ly as i64 + r as i64) as i32)
        } else {
            (floor_div_cs(ly as i64 - r as i64) as i32, floor_div_cs(y as i64 + r as i64) as i32)
        };
        let dmx = lx as i64 - x as i64;
        let dmy = ly as i64 - y as i64;
        let s1 = mul64(dmx, dmx);
        let s2 = mul64(dmy, dmy);
        proof {
            assert(0 <= s1 <= 40_000_800_001 && 0 <= s2 <= 40_000_800_001 && (dmx != 0 ==> s1 > 0)
                && (dmy != 0 ==> s2 > 0)) by (nonlinear_arith)
                requires
                    s1 == dmx * dmx,
                    s2 == dmy * dmy,
                    -200_001 <= dmx <= 200_001,
                    -200_001 <= dmy <= 200_001,
            ;
        }
        let den = s1 + s2;
        let close_check = max_cx == min_cx || max_cy == min_cy;
        let mut ccx = min_cx;
        while ccx <= max_cx
            invariant
                self.wf(),
                -1600 <= min_cx <= 1600,
                -1600 <= max_cx <= 1600,
                -1600 <= min_cy <= 1600,
                -1600 <= max_cy <= 1600,
                min_cx <= ccx,
                ccx <= max_cx + 1,
                -100_000 <= x <= 100_000,
                -100_000 <= y <= 100_000,
                -100_000 <= lx <= 100_000,
                -100_000 <= ly <= 100_000,
                0 <= r <= 100_000,
                dmx == lx as int - x as int,
                dmy == ly as int - y as int,
                0 < den <= 200_000_000_000,
                den == dmx * dmx + dmy * dmy,
                !(dmx == 0 && dmy == 0),
                close_check == line_close_check(x as int, y as int, lx as int, ly as int, r as int),
                pre.is_host || pre.nice_terraforming,
                self.is_host == pre.is_host,
                self.nice_terraforming == pre.nice_terraforming,
                terraform_frame(pre, *self),
                min_cx as int == (if x < lx {
                    cdiv(x as int - r as int)
                } else {
                    cdiv(lx as int - r as int)
                }),
                max_cx as int == (if x < lx {
                    cdiv(lx as int + r as int)
                } else {
                    cdiv(x as int + r as int)
                }),
                min_cy as int == (if y < ly {
                    cdiv(y as int - r as int)
                } else {
                    cdiv(ly as int - r as int)
                }),
                max_cy as int == (if y < ly {
                    cdiv(ly as int + r as int)
                } else {
                    cdiv(y as int + r as int)
                }),
                line_inv(
                    pre,
                    *self,
                    x as int,
                    y as int,
                    lx as int,
                    ly as int,
                    r as int,
                    ccx as int,
                    min_cy as int,
                ),
            decreases max_cx + 1 - ccx,
        {
            let mut ccy = min_cy;
            while ccy <= max_cy
                invariant
                    self.wf(),
                    -1600 <= min_cx <= 1600,
                    -1600 <= max_cx <= 1600,
                    -1600 <= min_cy <= 1600,
                    -1600 <= max_cy <= 1600,
                    min_cx <= ccx <= max_cx,
                    min_cy <= ccy,
                    ccy <= max_cy + 1,
                    -100_000 <= x <= 100_000,
                    -100_000 <= y <= 100_000,
                    -100_000 <= lx <= 100_000,
                    -100_000 <= ly <= 100_000,
                    0 <= r <= 100_000,
                    dmx == lx as int - x as int,
                    dmy == ly as int - y as int,
                    0 < den <= 200_000_000_000,
                    den == dmx * dmx + dmy * dmy,
                    close_check == line_close_check(
                        x as int,
                        y as int,
                        lx as int,
                        ly as int,
                        r as int,
                    ),
                    pre.is_host || pre.nice_terraforming,
                    self.is_host == pre.is_host,
                    self.nice_terraforming == pre.nice_terraforming,
                    terraform_frame(pre, *self),
                    min_cx as int == (if x < lx {
                        cdiv(x as int - r as int)
                    } else {
                        cdiv(lx as int - r as int)
                    }),
                    max_cx as int == (if x < lx {
                        cdiv(lx as int + r as int)
                    } else {
                        cdiv(x as int + r as int)
                    }),
                    min_cy as int == (if y < ly {
                        cdiv(y as int - r as int)
                    } else {
                        cdiv(ly as int - r as int)
                    }),
                    max_cy as int == (if y < ly {
                        cdiv(ly as int + r as int)
                    } else {
                        cdiv(y as int + r as int)
                    }),
                    line_inv(
                        pre,
                        *self,
                        x as int,
                        y as int,
                        lx as int,
                        ly as int,
                        r as int,
                        ccx as int,
                        ccy as int,
                    ),
                decreases max_cy + 1 - ccy,
            {
                let ghost before = *self;
                let csx: i64 = ccx as i64 * 128;
                let csy: i64 = ccy as i64 * 128;
                let mut accept = close_check;
                if !accept {
                    // any chunk corner within `r` of the segment
                    accept = line_point_close(csx, csy, x, y, dmx, dmy, den, r)
                        || line_point_close(csx + 127, csy + 127, x, y, dmx, dmy, den, r)
                        || line_point_close(csx + 127, csy, x, y, dmx, dmy, den, r)
                        || line_point_close(csx, csy + 127, x, y, dmx, dmy, den, r);
                }
                if !accept {
                    // any endpoint-adjacent axis point inside the chunk
                    accept = in_chunk_box(x as i64 + r as i64, y as i64, csx, csy)
                        || in_chunk_box(x as i64 - r as i64, y as i64, csx, csy) || in_chunk_box(
                        x as i64,
                        y as i64 + r as i64,
                        csx,
                        csy,
                    ) || in_chunk_box(x as i64, y as i64 - r as i64, csx, csy) || in_chunk_box(
                        lx as i64 + r as i64,
                        ly as i64,
                        csx,
                        csy,
                    ) || in_chunk_box(lx as i64 - r as i64, ly as i64, csx, csy) || in_chunk_box(
                        lx as i64,
                        ly as i64 + r as i64,
                        csx,
                        csy,
                    ) || in_chunk_box(lx as i64, ly as i64 - r as i64, csx, csy);
                }
                proof {
                    assert(accept == line_visited(
                        x as int,
                        y as int,
                        lx as int,
                        ly as int,
                        r as int,
                        ChunkCoord(ccx, ccy),
                    ));
                }
                if accept {
                    self.line_one(ChunkCoord(ccx, ccy), x, y, dmx, dmy, den, r);
                }
                proof {
                    let cur = ChunkCoord(ccx, ccy);
                    assert forall|c: ChunkCoord|
                        !(line_processed(c, ccx as int, ccy + 1) && line_visited(
                            x as int,
                            y as int,
                            lx as int,
                            ly as int,
                            r as int,
                            c,
                        )) implies #[trigger] circle_untouched(pre, *self, c) by {
                        assert(circle_untouched(pre, before, c));
                        if c != cur {
                            if accept {
                                assert(circle_untouched(before, *self, c));
                            }
                        }
                    }
                    if pre.is_host {
                        assert forall|c: ChunkCoord|
                            line_processed(c, ccx as int, ccy + 1) && line_visited(
                                x as int,
                                y as int,
                                lx as int,
                                ly as int,
                                r as int,
                                c,
                            ) && (#[trigger] pre.chunk_storage@.dom().contains(c)) implies
                            self.chunk_storage@.dom().contains(c) && self.chunk_storage@[c]@
                                == line_cut_of(
                                pre.chunk_storage@[c]@,
                                c,
                                x as int,
                                y as int,
                                lx as int,
                                ly as int,
                                r as int,
                            ) by {
                            if c == cur {
                                assert(circle_untouched(pre, before, c));
                                assert(before.chunk_storage@[c] == pre.chunk_storage@[c]);
                            } else {
                                if accept {
                                    assert(circle_untouched(before, *self, c));
                                }
                            }
                        }
                    }
                    if pre.nice_terraforming {
                        assert forall|c: ChunkCoord|
                            line_processed(c, ccx as int, ccy + 1) && #[trigger] line_visited(
                                x as int,
                                y as int,
                                lx as int,
                                ly as int,
                                r as int,
                                c,
                            ) implies line_model_at(
                            pre,
                            *self,
                            c,
                            x as int,
                            y as int,
                            lx as int,
                            ly as int,
                            r as int,
                        ) by {
                            if c == cur {
                                assert(circle_untouched(pre, before, c));
                                assert(line_model_data_at(
                                    before,
                                    *self,
                                    c,
                                    x as int,
                                    y as int,
                                    dmx as int,
                                    dmy as int,
                                    den as int,
                                    r as int,
                                ));
                            } else {
                                assert(line_model_at(
                                    pre,
                                    before,
                                    c,
                                    x as int,
                                    y as int,
                                    lx as int,
                                    ly as int,
                                    r as int,
                                ));
                                if accept {
                                    assert(circle_untouched(before, *self, c));
                                }
                            }
                        }
                    }
                }
                ccy += 1;
            }
            ccx += 1;
        }
        proof {
            assert forall|c: ChunkCoord|
                !line_visited(x as int, y as int, lx as int, ly as int, r as int, c) implies
                #[trigger] circle_untouched(pre, *final(self), c) by {
                assert(circle_untouched(pre, *self, c));
            }
            if pre.is_host {
                assert forall|c: ChunkCoord|
                    line_visited(x as int, y as int, lx as int, ly as int, r as int, c) && (
                    #[trigger] pre.chunk_storage@.dom().contains(c)) implies
                    final(self).chunk_storage@.dom().contains(c) && final(self).chunk_storage@[c]@
                    == line_cut_of(
                    pre.chunk_storage@[c]@,
                    c,
                    x as int,
                    y as int,
                    lx as int,
                    ly as int,
                    r as int,
                ) by {
                    assert(line_processed(c, max_cx as int + 1, min_cy as int));
                }
            }
            if pre.nice_terraforming {
                assert forall|c: ChunkCoord|
                    #[trigger] line_visited(x as int, y as int, lx as int, ly as int, r as int, c)
                    implies line_model_at(
                    pre,
                    *final(self),
                    c,
                    x as int,
                    y as int,
                    lx as int,
                    ly as int,
                    r as int,
                ) by {
                    assert(line_processed(c, max_cx as int + 1, min_cy as int));
                }
            }
        }
    }

    /// The segment pass over one accepted chunk: per pixel, project onto
    /// the segment and clear within `r`. The canonical storage takes the
    /// cut on the host, both models take it under nice terraforming;
    /// nothing but this chunk changes.
    fn line_one(&mut self, coord: ChunkCoord, x: i32, y: i32, dmx: i64, dmy: i64, den: i64, r: i32)
        requires
            old(self).wf(),
            -100_000 <= x <= 100_000,
            -100_000 <= y <= 100_000,
            0 <= r <= 100_000,
            -2000 <= coord.0 <= 2000,
            -2000 <= coord.1 <= 2000,
            -200_001 <= dmx <= 200_001,
            -200_001 <= dmy <= 200_001,
            0 < den <= 200_000_000_000,
            old(self).is_host || old(self).nice_terraforming,
        ensures
            final(self).wf(),
            terraform_frame(*old(self), *final(self)),
            forall|c: ChunkCoord| c != coord ==> circle_untouched(*old(self), *final(self), c),
            !old(self).is_host ==> final(self).chunk_storage == old(self).chunk_storage,
            !old(self).nice_terraforming ==> final(self).inbound_model == old(self).inbound_model
                && final(self).outbound_model == old(self).outbound_model,
            old(self).is_host && old(self).chunk_storage@.dom().contains(coord)
                ==> final(self).chunk_storage@.dom().contains(coord)
                    && final(self).chunk_storage@[coord]@ == line_data(
                    old(self).chunk_storage@[coord]@,
                    coord,
                    x as int,
                    y as int,
                    dmx as int,
                    dmy as int,
                    den as int,
                    r as int,
                ),
            old(self).nice_terraforming ==> line_model_data_at(
                *old(self),
                *final(self),
                coord,
                x as int,
                y as int,
                dmx as int,
                dmy as int,
                den as int,
                r as int,
            ),
            forall|c: ChunkCoord|
                #[trigger] final(self).chunk_storage@.dom().contains(c)
                    <==> old(self).chunk_storage@.dom().contains(c) || (c == coord && old(
                    self,
                ).is_host && old(self).nice_terraforming),
    {
        let stored = self.chunk_storage.get(coord);
        let mut chunk: Vec<Pixel>;
        match stored {
            Some(d) => {
                chunk = copy_vec(&d.pixels);
            },
            None => {
                if !self.nice_terraforming {
                    return;
                }
                chunk = crate::util::filled_vec(Pixel::unknown(), CHUNK_LEN);
            },
        };
        let ghost orig = chunk@;
        let mut has_in = false;
        let mut chunkin: Vec<Pixel> = Vec::new();
        let mut has_out = false;
        let mut chunkout: Vec<Pixel> = Vec::new();
        if self.nice_terraforming {
            if let Some(d) = self.inbound_model.get_chunk_data(coord) {
                has_in = true;
                chunkin = copy_vec(&d.pixels);
            }
            if let Some(d) = self.outbound_model.get_chunk_data(coord) {
                has_out = true;
                chunkout = copy_vec(&d.pixels);
            }
        }
        let ghost origin = chunkin@;
        let ghost origout = chunkout@;
        let air = Pixel { flags: PixelFlags::Normal, material: 0u16 };
        let base_x: i64 = coord.0 as i64 * 128;
        let base_y: i64 = coord.1 as i64 * 128;
        let mut px: usize = 0;
        let mut icx: usize = 0;
        let mut icy: usize = 0;
        let host = self.is_host;
        while px < CHUNK_LEN
            invariant
                px == icy * CHUNK_SIZE + icx,
                icx < CHUNK_SIZE,
                px <= CHUNK_LEN,
                chunk@.len() == CHUNK_LEN,
                orig.len() == CHUNK_LEN,
                host == self.is_host,
                air == (Pixel { flags: PixelFlags::Normal, material: 0u16 }),
                has_in ==> chunkin@.len() == CHUNK_LEN && origin.len() == CHUNK_LEN,
                has_out ==> chunkout@.len() == CHUNK_LEN && origout.len() == CHUNK_LEN,
                base_x == coord.0 as int * 128,
                base_y == coord.1 as int * 128,
                -2000 <= coord.0 <= 2000,
                -2000 <= coord.1 <= 2000,
                -100_000 <= x <= 100_000,
                -100_000 <= y <= 100_000,
                0 <= r <= 100_000,
                -200_001 <= dmx <= 200_001,
                -200_001 <= dmy <= 200_001,
                0 < den <= 200_000_000_000,
                host ==> forall|j: int|
                    0 <= j < px ==> #[trigger] chunk@[j] == line_data(
                        orig,
                        coord,
                        x as int,
                        y as int,
                        dmx as int,
                        dmy as int,
                        den as int,
                        r as int,
                    )[j],
                forall|j: int| px <= j < CHUNK_LEN ==> #[trigger] chunk@[j] == orig[j],
                has_in ==> forall|j: int|
                    0 <= j < px ==> #[trigger] chunkin@[j] == line_data(
                        origin,
                        coord,
                        x as int,
                        y as int,
                        dmx as int,
                        dmy as int,
                        den as int,
                        r as int,
                    )[j],
                has_in ==> forall|j: int| px <= j < CHUNK_LEN ==> #[trigger] chunkin@[j] == origin[j],
                has_out ==> forall|j: int|
                    0 <= j < px ==> #[trigger] chunkout@[j] == line_data(
                        origout,
                        coord,
                        x as int,
                        y as int,
                        dmx as int,
                        dmy as int,
                        den as int,
                        r as int,
                    )[j],
                has_out ==> forall|j: int|
                    px <= j < CHUNK_LEN ==> #[trigger] chunkout@[j] == origout[j],
            decreases CHUNK_LEN - px,
        {
            proof {
                assert((px as int) % (CHUNK_SIZE as int) == icx as int && (px as int) / (
                CHUNK_SIZE as int) == icy as int) by (nonlinear_arith)
                    requires
                        px as int == (icy as int) * (CHUNK_SIZE as int) + icx as int,
                        0 <= (icx as int) < CHUNK_SIZE as int,
                        0 <= icy as int,
                        CHUNK_SIZE as int == 128,
                ;
            }
            let pcx = base_x + icx as i64;
            let pcy = base_y + icy as i64;
            if line_point_close(pcx, pcy, x, y, dmx, dmy, den, r) {
                if self.is_host {
                    chunk.set(px, air);
                }
                if has_in {
                    chunkin.set(px, air);
                }
                if has_out {
                    chunkout.set(px, air);
                }
            }
            proof {
                if host {
                    assert(chunk@[px as int] == line_data(
                        orig,
                        coord,
                        x as int,
                        y as int,
                        dmx as int,
                        dmy as int,
                        den as int,
                        r as int,
                    )[px as int]);
                }
                if has_in {
                    assert(chunkin@[px as int] == line_data(
                        origin,
                        coord,
                        x as int,
                        y as int,
                        dmx as int,
                        dmy as int,
                        den as int,
                        r as int,
                    )[px as int]);
                }
                if has_out {
                    assert(chunkout@[px as int] == line_data(
                        origout,
                        coord,
                        x as int,
                        y as int,
                        dmx as int,
                        dmy as int,
                        den as int,
                        r as int,
                    )[px as int]);
                }
            }
            px += 1;
            icx += 1;
            if icx == CHUNK_SIZE {
                icx = 0;
                icy += 1;
            }
        }
        proof {
            if has_in {
                assert(chunkin@ =~= line_data(
                    origin,
                    coord,
                    x as int,
                    y as int,
                    dmx as int,
                    dmy as int,
                    den as int,
                    r as int,
                ));
            }
            if has_out {
                assert(chunkout@ =~= line_data(
                    origout,
                    coord,
                    x as int,
                    y as int,
                    dmx as int,
                    dmy as int,
                    den as int,
                    r as int,
                ));
            }
        }
        if self.is_host {
            let v = ChunkData { pixels: chunk };
            proof {
                crate::protocol::lemma_st_insert_wf(self.chunk_storage@, coord, v);
                assert(v@ =~= line_data(
                    orig,
                    coord,
                    x as int,
                    y as int,
                    dmx as int,
                    dmy as int,
                    den as int,
                    r as int,
                ));
            }
            self.chunk_storage.insert(coord, v);
        }
        if has_in {
            self.inbound_model.apply_chunk_data(coord, &ChunkData { pixels: chunkin });
        } else if has_out {
            let d = ChunkData { pixels: copy_vec(&chunkout) };
            self.inbound_model.apply_chunk_data(coord, &d);
        }
        if has_out {
            self.outbound_model.apply_chunk_data(coord, &ChunkData { pixels: chunkout });
        }
    }


    /// The circle pass over one accepted chunk; see `circle_data`.
    fn circle_one(&mut self, coord: ChunkCoord, x: i32, y: i32, r: i32, m: u16, do_continue: bool)
        requires
            old(self).wf(),
            -100_000 <= x <= 100_000,
            -100_000 <= y <= 100_000,
            0 <= r <= 100_000,
            -2000 <= coord.0 <= 2000,
            -2000 <= coord.1 <= 2000,
            old(self).is_host || old(self).nice_terraforming,
            do_continue == (m != 0),
        ensures
            old(self).nice_terraforming ==> circle_model_at(
                *old(self),
                *final(self),
                coord,
                x as int,
                y as int,
                r as int,
                m,
            ),
            final(self).wf(),
            terraform_frame(*old(self), *final(self)),
            final(self).is_host == old(self).is_host,
            final(self).nice_terraforming == old(self).nice_terraforming,
            forall|c: ChunkCoord| c != coord ==> circle_untouched(*old(self), *final(self), c),
            old(self).is_host && old(self).chunk_storage@.dom().contains(coord) ==> final(self).chunk_storage@.dom().contains(coord) && final(self).chunk_storage@[coord]@
                == circle_data(
                old(self).chunk_storage@[coord]@,
                coord,
                x as int,
                y as int,
                r as int,
                m,
            ),
            !old(self).is_host ==> final(self).chunk_storage == old(self).chunk_storage,
            !old(self).nice_terraforming ==> final(self).inbound_model == old(self).inbound_model && final(self).outbound_model == old(self).outbound_model,
            forall|c: ChunkCoord|
                (#[trigger] final(self).chunk_storage@.dom().contains(c))
                    <==> old(self).chunk_storage@.dom().contains(c) || (c == coord && old(self).is_host && !(old(self).chunk_storage@.dom().contains(coord) && (do_continue
                    || !old(self).nice_terraforming)) && !(do_continue
                    || !old(self).nice_terraforming)),
            forall|c: ChunkCoord|
                (#[trigger] final(self).inbound_model.contents().dom().contains(c))
                    <==> old(self).inbound_model.contents().dom().contains(c) || (c == coord
                    && final(self).inbound_model.contents().dom().contains(coord)),
            forall|c: ChunkCoord|
                (#[trigger] final(self).outbound_model.contents().dom().contains(c))
                    <==> old(self).outbound_model.contents().dom().contains(c) || (c == coord
                    && final(self).outbound_model.contents().dom().contains(coord)),
    {
        let stored = self.chunk_storage.get(coord);
        let mut chunk: Vec<Pixel>;
        let has_stored = match stored {
            Some(d) => {
                chunk = copy_vec(&d.pixels);
                true
            },
            None => {
                if do_continue || !self.nice_terraforming {
                    return;
                }
                chunk = crate::util::filled_vec(Pixel::unknown(), CHUNK_LEN);
                false
            },
        };
        let ghost orig = chunk@;
        let mut has_in = false;
        let mut chunkin: Vec<Pixel> = Vec::new();
        let mut has_out = false;
        let mut chunkout: Vec<Pixel> = Vec::new();
        if self.nice_terraforming {
            if let Some(d) = self.inbound_model.get_chunk_data(coord) {
                has_in = true;
                chunkin = copy_vec(&d.pixels);
            }
            if let Some(d) = self.outbound_model.get_chunk_data(coord) {
                has_out = true;
                chunkout = copy_vec(&d.pixels);
            }
        }
        let ghost origin = chunkin@;
        let ghost origout = chunkout@;
        let air = Pixel { flags: PixelFlags::Normal, material: m };
        let base_x: i64 = coord.0 as i64 * 128;
        let base_y: i64 = coord.1 as i64 * 128;
        let mut px: usize = 0;
        let mut icx: usize = 0;
        let mut icy: usize = 0;
        while px < CHUNK_LEN
            invariant
                px == icy * CHUNK_SIZE + icx,
                icx < CHUNK_SIZE,
                px <= CHUNK_LEN,
                icy <= CHUNK_SIZE,
                chunk@.len() == orig.len(),
                orig.len() == CHUNK_LEN,
                has_in ==> chunkin@.len() == origin.len() && origin.len() == CHUNK_LEN,
                has_out ==> chunkout@.len() == origout.len() && origout.len() == CHUNK_LEN,
                base_x == coord.0 as int * 128,
                base_y == coord.1 as int * 128,
                air == (Pixel { flags: PixelFlags::Normal, material: m }),
                -2000 <= coord.0 <= 2000,
                -2000 <= coord.1 <= 2000,
                -100_000 <= x <= 100_000,
                -100_000 <= y <= 100_000,
                0 <= r <= 100_000,
                forall|i: int|
                    0 <= i < px ==> #[trigger] chunk@[i] == circle_pixel(
                        orig[i],
                        coord.0 * (CHUNK_SIZE as int) + i % (CHUNK_SIZE as int),
                        coord.1 * (CHUNK_SIZE as int) + i / (CHUNK_SIZE as int),
                        x as int,
                        y as int,
                        r as int,
                        m,
                    ),
                forall|i: int| px <= i < CHUNK_LEN ==> #[trigger] chunk@[i] == orig[i],
                has_in ==> forall|i: int|
                    0 <= i < CHUNK_LEN ==> #[trigger] chunkin@[i] == (if i < px && circle_hits(
                        orig[i],
                        coord.0 * (CHUNK_SIZE as int) + i % (CHUNK_SIZE as int),
                        coord.1 * (CHUNK_SIZE as int) + i / (CHUNK_SIZE as int),
                        x as int,
                        y as int,
                        r as int,
                        m,
                    ) {
                        air
                    } else {
                        origin[i]
                    }),
                has_out ==> forall|i: int|
                    0 <= i < CHUNK_LEN ==> #[trigger] chunkout@[i] == (if i < px && circle_hits(
                        orig[i],
                        coord.0 * (CHUNK_SIZE as int) + i % (CHUNK_SIZE as int),
                        coord.1 * (CHUNK_SIZE as int) + i / (CHUNK_SIZE as int),
                        x as int,
                        y as int,
                        r as int,
                        m,
                    ) {
                        air
                    } else {
                        origout[i]
                    }),
            decreases CHUNK_LEN - px,
        {
            proof {
                assert((px as int) % (CHUNK_SIZE as int) == icx as int && (px as int) / (
                CHUNK_SIZE as int) == icy as int) by (nonlinear_arith)
                    requires
                        px as int == (icy as int) * (CHUNK_SIZE as int) + icx as int,
                        0 <= (icx as int) < CHUNK_SIZE as int,
                        0 <= icy as int,
                        CHUNK_SIZE as int == 128,
                ;
            }
            let pcx = base_x + icx as i64;
            let pcy = base_y + icy as i64;
            let dx = pcx - x as i64;
            let dy = pcy - y as i64;
            proof {
                assert(dx * dx + dy * dy <= 2_000_000_000_000 && 0 <= dx * dx && 0 <= dy * dy && (
                r as i64) * (r as i64) <= 10_000_000_000) by (nonlinear_arith)
                    requires
                        -600_000 <= dx <= 600_000,
                        -600_000 <= dy <= 600_000,
                        0 <= r <= 100_000,
                ;
            }
            if dx * dx + dy * dy <= (r as i64) * (r as i64) {
                if m == 0 || chunk[px].material != 0 {
                    chunk.set(px, air);
                    if has_in {
                        chunkin.set(px, air);
                    }
                    if has_out {
                        chunkout.set(px, air);
                    }
                }
            }
            proof {
                assert(pcx as int == coord.0 * (CHUNK_SIZE as int) + (px as int) % (
                CHUNK_SIZE as int));
                assert(pcy as int == coord.1 * (CHUNK_SIZE as int) + (px as int) / (
                CHUNK_SIZE as int));
                assert(chunk@[px as int] == circle_pixel(
                    orig[px as int],
                    coord.0 * (CHUNK_SIZE as int) + (px as int) % (CHUNK_SIZE as int),
                    coord.1 * (CHUNK_SIZE as int) + (px as int) / (CHUNK_SIZE as int),
                    x as int,
                    y as int,
                    r as int,
                    m,
                ));
            }
            px += 1;
            icx += 1;
            if icx == CHUNK_SIZE {
                icx = 0;
                icy += 1;
            }
        }
        proof {
            assert(chunk@ =~= circle_data(orig, coord, x as int, y as int, r as int, m));
            assert(orig =~= circle_gate(*old(self), coord));
            if has_in {
                assert(chunkin@ =~= circle_model(
                    origin,
                    orig,
                    coord,
                    x as int,
                    y as int,
                    r as int,
                    m,
                ));
            }
            if has_out {
                assert(chunkout@ =~= circle_model(
                    origout,
                    orig,
                    coord,
                    x as int,
                    y as int,
                    r as int,
                    m,
                ));
            }
        }
        if self.is_host {
            proof {
                crate::protocol::lemma_st_insert_wf(
                    self.chunk_storage@,
                    coord,
                    ChunkData { pixels: chunk },
                );
            }
        }
        if self.is_host {
            self.chunk_storage.insert(coord, ChunkData { pixels: chunk });
        }
        if has_in {
            self.inbound_model.apply_chunk_data(coord, &ChunkData { pixels: chunkin });
        } else if has_out {
            let d = ChunkData { pixels: copy_vec(&chunkout) };
            self.inbound_model.apply_chunk_data(coord, &d);
        }
        if has_out {
            self.outbound_model.apply_chunk_data(coord, &ChunkData { pixels: chunkout });
        }
    }
}

fn mul64(a: i64, b: i64) -> (p: i64)
    requires
        -3_000_000_000 <= a <= 3_000_000_000,
        -3_000_000_000 <= b <= 3_000_000_000,
    ensures
        p == a * b,
{
    proof {
        assert(-9_000_000_000_000_000_000 <= a * b <= 9_000_000_000_000_000_000) by (
        nonlinear_arith)
            requires
                -3_000_000_000 <= a <= 3_000_000_000,
                -3_000_000_000 <= b <= 3_000_000_000,
        ;
    }
    a * b
}

fn mul_ld(a: i64, b: i64) -> (p: i64)
    requires
        -400_000_000_000 <= a <= 400_000_000_000,
        -400_000 <= b <= 400_000,
    ensures
        p == a * b,
{
    proof {
        assert(-9_000_000_000_000_000_000 <= a * b <= 9_000_000_000_000_000_000) by (
        nonlinear_arith)
            requires
                -400_000_000_000 <= a <= 400_000_000_000,
                -400_000 <= b <= 400_000,
        ;
    }
    a * b
}

/// Machine-style truncating division.
fn tdiv64(a: i64, b: i64) -> (q: i64)
    requires
        1 <= b,
        -9_000_000_000_000_000_000 <= a <= 9_000_000_000_000_000_000,
    ensures
        q == tdiv(a as int, b as int),
{
    if a >= 0 {
        let q = ((a as u64) / (b as u64)) as i64;
        proof {
            assert((a as u64 as int) / (b as u64 as int) <= a) by (nonlinear_arith)
                requires
                    0 <= a,
                    1 <= b,
            ;
        }
        q
    } else {
        let n = (-a) as u64;
        let q0 = n / (b as u64);
        proof {
            assert((n as int) / (b as u64 as int) <= n) by (nonlinear_arith)
                requires
                    0 <= n,
                    1 <= b,
            ;
        }
        -(q0 as i64)
    }
}

/// Is `(pcx, pcy)` within `r` of the segment from `(x, y)` along
/// `(dmx, dmy)`? The projection parameter is the clamped truncated rational
/// `dot / den`, applied to each axis separately.
pub open spec fn line_close_spec(
    pcx: int,
    pcy: int,
    x: int,
    y: int,
    dmx: int,
    dmy: int,
    den: int,
    r: int,
) -> bool {
    let dcx = pcx - x;
    let dcy = pcy - y;
    let dot = dcx * dmx + dcy * dmy;
    let projx = if dot <= 0 {
        0
    } else if dot >= den {
        dmx
    } else {
        tdiv(dot * dmx, den)
    };
    let projy = if dot <= 0 {
        0
    } else if dot >= den {
        dmy
    } else {
        tdiv(dot * dmy, den)
    };
    let dxl = dcx - projx;
    let dyl = dcy - projy;
    dxl * dxl + dyl * dyl <= r * r
}

fn line_point_close(pcx: i64, pcy: i64, x: i32, y: i32, dmx: i64, dmy: i64, den: i64, r: i32) -> (b:
    bool)
    requires
        -600_000 <= pcx <= 600_000,
        -600_000 <= pcy <= 600_000,
        -100_000 <= x <= 100_000,
        -100_000 <= y <= 100_000,
        -200_001 <= dmx <= 200_001,
        -200_001 <= dmy <= 200_001,
        0 < den <= 200_000_000_000,
        0 <= r <= 100_000,
    ensures
        b == line_close_spec(
            pcx as int,
            pcy as int,
            x as int,
            y as int,
            dmx as int,
            dmy as int,
            den as int,
            r as int,
        ),
{
    let dcx = pcx - x as i64;
    let dcy = pcy - y as i64;
    let p1 = mul64(dcx, dmx);
    let p2 = mul64(dcy, dmy);
    proof {
        assert(-150_000_000_000 <= p1 <= 150_000_000_000 && -150_000_000_000 <= p2
            <= 150_000_000_000) by (nonlinear_arith)
            requires
                p1 == dcx * dmx,
                p2 == dcy * dmy,
                -700_000 <= dcx <= 700_000,
                -700_000 <= dcy <= 700_000,
                -200_001 <= dmx <= 200_001,
                -200_001 <= dmy <= 200_001,
        ;
    }
    let dot = p1 + p2;
    let projx: i64 = if dot <= 0 {
        0
    } else {
        if dot >= den {
            dmx
        } else {
            let pn = mul_ld(dot, dmx);
            proof {
                assert(-9_000_000_000_000_000_000 <= dot * dmx <= 9_000_000_000_000_000_000) by (
                nonlinear_arith)
                    requires
                        0 < dot <= 200_000_000_000,
                        -200_001 <= dmx <= 200_001,
                ;
            }
            let q = tdiv64(pn, den);
            proof {
                lemma_tdiv_bound(dot as int, dmx as int, den as int, 200_001);
            }
            q
        }
    };
    let projy: i64 = if dot <= 0 {
        0
    } else {
        if dot >= den {
            dmy
        } else {
            let pn = mul_ld(dot, dmy);
            proof {
                assert(-9_000_000_000_000_000_000 <= dot * dmy <= 9_000_000_000_000_000_000) by (
                nonlinear_arith)
                    requires
                        0 < dot <= 200_000_000_000,
                        -200_001 <= dmy <= 200_001,
                ;
            }
            let q = tdiv64(pn, den);
            proof {
                lemma_tdiv_bound(dot as int, dmy as int, den as int, 200_001);
            }
            q
        }
    };
    let dxl = dcx - projx;
    let dyl = dcy - projy;
    let q1 = mul64(dxl, dxl);
    let q2 = mul64(dyl, dyl);
    let rr = mul64(r as i64, r as i64);
    proof {
        assert(0 <= q1 <= 1_000_000_000_000_000 && 0 <= q2 <= 1_000_000_000_000_000 && 0 <= rr
            <= 10_000_000_000) by (nonlinear_arith)
            requires
                q1 == dxl * dxl,
                q2 == dyl * dyl,
                rr == (r as i64) * (r as i64),
                -1_000_000 <= dxl <= 1_000_000,
                -1_000_000 <= dyl <= 1_000_000,
                0 <= r <= 100_000,
        ;
    }
    q1 + q2 <= rr
}

fn in_chunk_box(qx: i64, qy: i64, csx: i64, csy: i64) -> (b: bool)
    requires
        -900_000 <= qx <= 900_000,
        -900_000 <= qy <= 900_000,
        -300_000 <= csx <= 300_000,
        -300_000 <= csy <= 300_000,
    ensures
        b == point_in_chunk(qx as int, qy as int, csx as int, csy as int),
{
    csx <= qx && qx <= csx + 127 && csy <= qy && qy <= csy + 127
}

/// A clamped projection never overshoots the axis delta.
proof fn lemma_tdiv_bound(dot: int, dm: int, den: int, bound: int)
    requires
        0 < dot < den,
        -bound <= dm <= bound,
        0 < bound,
    ensures
        -bound <= tdiv(dot * dm, den) <= bound,
{
    if dm >= 0 {
        assert(0 <= dot * dm <= den * bound) by (nonlinear_arith)
            requires
                0 < dot < den,
                0 <= dm <= bound,
        ;
        assert((dot * dm) / den <= bound) by (nonlinear_arith)
            requires
                0 <= dot * dm <= den * bound,
                0 < den,
        ;
    } else {
        assert(0 <= dot * (-dm) <= den * bound) by (nonlinear_arith)
            requires
                0 < dot < den,
                0 <= -dm <= bound,
        ;
        assert((dot * (-dm)) / den <= bound) by (nonlinear_arith)
            requires
                0 <= dot * (-dm) <= den * bound,
                0 < den,
        ;
        assert(-(dot * dm) == dot * (-dm)) by (nonlinear_arith);
    }
}

/// A whole stored chunk after the segment pass from `(x, y)` along
/// `(dmx, dmy)` with `den = dmx * dmx + dmy * dmy`.
pub open spec fn line_data(
    orig: Seq<Pixel>,
    coord: ChunkCoord,
    x: int,
    y: int,
    dmx: int,
    dmy: int,
    den: int,
    r: int,
) -> Seq<Pixel> {
    Seq::new(
        orig.len(),
        |i: int|
            if line_close_spec(
                coord.0 * (CHUNK_SIZE as int) + i % (CHUNK_SIZE as int),
                coord.1 * (CHUNK_SIZE as int) + i / (CHUNK_SIZE as int),
                x,
                y,
                dmx,
                dmy,
                den,
                r,
            ) {
                Pixel { flags: PixelFlags::Normal, material: 0 }
            } else {
                orig[i]
            },
    )
}

/// A whole stored chunk after the segment pass from `(x, y)` to `(lx, ly)`.
pub open spec fn line_cut_of(
    orig: Seq<Pixel>,
    coord: ChunkCoord,
    x: int,
    y: int,
    lx: int,
    ly: int,
    r: int,
) -> Seq<Pixel> {
    let dmx = lx - x;
    let dmy = ly - y;
    line_data(orig, coord, x, y, dmx, dmy, dmx * dmx + dmy * dmy, r)
}

/// Is the segment's chunk bounding box a single row or column? Such thin
/// boxes accept every chunk in them without a distance test.
pub open spec fn line_close_check(x: int, y: int, lx: int, ly: int, r: int) -> bool {
    let minx = if x < lx {
        cdiv(x - r)
    } else {
        cdiv(lx - r)
    };
    let maxx = if x < lx {
        cdiv(lx + r)
    } else {
        cdiv(x + r)
    };
    let miny = if y < ly {
        cdiv(y - r)
    } else {
        cdiv(ly - r)
    };
    let maxy = if y < ly {
        cdiv(ly + r)
    } else {
        cdiv(y + r)
    };
    maxx == minx || maxy == miny
}

/// Does pixel `(qx, qy)` lie inside the chunk starting at `(csx, csy)`?
pub open spec fn point_in_chunk(qx: int, qy: int, csx: int, csy: int) -> bool {
    csx <= qx <= csx + (CHUNK_SIZE as int) - 1 && csy <= qy <= csy + (CHUNK_SIZE as int) - 1
}

/// Does the segment pass rewrite chunk `c`? Within the bounding box, and
/// accepted by one of three tests: a one-row or one-column box, a chunk
/// corner within `r` of the segment, or one of the eight points flanking
/// an endpoint lying inside the chunk.
pub open spec fn line_visited(x: int, y: int, lx: int, ly: int, r: int, c: ChunkCoord) -> bool {
    let dmx = lx - x;
    let dmy = ly - y;
    let den = dmx * dmx + dmy * dmy;
    let csx = (c.0 as int) * (CHUNK_SIZE as int);
    let csy = (c.1 as int) * (CHUNK_SIZE as int);
    &&& line_box(x, y, lx, ly, r, c)
    &&& (line_close_check(x, y, lx, ly, r) || line_close_spec(csx, csy, x, y, dmx, dmy, den, r)
        || line_close_spec(csx + 127, csy + 127, x, y, dmx, dmy, den, r) || line_close_spec(
        csx + 127,
        csy,
        x,
        y,
        dmx,
        dmy,
        den,
        r,
    ) || line_close_spec(csx, csy + 127, x, y, dmx, dmy, den, r) || point_in_chunk(
        x + r,
        y,
        csx,
        csy,
    ) || point_in_chunk(x - r, y, csx, csy) || point_in_chunk(x, y + r, csx, csy)
        || point_in_chunk(x, y - r, csx, csy) || point_in_chunk(lx + r, ly, csx, csy)
        || point_in_chunk(lx - r, ly, csx, csy) || point_in_chunk(lx, ly + r, csx, csy)
        || point_in_chunk(lx, ly - r, csx, csy))
}

/// Has the segment's column sweep reached chunk `c` yet?
pub open spec fn line_processed(c: ChunkCoord, done_cx: int, done_cy_in_col: int) -> bool {
    (c.0 as int) < done_cx || ((c.0 as int) == done_cx && (c.1 as int) < done_cy_in_col)
}

/// What the segment pass does to the two models at one accepted chunk,
/// with the direction given explicitly: the inbound model absorbs the cut
/// of its own data — or, when it holds none, of the outbound data — and
/// the outbound model absorbs the cut of its data; a chunk neither model
/// holds stays out of both.
pub open spec fn line_model_data_at(
    pre: WorldManager,
    post: WorldManager,
    c: ChunkCoord,
    x: int,
    y: int,
    dmx: int,
    dmy: int,
    den: int,
    r: int,
) -> bool {
    &&& (pre.inbound_model.contents().dom().contains(c)
        ==> post.inbound_model.contents().dom().contains(c) && post.inbound_model.contents()[c]
            == line_data(pre.inbound_model.contents()[c], c, x, y, dmx, dmy, den, r))
    &&& (!pre.inbound_model.contents().dom().contains(c)
        && pre.outbound_model.contents().dom().contains(c)
        ==> post.inbound_model.contents().dom().contains(c) && post.inbound_model.contents()[c]
            == line_data(pre.outbound_model.contents()[c], c, x, y, dmx, dmy, den, r))
    &&& (!pre.inbound_model.contents().dom().contains(c)
        && !pre.outbound_model.contents().dom().contains(c)
        ==> !post.inbound_model.contents().dom().contains(c))
    &&& (pre.outbound_model.contents().dom().contains(c)
        ==> post.outbound_model.contents().dom().contains(c) && post.outbound_model.contents()[c]
            == line_data(pre.outbound_model.contents()[c], c, x, y, dmx, dmy, den, r))
    &&& (!pre.outbound_model.contents().dom().contains(c)
        ==> !post.outbound_model.contents().dom().contains(c))
}

/// What the segment pass does to the two models at one accepted chunk.
pub open spec fn line_model_at(
    pre: WorldManager,
    post: WorldManager,
    c: ChunkCoord,
    x: int,
    y: int,
    lx: int,
    ly: int,
    r: int,
) -> bool {
    let dmx = lx - x;
    let dmy = ly - y;
    line_model_data_at(pre, post, c, x, y, dmx, dmy, dmx * dmx + dmy * dmy, r)
}

/// The segment sweep's invariant: everything outside the processed visited
/// chunks stands untouched; processed visited chunks carry the cut, in the
/// host's storage and in the models under nice terraforming.
pub open spec fn line_inv(
    pre: WorldManager,
    cur: WorldManager,
    x: int,
    y: int,
    lx: int,
    ly: int,
    r: int,
    done_cx: int,
    done_cy_in_col: int,
) -> bool {
    &&& forall|c: ChunkCoord|
        !(line_processed(c, done_cx, done_cy_in_col) && line_visited(x, y, lx, ly, r, c))
            ==> #[trigger] circle_untouched(pre, cur, c)
    &&& pre.is_host ==> forall|c: ChunkCoord|
        line_processed(c, done_cx, done_cy_in_col) && line_visited(x, y, lx, ly, r, c) && (
        #[trigger] pre.chunk_storage@.dom().contains(c)) ==> cur.chunk_storage@.dom().contains(c)
            && cur.chunk_storage@[c]@ == line_cut_of(pre.chunk_storage@[c]@, c, x, y, lx, ly, r)
    &&& !pre.is_host ==> cur.chunk_storage == pre.chunk_storage
    &&& !pre.nice_terraforming ==> cur.inbound_model == pre.inbound_model && cur.outbound_model
        == pre.outbound_model
    &&& pre.nice_terraforming ==> forall|c: ChunkCoord|
        line_processed(c, done_cx, done_cy_in_col) && #[trigger] line_visited(x, y, lx, ly, r, c)
            ==> line_model_at(pre, cur, c, x, y, lx, ly, r)
    &&& forall|c: ChunkCoord|
        #[trigger] cur.chunk_storage@.dom().contains(c) <==> pre.chunk_storage@.dom().contains(c)
            || (pre.is_host && pre.nice_terraforming && line_processed(c, done_cx, done_cy_in_col)
                && line_visited(x, y, lx, ly, r, c))
}

/// The chunk bounding box of the segment pass, radius included.
pub open spec fn line_box(x: int, y: int, lx: int, ly: int, r: int, c: ChunkCoord) -> bool {
    let minx = if x < lx {
        cdiv(x - r)
    } else {
        cdiv(lx - r)
    };
    let maxx = if x < lx {
        cdiv(lx + r)
    } else {
        cdiv(x + r)
    };
    let miny = if y < ly {
        cdiv(y - r)
    } else {
        cdiv(ly - r)
    };
    let maxy = if y < ly {
        cdiv(ly + r)
    } else {
        cdiv(y + r)
    };
    &&& minx <= (c.0 as int) <= maxx
    &&& miny <= (c.1 as int) <= maxy
}

/// Clamp `v` into `[lo, hi]`.
pub open spec fn sclamp(v: int, lo: int, hi: int) -> int {
    if v < lo {
        lo
    } else if v > hi {
        hi
    } else {
        v
    }
}

/// Does the vertical cut consider this chunk at all? Only chunks whose left
/// edge lies within the cut's horizontal clip window.
pub open spec fn vcut_clip(chunk_start_x: int, x: int, radius: int) -> bool {
    x - radius - 5 - (CHUNK_SIZE as int) <= chunk_start_x < x + radius + 5
}

/// Is column `icx` of a row at global height `gy` inside the wiggled cut?
/// The per-row horizontal range is clamped into the chunk; the clamp mirrors
/// the band's in-chunk clipping, edge pixels included.
pub open spec fn vcut_in_range(icx: int, chunk_start_x: int, x: int, radius: int, wig: int) -> bool {
    let start = sclamp(x - radius - chunk_start_x + wig, 0, CHUNK_SIZE as int - 1);
    let end = sclamp(x + radius - chunk_start_x + wig, 0, CHUNK_SIZE as int);
    start <= icx < end
}

/// A whole stored chunk after the vertical cut, with `wiggles[gy - y_min]`
/// the horizontal offset of the row at global height `gy`.
pub open spec fn vcut_data(
    orig: Seq<Pixel>,
    coord: ChunkCoord,
    x: int,
    y_min: int,
    y_max: int,
    radius: int,
    wiggles: Seq<i32>,
) -> Seq<Pixel> {
    if !vcut_clip(coord.0 * (CHUNK_SIZE as int), x, radius) {
        orig
    } else {
        Seq::new(
            orig.len(),
            |i: int|
                {
                    let icx = i % (CHUNK_SIZE as int);
                    let gy = coord.1 * (CHUNK_SIZE as int) + i / (CHUNK_SIZE as int);
                    if y_min <= gy <= y_max && vcut_in_range(
                        icx,
                        coord.0 * (CHUNK_SIZE as int),
                        x,
                        radius,
                        wiggles[gy - y_min] as int,
                    ) {
                        Pixel { flags: PixelFlags::Normal, material: 0 }
                    } else {
                        orig[i]
                    }
                },
        )
    }
}

/// The material a `cut` writes: the given one, or air.
pub open spec fn mat_of(mat: Option<u16>) -> u16 {
    match mat {
        Some(m) => m,
        None => 0,
    }
}

/// Chunk `c` saw no change from the pass, in storage or either model.
pub open spec fn circle_untouched(pre: WorldManager, post: WorldManager, c: ChunkCoord) -> bool {
    &&& (post.chunk_storage@.dom().contains(c) <==> pre.chunk_storage@.dom().contains(c))
    &&& (pre.chunk_storage@.dom().contains(c) ==> post.chunk_storage@[c]
        == pre.chunk_storage@[c])
    &&& (post.inbound_model.contents().dom().contains(c)
        <==> pre.inbound_model.contents().dom().contains(c))
    &&& (pre.inbound_model.contents().dom().contains(c) ==> post.inbound_model.contents()[c]
        == pre.inbound_model.contents()[c])
    &&& (post.outbound_model.contents().dom().contains(c)
        <==> pre.outbound_model.contents().dom().contains(c))
    &&& (pre.outbound_model.contents().dom().contains(c) ==> post.outbound_model.contents()[c]
        == pre.outbound_model.contents()[c])
}

/// Every chunk outside the already-processed sweep, or never visited,
/// stands untouched; the host's processed stored chunks are rewritten.
pub open spec fn circle_inv(
    pre: WorldManager,
    cur: WorldManager,
    x: int,
    y: int,
    r: int,
    m: u16,
    done_cx: int,
    done_cy_in_col: int,
) -> bool {
    &&& forall|c: ChunkCoord|
        !(circle_processed(x, y, r, c, done_cx, done_cy_in_col) && circle_visited(
            x,
            y,
            r,
            c.0 as int,
            c.1 as int,
        )) ==> #[trigger] circle_untouched(pre, cur, c)
    &&& pre.is_host ==> forall|c: ChunkCoord|
        circle_processed(x, y, r, c, done_cx, done_cy_in_col) && circle_visited(
            x,
            y,
            r,
            c.0 as int,
            c.1 as int,
        ) && (#[trigger] pre.chunk_storage@.dom().contains(c)) ==> cur.chunk_storage@.dom().contains(
            c,
        ) && cur.chunk_storage@[c]@ == circle_data(pre.chunk_storage@[c]@, c, x, y, r, m)
    &&& !pre.is_host ==> cur.chunk_storage == pre.chunk_storage
    &&& !pre.nice_terraforming ==> cur.inbound_model == pre.inbound_model && cur.outbound_model
        == pre.outbound_model
    &&& pre.nice_terraforming ==> forall|c: ChunkCoord|
        circle_processed(x, y, r, c, done_cx, done_cy_in_col) && #[trigger] circle_visited(
            x,
            y,
            r,
            c.0 as int,
            c.1 as int,
        ) ==> circle_model_at(pre, cur, c, x, y, r, m)
    &&& forall|c: ChunkCoord|
        #[trigger] cur.chunk_storage@.dom().contains(c) <==> pre.chunk_storage@.dom().contains(c)
            || (pre.is_host && m == 0 && pre.nice_terraforming && circle_processed(
            x,
            y,
            r,
            c,
            done_cx,
            done_cy_in_col,
        ) && circle_visited(x, y, r, c.0 as int, c.1 as int))
}

/// Has the column sweep reached chunk `c` yet? Columns before `done_cx` are
/// done; in column `done_cx` the rows before `done_cy_in_col` are done.
pub open spec fn circle_processed(
    x: int,
    y: int,
    r: int,
    c: ChunkCoord,
    done_cx: int,
    done_cy_in_col: int,
) -> bool {
    &&& cdiv(x - r) <= (c.0 as int) <= cdiv(x + r)
    &&& cdiv(y - r) <= (c.1 as int) <= cdiv(y + r)
    &&& ((c.0 as int) < done_cx || ((c.0 as int) == done_cx && (c.1 as int) < done_cy_in_col))
}

} // verus!
