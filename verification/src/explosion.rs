//! Explosions: rays walk outward pixel by pixel, spending energy on the
//! materials they pierce; the reached distances then carve the stored world
//! by angular sector. The trigonometry that aims the rays lives with the
//! caller; everything here is exact integer arithmetic, with the angular
//! sector taken from an integer quadrant subdivision.

use vstd::prelude::*;

use crate::coords::{ChunkCoord, CHUNK_LEN, CHUNK_SIZE};
use crate::durability::dur_lookup;
use crate::manager::WorldManager;
use crate::pixel::{ChunkData, Pixel, PixelFlags};
use crate::terraform::terraform_frame;
use crate::util::copy_vec;

verus! {

/// How many rays a blast of radius `r` casts: the next power of two,
/// clamped between 8 and 256.
pub open spec fn rays_spec(r: u32) -> u32 {
    if r <= 8 {
        8u32
    } else if r <= 16 {
        16u32
    } else if r <= 32 {
        32u32
    } else if r <= 64 {
        64u32
    } else if r <= 128 {
        128u32
    } else {
        256u32
    }
}

pub fn explosion_rays(r: u32) -> (n: u32)
    ensures
        n == rays_spec(r),
        8 <= n <= 256,
        n % 4 == 0,
{
    if r <= 8 {
        8
    } else if r <= 16 {
        16
    } else if r <= 32 {
        32
    } else if r <= 64 {
        64
    } else if r <= 128 {
        128
    } else {
        256
    }
}

pub open spec fn abs_sp(v: int) -> int {
    if v < 0 {
        -v
    } else {
        v
    }
}

/// Which of `rays` equal angular sectors the direction `(dx, dy)` falls
/// into: a quarter per quadrant, subdivided by the monotone fraction
/// `ay / (ax + ay)` (or its mirror). Exact at every multiple of 45 degrees,
/// monotone in between.
pub open spec fn bucket_spec(dx: int, dy: int, rays: int) -> int {
    let s4 = rays / 4;
    let ax = abs_sp(dx);
    let ay = abs_sp(dy);
    if ax == 0 && ay == 0 {
        0
    } else if dx > 0 && dy >= 0 {
        (s4 * ay) / (ax + ay)
    } else if dx <= 0 && dy > 0 {
        s4 + (s4 * ax) / (ax + ay)
    } else if dx < 0 && dy <= 0 {
        2 * s4 + (s4 * ay) / (ax + ay)
    } else {
        3 * s4 + (s4 * ax) / (ax + ay)
    }
}

/// The angular sector of `(dx, dy)`; see `bucket_spec`.
pub fn angle_bucket(dx: i64, dy: i64, rays: u32) -> (b: u32)
    requires
        -1_000_000 <= dx <= 1_000_000,
        -1_000_000 <= dy <= 1_000_000,
        8 <= rays <= 256,
        rays % 4 == 0,
    ensures
        b as int == bucket_spec(dx as int, dy as int, rays as int),
        b < rays,
{
    let s4 = rays / 4;
    let ax: u64 = if dx < 0 {
        (-dx) as u64
    } else {
        dx as u64
    };
    let ay: u64 = if dy < 0 {
        (-dy) as u64
    } else {
        dy as u64
    };
    if ax == 0 && ay == 0 {
        0
    } else if dx > 0 && dy >= 0 {
        proof {
            assert(s4 as u64 as int * (ay as int) <= 256_000_000) by (nonlinear_arith)
                requires
                    0 <= (s4 as u64 as int) <= 64,
                    0 <= (ay as int) <= 1_000_001,
            ;
        }
        let sub = (s4 as u64 * ay) / (ax + ay);
        proof {
            lemma_sub_bucket(s4 as int, ay as int, (ax + ay) as int);
        }
        sub as u32
    } else if dx <= 0 && dy > 0 {
        proof {
            assert(s4 as u64 as int * (ax as int) <= 256_000_000) by (nonlinear_arith)
                requires
                    0 <= (s4 as u64 as int) <= 64,
                    0 <= (ax as int) <= 1_000_001,
            ;
        }
        let sub = (s4 as u64 * ax) / (ax + ay);
        proof {
            lemma_sub_bucket(s4 as int, ax as int, (ax + ay) as int);
        }
        s4 + sub as u32
    } else if dx < 0 && dy <= 0 {
        proof {
            assert(s4 as u64 as int * (ay as int) <= 256_000_000) by (nonlinear_arith)
                requires
                    0 <= (s4 as u64 as int) <= 64,
                    0 <= (ay as int) <= 1_000_001,
            ;
        }
        let sub = (s4 as u64 * ay) / (ax + ay);
        proof {
            lemma_sub_bucket(s4 as int, ay as int, (ax + ay) as int);
        }
        2 * s4 + sub as u32
    } else {
        proof {
            assert(s4 as u64 as int * (ax as int) <= 256_000_000) by (nonlinear_arith)
                requires
                    0 <= (s4 as u64 as int) <= 64,
                    0 <= (ax as int) <= 1_000_001,
            ;
        }
        let sub = (s4 as u64 * ax) / (ax + ay);
        proof {
            lemma_sub_bucket(s4 as int, ax as int, (ax + ay) as int);
        }
        3 * s4 + sub as u32
    }
}

/// The quadrant subdivision never reaches the next quadrant.
proof fn lemma_sub_bucket(s4: int, num: int, den: int)
    requires
        0 < s4 <= 64,
        0 <= num < den,
    ensures
        0 <= (s4 * num) / den < s4,
{
    assert(0 <= s4 * num && s4 * num <= s4 * den - s4) by (nonlinear_arith)
        requires
            0 < s4,
            0 <= num < den,
    ;
    assert((s4 * num) / den < s4) by (nonlinear_arith)
        requires
            0 <= s4 * num <= s4 * den - s4,
            0 < den,
            0 < s4,
    ;
    assert(0 <= (s4 * num) / den) by (nonlinear_arith)
        requires
            0 <= s4 * num,
            0 < den,
    ;
}

/// One pixel after the blast: cleared when its angular sector reached at
/// least its squared distance from the center.
pub open spec fn blast_pixel(orig: Pixel, pcx: int, pcy: int, x: int, y: int, rays: int, list: Seq<i32>) -> Pixel {
    let ddx = pcx - x;
    let ddy = pcy - y;
    if ddx * ddx + ddy * ddy <= list[bucket_spec(ddx, ddy, rays)] as int {
        Pixel { flags: PixelFlags::Normal, material: 0 }
    } else {
        orig
    }
}

/// A whole stored chunk after the blast.
pub open spec fn blast_data(orig: Seq<Pixel>, coord: ChunkCoord, x: int, y: int, rays: int, list: Seq<i32>) -> Seq<Pixel> {
    Seq::new(
        orig.len(),
        |i: int|
            blast_pixel(
                orig[i],
                coord.0 * (CHUNK_SIZE as int) + i % (CHUNK_SIZE as int),
                coord.1 * (CHUNK_SIZE as int) + i / (CHUNK_SIZE as int),
                x,
                y,
                rays,
                list,
            ),
    )
}

/// The pixels a ray reads at chunk `co`: the outbound model first, then
/// the inbound model, then the canonical storage.
pub open spec fn ray_source(wm: WorldManager, co: ChunkCoord) -> Option<Seq<Pixel>> {
    if wm.outbound_model.contents().dom().contains(co) {
        Some(wm.outbound_model.contents()[co])
    } else if wm.inbound_model.contents().dom().contains(co) {
        Some(wm.inbound_model.contents()[co])
    } else if wm.chunk_storage@.dom().contains(co) {
        Some(wm.chunk_storage@[co]@)
    } else {
        None
    }
}

/// The chunk holding pixel coordinate `(px, py)`.
pub open spec fn chunk_at(px: int, py: int) -> ChunkCoord {
    ChunkCoord(
        crate::terraform::cdiv(px) as i32,
        crate::terraform::cdiv(py) as i32,
    )
}

/// The in-chunk index of pixel coordinate `(px, py)`.
pub open spec fn pixel_index(px: int, py: int) -> int {
    (py - (crate::terraform::cdiv(py)) * (CHUNK_SIZE as int)) * (CHUNK_SIZE as int) + (px - (
    crate::terraform::cdiv(px)) * (CHUNK_SIZE as int))
}

/// The scaled energy cost of piercing one pixel: the material's cost under
/// the 16.16 fixed-point multiplier, saturated into 32 bits.
pub open spec fn pierce_cost(cost: u32, mult_fp: u32) -> int {
    let h = (cost * mult_fp) / 0x10000;
    if h > 0xffff_ffff {
        0xffff_ffff
    } else {
        h
    }
}

/// One whole ray walk: from `(cx, cy)` toward the target along the
/// stepping pattern given by `sx, sy, dx, dy, err`, spending `energy` on
/// each material in the way. The walk ends at the target; early at a wall
/// it cannot pierce or afford, or at an unknown chunk, reporting the last
/// coordinate it cleared. `fuel` bounds the walk's length.
pub open spec fn ray_walk(
    wm: WorldManager,
    cx: int,
    cy: int,
    end_x: int,
    end_y: int,
    sx: int,
    sy: int,
    dx: int,
    dy: int,
    err: int,
    energy: int,
    d: u8,
    mult_fp: u32,
    last: Option<(i32, i32)>,
    fuel: nat,
) -> Option<(i32, i32)>
    decreases fuel,
{
    if cx == end_x && cy == end_y {
        Some((cx as i32, cy as i32))
    } else if fuel == 0 {
        last
    } else {
        match ray_source(wm, chunk_at(cx, cy)) {
            None => last,
            Some(pixels) => {
                let pixel = pixels[pixel_index(cx, cy)];
                let blocked = match dur_lookup(wm.durabilities@, pixel.material) {
                    Some(stats) => stats.0 > d || energy < pierce_cost(stats.1, mult_fp),
                    None => false,
                };
                if blocked {
                    last
                } else {
                    let energy2 = match dur_lookup(wm.durabilities@, pixel.material) {
                        Some(stats) => energy - pierce_cost(stats.1, mult_fp),
                        None => energy,
                    };
                    let cx2 = if err > -dx && cx != end_x {
                        cx + sx
                    } else {
                        cx
                    };
                    let err2 = if err > -dx && cx != end_x {
                        err - dy
                    } else {
                        err
                    };
                    let cy2 = if err < dy && cy != end_y {
                        cy + sy
                    } else {
                        cy
                    };
                    let err3 = if err < dy && cy != end_y {
                        err2 + dx
                    } else {
                        err2
                    };
                    ray_walk(
                        wm,
                        cx2,
                        cy2,
                        end_x,
                        end_y,
                        sx,
                        sy,
                        dx,
                        dy,
                        err3,
                        energy2,
                        d,
                        mult_fp,
                        Some((cx as i32, cy as i32)),
                        (fuel - 1) as nat,
                    )
                }
            },
        }
    }
}

/// What `do_ray` returns: nothing for an empty walk or an unknown start,
/// else the full walk from the start.
pub open spec fn do_ray_spec(
    wm: WorldManager,
    x: int,
    y: int,
    end_x: int,
    end_y: int,
    ray: u32,
    d: u8,
    mult_fp: u32,
) -> Option<(i32, i32)> {
    let dx = abs_sp(end_x - x);
    let dy = abs_sp(end_y - y);
    if dx == 0 && dy == 0 {
        None
    } else if ray_source(wm, chunk_at(x, y)) is None {
        None
    } else {
        ray_walk(
            wm,
            x,
            y,
            end_x,
            end_y,
            if x < end_x { 1 } else { -1 },
            if y < end_y { 1 } else { -1 },
            dx,
            dy,
            tdiv_spec_half(dx, dy),
            ray as int,
            d,
            mult_fp,
            None,
            (dx + dy + 1) as nat,
        )
    }
}

/// The walk's initial error term: half the dominant axis delta, truncated.
pub open spec fn tdiv_spec_half(dx: int, dy: int) -> int {
    crate::terraform::tdiv(if dx > dy { dx } else { -dy }, 2)
}

/// Does the blast rewrite this stored chunk? Only chunks neither model
/// covers, within the operators' coordinate domain.
pub open spec fn blast_carved(pre: WorldManager, c: ChunkCoord) -> bool {
    &&& !pre.inbound_model.contents().dom().contains(c)
    &&& !pre.outbound_model.contents().dom().contains(c)
    &&& -1600 <= (c.0 as int) <= 1600
    &&& -1600 <= (c.1 as int) <= 1600
}

impl WorldManager {
    /// Walk one ray from `(x, y)` toward `(end_x, end_y)`, spending `ray`
    /// energy on the materials in the way. `mult_fp` scales each pixel's
    /// cost in 16.16 fixed point (the caller computes the square-traversal
    /// correction there). The walk stops at the first wall it cannot pierce
    /// or afford, at the first coordinate with no known chunk, or at the
    /// target; it reports the last coordinate it cleared, `None` when it
    /// never left the start.
    ///
    /// Pixel lookups read the outbound model first, then the inbound model,
    /// then the canonical storage.
    pub fn do_ray(
        &self,
        x: i32,
        y: i32,
        end_x: i32,
        end_y: i32,
        ray: u32,
        d: u8,
        mult_fp: u32,
    ) -> (res: Option<(i32, i32)>)
        requires
            self.wf(),
            -100_000 <= x <= 100_000,
            -100_000 <= y <= 100_000,
            -200_000 <= end_x <= 200_000,
            -200_000 <= end_y <= 200_000,
        ensures
            match res {
                Some(p) => {
                    &&& (if x <= end_x {
                        x <= p.0 <= end_x
                    } else {
                        end_x <= p.0 <= x
                    })
                    &&& (if y <= end_y {
                        y <= p.1 <= end_y
                    } else {
                        end_y <= p.1 <= y
                    })
                },
                None => true,
            },
            end_x == x && end_y == y ==> res is None,
            res is Some ==> {
                let c0 = ChunkCoord(
                    crate::terraform::cdiv(x as int) as i32,
                    crate::terraform::cdiv(y as int) as i32,
                );
                self.outbound_model.contents().dom().contains(c0)
                    || self.inbound_model.contents().dom().contains(c0)
                    || self.chunk_storage@.dom().contains(c0)
            },
            res == do_ray_spec(
                *self,
                x as int,
                y as int,
                end_x as int,
                end_y as int,
                ray,
                d,
                mult_fp,
            ),
    {
        let dx: i64 = if end_x as i64 > x as i64 {
            end_x as i64 - x as i64
        } else {
            x as i64 - end_x as i64
        };
        let dy: i64 = if end_y as i64 > y as i64 {
            end_y as i64 - y as i64
        } else {
            y as i64 - end_y as i64
        };
        if dx == 0 && dy == 0 {
            return None;
        }
        let sx: i32 = if x < end_x {
            1
        } else {
            -1
        };
        let sy: i32 = if y < end_y {
            1
        } else {
            -1
        };
        let mut err: i64 = (if dx > dy {
            dx
        } else {
            -dy
        }) / 2;
        let mut cx = x;
        let mut cy = y;
        let mut energy = ray;
        let mut last_co = chunk_of(cx, cy);
        let mut working: ChunkData;
        match self.lookup_chunk(last_co) {
            Some(c) => {
                working = c;
            },
            None => {
                return None;
            },
        }
        let ghost c0 = ChunkCoord(
            crate::terraform::cdiv(x as int) as i32,
            crate::terraform::cdiv(y as int) as i32,
        );
        let ghost walk0 = do_ray_spec(
            *self,
            x as int,
            y as int,
            end_x as int,
            end_y as int,
            ray,
            d,
            mult_fp,
        );
        proof {
            assert(last_co == c0);
            assert(last_co == chunk_at(x as int, y as int));
            assert(err as int == tdiv_spec_half(dx as int, dy as int));
        }
        let mut last_coord: Option<(i32, i32)> = None;
        let mut fuel: u64 = (dx + dy) as u64 + 1;
        let ghost f0 = fuel;
        while (cx != end_x || cy != end_y) && fuel > 0
            invariant
                self.wf(),
                c0 == (ChunkCoord(
                    crate::terraform::cdiv(x as int) as i32,
                    crate::terraform::cdiv(y as int) as i32,
                )),
                self.outbound_model.contents().dom().contains(c0)
                    || self.inbound_model.contents().dom().contains(c0)
                    || self.chunk_storage@.dom().contains(c0),
                0 <= dx <= 400_000,
                0 <= dy <= 400_000,
                fuel <= f0,
                f0 <= 801_000,
                -(200_000 + (f0 - fuel) * 400_000) <= err <= 200_000 + (f0 - fuel) * 400_000,
                -100_000 <= x <= 100_000,
                -100_000 <= y <= 100_000,
                -200_000 <= end_x <= 200_000,
                -200_000 <= end_y <= 200_000,
                (if x <= end_x {
                    x <= cx <= end_x
                } else {
                    end_x <= cx <= x
                }),
                (if y <= end_y {
                    y <= cy <= end_y
                } else {
                    end_y <= cy <= y
                }),
                sx == (if x < end_x {
                    1
                } else {
                    -1
                }),
                sy == (if y < end_y {
                    1
                } else {
                    -1
                }),
                working.wf(),
                walk0 == do_ray_spec(
                    *self,
                    x as int,
                    y as int,
                    end_x as int,
                    end_y as int,
                    ray,
                    d,
                    mult_fp,
                ),
                walk0 == ray_walk(
                    *self,
                    cx as int,
                    cy as int,
                    end_x as int,
                    end_y as int,
                    sx as int,
                    sy as int,
                    dx as int,
                    dy as int,
                    err as int,
                    energy as int,
                    d,
                    mult_fp,
                    last_coord,
                    fuel as nat,
                ),
                ray_source(*self, last_co) == Some(working@),
                match last_coord {
                    Some(p) => {
                        &&& (if x <= end_x {
                            x <= p.0 <= end_x
                        } else {
                            end_x <= p.0 <= x
                        })
                        &&& (if y <= end_y {
                            y <= p.1 <= end_y
                        } else {
                            end_y <= p.1 <= y
                        })
                    },
                    None => true,
                },
            decreases fuel,
        {
            let co = chunk_of(cx, cy);
            proof {
                assert(co == chunk_at(cx as int, cy as int));
            }
            if co != last_co {
                match self.lookup_chunk(co) {
                    Some(c) => {
                        working = c;
                    },
                    None => {
                        return last_coord;
                    },
                }
                last_co = co;
            }
            proof {
                assert(last_co == chunk_at(cx as int, cy as int));
            }
            let icx = rem_cs(cx);
            let icy = rem_cs(cy);
            let px = icy * CHUNK_SIZE + icx;
            proof {
                assert(px as int == pixel_index(cx as int, cy as int));
            }
            let pixel = working.pixels[px];
            proof {
                assert(pixel == ray_source(*self, chunk_at(cx as int, cy as int))->Some_0[
                    pixel_index(cx as int, cy as int)]);
            }
            if let Some(stats) = self.durabilities.get(pixel.material) {
                proof {
                    assert(stats.1 as u64 as int * (mult_fp as u64 as int)
                        <= 0xffff_fffe_0000_0001) by (nonlinear_arith)
                        requires
                            0 <= (stats.1 as u64 as int) < 0x1_0000_0000,
                            0 <= (mult_fp as u64 as int) < 0x1_0000_0000,
                    ;
                }
                let prod: u64 = stats.1 as u64 * mult_fp as u64;
                let h64: u64 = prod >> 16u64;
                proof {
                    assert(prod >> 16u64 == prod / 0x10000) by (bit_vector);
                }
                let h: u32 = if h64 > 0xffff_ffff {
                    0xffff_ffff
                } else {
                    h64 as u32
                };
                proof {
                    assert(h as int == pierce_cost(stats.1, mult_fp));
                }
                if stats.0 > d || energy < h {
                    return last_coord;
                }
                energy = energy - h;
            }
            last_coord = Some((cx, cy));
            let e2 = err;
            if e2 > -dx && cx != end_x {
                err = err - dy;
                cx = cx + sx;
            }
            if e2 < dy && cy != end_y {
                err = err + dx;
                cy = cy + sy;
            }
            fuel = fuel - 1;
        }
        if cx == end_x && cy == end_y {
            Some((cx, cy))
        } else {
            last_coord
        }
    }

    /// One whole ray: the squared distance it reached, or zero where it
    /// never moved.
    pub fn ray_reach(
        &self,
        x: i32,
        y: i32,
        end_x: i32,
        end_y: i32,
        ray: u32,
        d: u8,
        mult_fp: u32,
    ) -> (reach: i32)
        requires
            self.wf(),
            -100_000 <= x <= 100_000,
            -100_000 <= y <= 100_000,
            -200_000 <= end_x <= 200_000,
            -200_000 <= end_y <= 200_000,
        ensures
            0 <= reach,
            reach as int == (match do_ray_spec(
                *self,
                x as int,
                y as int,
                end_x as int,
                end_y as int,
                ray,
                d,
                mult_fp,
            ) {
                Some(p) => {
                    let dist = (p.0 - x) * (p.0 - x) + (p.1 - y) * (p.1 - y);
                    if dist > 0x7fff_ffff {
                        0x7fff_ffff
                    } else {
                        dist
                    }
                },
                None => 0,
            }),
    {
        let ghost w = do_ray_spec(
            *self,
            x as int,
            y as int,
            end_x as int,
            end_y as int,
            ray,
            d,
            mult_fp,
        );
        match self.do_ray(x, y, end_x, end_y, ray, d, mult_fp) {
            Some(p) => {
                proof {
                    assert(w == Some(p));
                }
                let ddx: i64 = p.0 as i64 - x as i64;
                let ddy: i64 = p.1 as i64 - y as i64;
                if ddx != 0 || ddy != 0 {
                    proof {
                        assert(0 <= ddx * ddx <= 250_000_000_000 && 0 <= ddy * ddy
                            <= 250_000_000_000) by (nonlinear_arith)
                            requires
                                -500_000 <= ddx <= 500_000,
                                -500_000 <= ddy <= 500_000,
                        ;
                    }
                    let dist = ddx * ddx + ddy * ddy;
                    proof {
                        assert(dist as int == (p.0 - x as int) * (p.0 - x as int) + (p.1
                            - y as int) * (p.1 - y as int));
                    }
                    if dist > 0x7fff_ffff {
                        0x7fff_ffff
                    } else {
                        dist as i32
                    }
                } else {
                    proof {
                        assert((p.0 - x as int) * (p.0 - x as int) + (p.1 - y as int) * (p.1
                            - y as int) == 0) by (nonlinear_arith)
                            requires
                                p.0 == x && p.1 == y,
                        ;
                    }
                    0
                }
            },
            None => {
                proof {
                    assert(w is None);
                }
                0
            },
        }
    }

    /// The pixel source a ray prefers: outbound, then inbound, then the
    /// canonical storage.
    fn lookup_chunk(&self, co: ChunkCoord) -> (r: Option<ChunkData>)
        requires
            self.wf(),
        ensures
            match r {
                Some(d) => d.wf() && ray_source(*self, co) == Some(d@),
                None => ray_source(*self, co) is None,
            },
    {
        if let Some(c) = self.outbound_model.get_chunk_data(co) {
            return Some(c);
        }
        if let Some(c) = self.inbound_model.get_chunk_data(co) {
            return Some(c);
        }
        match self.chunk_storage.get(co) {
            Some(d) => Some(ChunkData { pixels: copy_vec(&d.pixels) }),
            None => None,
        }
    }

    /// Carve the blast into the canonical storage: for every stored chunk
    /// that neither model currently covers, clear each pixel whose angular
    /// sector reached at least as far as the pixel lies. The models and
    /// every model-covered chunk stay untouched; no chunk appears or
    /// disappears.
    pub fn cut_through_world_explosion_list(&mut self, x: i32, y: i32, rays: u32, list: &Vec<i32>)
        requires
            old(self).wf(),
            -100_000 <= x <= 100_000,
            -100_000 <= y <= 100_000,
            8 <= rays <= 256,
            rays % 4 == 0,
            list@.len() == rays,
            forall|i: int| 0 <= i < list@.len() ==> 0 <= #[trigger] list@[i] <= 2_000_000_000,
        ensures
            final(self).wf(),
            terraform_frame(*old(self), *final(self)),
            final(self).inbound_model == old(self).inbound_model,
            final(self).outbound_model == old(self).outbound_model,
            final(self).chunk_storage@.dom() == old(self).chunk_storage@.dom(),
            // a blast no ray of which reached anywhere changes nothing
            (forall|i: int| 0 <= i < list@.len() ==> #[trigger] list@[i] == 0) ==> *final(self)
                == *old(self),
            forall|c: ChunkCoord|
                #[trigger] old(self).chunk_storage@.dom().contains(c) && !blast_carved(
                    *old(self),
                    c,
                ) ==> final(self).chunk_storage@[c] == old(self).chunk_storage@[c],
            (exists|i: int| 0 <= i < list@.len() && #[trigger] list@[i] > 0) ==> forall|
                c: ChunkCoord,
            |
                #[trigger] old(self).chunk_storage@.dom().contains(c) && blast_carved(
                    *old(self),
                    c,
                ) ==> final(self).chunk_storage@[c]@ == blast_data(
                    old(self).chunk_storage@[c]@,
                    c,
                    x as int,
                    y as int,
                    rays as int,
                    list@,
                ),
    {
        let ghost pre = *old(self);
        // mirror of the blast's radius guard: every ray that reached
        // nothing leaves the world exactly as it was
        let mut any_reach = false;
        let nl = list.len();
        let mut k: usize = 0;
        while k < nl
            invariant
                nl == list@.len(),
                k <= nl,
                forall|i: int| 0 <= i < list@.len() ==> 0 <= #[trigger] list@[i],
                any_reach == (exists|i: int| 0 <= i < k && #[trigger] list@[i] > 0),
            decreases nl - k,
        {
            if list[k] > 0 {
                any_reach = true;
            }
            k += 1;
        }
        if !any_reach {
            proof {
                assert forall|i: int| 0 <= i < list@.len() implies #[trigger] list@[i] == 0 by {}
            }
            return;
        }
        proof {
            self.chunk_storage.lemma_view();
        }
        let n = self.chunk_storage.num_entries();
        let mut i: usize = 0;
        while i < n
            invariant
                self.wf(),
                n == pre.chunk_storage.key_seq().len(),
                i <= n,
                -100_000 <= x <= 100_000,
                -100_000 <= y <= 100_000,
                8 <= rays <= 256,
                rays % 4 == 0,
                list@.len() == rays,
                forall|j: int| 0 <= j < list@.len() ==> 0 <= #[trigger] list@[j] <= 2_000_000_000,
                self.chunk_storage.key_seq() == pre.chunk_storage.key_seq(),
                self.chunk_storage@.dom() == pre.chunk_storage@.dom(),
                self.inbound_model == pre.inbound_model,
                self.outbound_model == pre.outbound_model,
                terraform_frame(pre, *self),
                forall|k: int|
                    0 <= k < pre.chunk_storage.key_seq().len()
                        ==> pre.chunk_storage@.dom().contains(
                        #[trigger] pre.chunk_storage.key_seq()[k],
                    ),
                forall|k: int|
                    i <= k < n
                        ==> #[trigger] self.chunk_storage@[pre.chunk_storage.key_seq()[k]]
                        == pre.chunk_storage@[pre.chunk_storage.key_seq()[k]],
                forall|k: int|
                    0 <= k < i && !blast_carved(pre, #[trigger] pre.chunk_storage.key_seq()[k])
                        ==> self.chunk_storage@[pre.chunk_storage.key_seq()[k]]
                        == pre.chunk_storage@[pre.chunk_storage.key_seq()[k]],
                forall|k: int|
                    0 <= k < i && blast_carved(pre, #[trigger] pre.chunk_storage.key_seq()[k])
                        ==> self.chunk_storage@[pre.chunk_storage.key_seq()[k]]@ == blast_data(
                        pre.chunk_storage@[pre.chunk_storage.key_seq()[k]]@,
                        pre.chunk_storage.key_seq()[k],
                        x as int,
                        y as int,
                        rays as int,
                        list@,
                    ),
            decreases n - i,
        {
            let coord = self.chunk_storage.key_at(i);
            let in_models = self.inbound_model.get_chunk_data(coord).is_some()
                || self.outbound_model.get_chunk_data(coord).is_some();
            // Chunks beyond the operators' coordinate domain lie outside any
            // possible blast radius; skipping them keeps the pixel
            // arithmetic within its proven bounds.
            let far = coord.0 > 1600 || coord.0 < -1600 || coord.1 > 1600 || coord.1 < -1600;
            if !in_models && !far {
                let orig_data = self.chunk_storage.val_at(i);
                let mut buf = copy_vec(&orig_data.pixels);
                let ghost orig = buf@;
                let air0 = Pixel { flags: PixelFlags::Normal, material: 0u16 };
                let base_x: i64 = coord.0 as i64 * 128;
                let base_y: i64 = coord.1 as i64 * 128;
                let mut px: usize = 0;
                let mut icx: usize = 0;
                let mut icy: usize = 0;
                while px < CHUNK_LEN
                    invariant
                        px == icy * CHUNK_SIZE + icx,
                        icx < CHUNK_SIZE,
                        px <= CHUNK_LEN,
                        buf@.len() == CHUNK_LEN,
                        orig.len() == CHUNK_LEN,
                        air0 == (Pixel { flags: PixelFlags::Normal, material: 0u16 }),
                        base_x == coord.0 as int * 128,
                        base_y == coord.1 as int * 128,
                        -1600 <= coord.0 <= 1600,
                        -1600 <= coord.1 <= 1600,
                        -100_000 <= x <= 100_000,
                        -100_000 <= y <= 100_000,
                        8 <= rays <= 256,
                        rays % 4 == 0,
                        list@.len() == rays,
                        forall|j: int|
                            0 <= j < list@.len() ==> 0 <= #[trigger] list@[j] <= 2_000_000_000,
                        forall|j: int|
                            0 <= j < px ==> #[trigger] buf@[j] == blast_data(
                                orig,
                                coord,
                                x as int,
                                y as int,
                                rays as int,
                                list@,
                            )[j],
                        forall|j: int| px <= j < CHUNK_LEN ==> #[trigger] buf@[j] == orig[j],
                    decreases CHUNK_LEN - px,
                {
                    proof {
                        assert((px as int) % (CHUNK_SIZE as int) == icx as int && (px as int) / (
                        CHUNK_SIZE as int) == icy as int) by (nonlinear_arith)
                            requires
                                px as int == (icy as int) * (CHUNK_SIZE as int) + icx as int,
                                0 <= (icx as int) < CHUNK_SIZE as int,
                                0 <= icy as int,
                                CHUNK_SIZE as int == 128,
                        ;
                    }
                    let pcx = base_x + icx as i64;
                    let pcy = base_y + icy as i64;
                    let ddx = pcx - x as i64;
                    let ddy = pcy - y as i64;
                    proof {
                        assert(0 <= ddx * ddx <= 360_000_000_000 && 0 <= ddy * ddy
                            <= 360_000_000_000) by (nonlinear_arith)
                            requires
                                -600_000 <= ddx <= 600_000,
                                -600_000 <= ddy <= 600_000,
                        ;
                    }
                    let dd = ddx * ddx + ddy * ddy;
                    let b = angle_bucket(ddx, ddy, rays);
                    if dd <= list[b as usize] as i64 {
                        buf.set(px, air0);
                    }
                    proof {
                        assert(buf@[px as int] == blast_data(
                            orig,
                            coord,
                            x as int,
                            y as int,
                            rays as int,
                            list@,
                        )[px as int]);
                    }
                    px += 1;
                    icx += 1;
                    if icx == CHUNK_SIZE {
                        icx = 0;
                        icy += 1;
                    }
                }
                let v = ChunkData { pixels: buf };
                proof {
                    crate::protocol::lemma_st_insert_wf(self.chunk_storage@, coord, v);
                    assert(v@ =~= blast_data(orig, coord, x as int, y as int, rays as int, list@));
                }
                self.chunk_storage.set_val_at(i, v);
            }
            i += 1;
        }
        proof {
            assert forall|c: ChunkCoord|
                #[trigger] pre.chunk_storage@.dom().contains(c) && !blast_carved(pre, c) implies
                final(self).chunk_storage@[c] == pre.chunk_storage@[c] by {
                pre.chunk_storage.lemma_view();
                let ks = pre.chunk_storage.key_seq();
                let k = choose|k: int| 0 <= k < ks.len() && ks[k] == c;
                assert(self.chunk_storage@[ks[k]] == pre.chunk_storage@[ks[k]]);
            }
            assert forall|c: ChunkCoord|
                #[trigger] pre.chunk_storage@.dom().contains(c) && blast_carved(pre, c) implies
                final(self).chunk_storage@[c]@ == blast_data(
                pre.chunk_storage@[c]@,
                c,
                x as int,
                y as int,
                rays as int,
                list@,
            ) by {
                pre.chunk_storage.lemma_view();
                let ks = pre.chunk_storage.key_seq();
                let k = choose|k: int| 0 <= k < ks.len() && ks[k] == c;
                assert(self.chunk_storage@[ks[k]]@ == blast_data(
                    pre.chunk_storage@[ks[k]]@,
                    ks[k],
                    x as int,
                    y as int,
                    rays as int,
                    list@,
                ));
            }
        }
    }
}

/// Which chunk a pixel coordinate is in, by floor division.
fn chunk_of(px: i32, py: i32) -> (c: ChunkCoord)
    requires
        -10_000_000 <= px <= 10_000_000,
        -10_000_000 <= py <= 10_000_000,
    ensures
        c.0 as int == crate::terraform::cdiv(px as int),
        c.1 as int == crate::terraform::cdiv(py as int),
{
    ChunkCoord(floor_div_cs32(px), floor_div_cs32(py))
}

fn floor_div_cs32(v: i32) -> (q: i32)
    requires
        -10_000_000 <= v <= 10_000_000,
    ensures
        q as int == crate::terraform::cdiv(v as int),
        128 * (q as int) <= v < 128 * (q as int) + 128,
{
    if v >= 0 {
        let q = ((v as u32) / 128) as i32;
        proof {
            assert(128 * q <= v < 128 * q + 128 && q == (v as int) / 128) by (nonlinear_arith)
                requires
                    0 <= v <= 10_000_000,
                    q == (v as u32 as int) / 128,
            ;
        }
        q
    } else {
        let a = (-v) as u32;
        let q0 = a / 128;
        let rem = a % 128;
        let q = if rem == 0 {
            -(q0 as i32)
        } else {
            -(q0 as i32) - 1
        };
        proof {
            assert(a == 128 * q0 + rem && rem < 128) by (nonlinear_arith)
                requires
                    q0 == a as int / 128,
                    rem == a as int % 128,
                    a <= 10_000_000,
            ;
            if rem == 0 {
                assert(v as int == 128 * q && (v as int) / 128 == q) by (nonlinear_arith)
                    requires
                        v == -(a as i32),
                        a == 128 * q0 + rem,
                        rem == 0,
                        q == -(q0 as i32),
                        a <= 10_000_000,
                ;
            } else {
                assert(v as int == 128 * q + (128 - rem) && 0 < 128 - rem < 128 && (v as int)
                    / 128 == q) by (nonlinear_arith)
                    requires
                        v == -(a as i32),
                        a == 128 * q0 + rem,
                        0 < rem < 128,
                        q == -(q0 as i32) - 1,
                        a <= 10_000_000,
                ;
            }
            assert(128 * q <= v < 128 * q + 128) by (nonlinear_arith)
                requires
                    q == (v as int) / 128,
                    -10_000_000 <= v < 0,
            ;
        }
        q
    }
}

/// The in-chunk offset of a pixel coordinate.
fn rem_cs(v: i32) -> (r: usize)
    requires
        -10_000_000 <= v <= 10_000_000,
    ensures
        r < CHUNK_SIZE,
        r as int == v as int - (crate::terraform::cdiv(v as int)) * (CHUNK_SIZE as int),
{
    let q = floor_div_cs32(v);
    let r = (v as i64) - 128 * (q as i64);
    r as usize
}

} // verus!
