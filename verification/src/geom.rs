//! The verified geometry pass: deriving a renderable primitive per solid
//! wall, and the half-plane point-in-sector test.
//!
//! Everything is exact integer arithmetic on the fixed-point model. A wall's
//! length is the floor of the Euclidean distance between its endpoints, in
//! thousandths of a unit. Its yaw is the arc tangent of its XZ slope in
//! thousandths of a degree, computed by a rational approximation that is
//! exact at 0 and at the axes and stays within `[-90000, 90000]`; a vertical
//! segment is a `90000` or `-90000` wall rather than a division by zero.

use vstd::arithmetic::div_mod::{lemma_div_is_ordered, lemma_div_multiples_vanish,
    lemma_div_pos_is_pos};
use vstd::prelude::*;

use crate::level::{
    prim_views, sector_views, wall_views, wf_sector, wf_wall, LevelMap, MapError, MapErrorV,
    Sector, SectorV, Wall, WallPrimitive, WallPrimitiveV, WallV, COORD_LIMIT,
};
use crate::parse::copy_bytes;

verus! {

/// The magnitude of an integer.
pub open spec fn mag(x: int) -> int {
    if x < 0 {
        -x
    } else {
        x
    }
}

/// The floor of the square root of `s` (0 for negative `s`).
pub open spec fn sqrt_floor(s: int) -> int
    decreases s,
{
    if s <= 0 {
        0
    } else {
        let r = sqrt_floor(s - 1);
        if (r + 1) * (r + 1) <= s {
            r + 1
        } else {
            r
        }
    }
}

/// `sqrt_floor(s)` is the unique `r >= 0` with `r * r <= s < (r + 1)^2`.
pub proof fn lemma_sqrt_floor_props(s: int)
    requires
        s >= 0,
    ensures
        0 <= sqrt_floor(s),
        sqrt_floor(s) * sqrt_floor(s) <= s,
        s < (sqrt_floor(s) + 1) * (sqrt_floor(s) + 1),
    decreases s,
{
    if s > 0 {
        lemma_sqrt_floor_props(s - 1);
        let r0 = sqrt_floor(s - 1);
        if (r0 + 1) * (r0 + 1) <= s {
            assert((r0 + 1 + 1) * (r0 + 1 + 1) > s) by (nonlinear_arith)
                requires
                    r0 >= 0,
                    s - 1 < (r0 + 1) * (r0 + 1),
            ;
        }
    }
}

/// Any `r` in the square-root window of `s` is `sqrt_floor(s)`.
pub proof fn lemma_sqrt_floor_unique(s: int, r: int)
    requires
        s >= 0,
        0 <= r,
        r * r <= s,
        s < (r + 1) * (r + 1),
    ensures
        r == sqrt_floor(s),
{
    lemma_sqrt_floor_props(s);
    let q = sqrt_floor(s);
    if r < q {
        assert((r + 1) * (r + 1) <= q * q) by (nonlinear_arith)
            requires
                0 <= r < q,
        ;
    }
    if q < r {
        assert((q + 1) * (q + 1) <= r * r) by (nonlinear_arith)
            requires
                0 <= q < r,
        ;
    }
}

/// The integer square root, by binary search.
pub fn isqrt(s: u64) -> (r: u64)
    ensures
        r as int == sqrt_floor(s as int),
        r * r <= s,
{
    let mut lo: u64 = 0;
    let mut hi: u64 = 0xFFFF_FFFF;
    while lo < hi
        invariant
            lo <= hi + 1,
            hi <= 0xFFFF_FFFF,
            (lo * lo) as int <= s as int,
            (s as int) < ((hi as int) + 1) * ((hi as int) + 1),
        decreases hi - lo,
    {
        let mid = lo + (hi - lo + 1) / 2;
        proof {
            assert(lo < mid <= hi);
            assert(mid * mid <= 0xFFFF_FFFFu64 * 0xFFFF_FFFFu64) by (nonlinear_arith)
                requires
                    mid <= 0xFFFF_FFFFu64,
            ;
        }
        if mid * mid <= s {
            lo = mid;
        } else {
            hi = mid - 1;
        }
    }
    proof {
        lemma_sqrt_floor_unique(s as int, lo as int);
    }
    lo
}

/// The denominator of the slope after both sides have been halved until the
/// denominator fits sixteen bits.
pub open spec fn shrink_d(d: int) -> int
    decreases d,
{
    if d < 65536 {
        d
    } else {
        shrink_d(d / 2)
    }
}

/// The numerator of the slope, halved in lockstep with its denominator.
pub open spec fn shrink_n(n: int, d: int) -> int
    decreases d,
{
    if d < 65536 {
        n
    } else {
        shrink_n(n / 2, d / 2)
    }
}

/// Shrinking keeps the denominator positive and below sixteen bits, and keeps
/// the numerator within `[0, denominator]`.
pub proof fn lemma_shrink_props(n: int, d: int)
    requires
        0 <= n <= d,
        1 <= d,
    ensures
        1 <= shrink_d(d) < 65536,
        0 <= shrink_n(n, d) <= shrink_d(d),
    decreases d,
{
    if d >= 65536 {
        assert(n / 2 <= d / 2) by {
            lemma_div_is_ordered(n, d, 2);
        }
        assert(0 <= n / 2) by {
            lemma_div_pos_is_pos(n, 2);
        }
        lemma_shrink_props(n / 2, d / 2);
    }
}

/// The rational arc-tangent kernel, in thousandths of a degree, for a slope
/// `n / d` with `0 <= n <= d`: `atan(t) ~ 45 t + 15.642 t (1 - t)` degrees.
/// It is exact at `t = 0` and `t = 1`.
pub open spec fn atan_core(n: int, d: int) -> int {
    (n * (45000 * d + 15642 * (d - n))) / (d * d)
}

/// The kernel stays within `[0, 45000]` on `0 <= n <= d`.
pub proof fn lemma_atan_core_range(n: int, d: int)
    requires
        0 <= n <= d,
        1 <= d,
    ensures
        0 <= atan_core(n, d) <= 45000,
{
    let num = n * (45000 * d + 15642 * (d - n));
    let den = d * d;
    assert(num >= 0 && den >= 1) by (nonlinear_arith)
        requires
            0 <= n <= d,
            1 <= d,
            num == n * (45000 * d + 15642 * (d - n)),
            den == d * d,
    ;
    assert(45000 * den - num == (d - n) * (45000 * d - 15642 * n)) by (nonlinear_arith)
        requires
            num == n * (45000 * d + 15642 * (d - n)),
            den == d * d,
    ;
    assert((d - n) * (45000 * d - 15642 * n) >= 0) by (nonlinear_arith)
        requires
            0 <= n <= d,
    ;
    assert(atan_core(n, d) >= 0) by {
        lemma_div_pos_is_pos(num, den);
    }
    assert(atan_core(n, d) <= 45000) by {
        lemma_div_is_ordered(num, 45000 * den, den);
        lemma_div_multiples_vanish(45000, den);
    }
}

/// The unsigned yaw, in thousandths of a degree, of a segment whose absolute
/// run is `adx` and absolute rise is `adz`: 90 degrees for a vertical
/// segment, 0 for a horizontal one, and the kernel (or its complement) after
/// shrinking otherwise.
pub open spec fn yaw_abs(adz: int, adx: int) -> int {
    if adx == 0 {
        90000
    } else if adz == 0 {
        0
    } else if adz <= adx {
        atan_core(shrink_n(adz, adx), shrink_d(adx))
    } else {
        90000 - atan_core(shrink_n(adx, adz), shrink_d(adz))
    }
}

/// The signed yaw, in thousandths of a degree, of the segment with run `dx`
/// and rise `dz`: the sign of the slope `dz / dx`, with a vertical segment
/// taking the sign of `dz`.
pub open spec fn yaw_millideg(dx: int, dz: int) -> int {
    let a = yaw_abs(mag(dz), mag(dx));
    if (dx > 0 && dz >= 0) || (dx < 0 && dz <= 0) || (dx == 0 && dz >= 0) {
        a
    } else {
        -a
    }
}

/// The yaw of any segment is a finite angle between -90 and 90 degrees.
pub proof fn lemma_yaw_range(dx: int, dz: int)
    ensures
        -90000 <= yaw_millideg(dx, dz) <= 90000,
{
    let adz = mag(dz);
    let adx = mag(dx);
    if adx != 0 && adz != 0 {
        if adz <= adx {
            lemma_shrink_props(adz, adx);
            lemma_atan_core_range(shrink_n(adz, adx), shrink_d(adx));
        } else {
            lemma_shrink_props(adx, adz);
            lemma_atan_core_range(shrink_n(adx, adz), shrink_d(adz));
        }
    }
}

/// A vertical segment has a yaw of exactly 90 degrees, signed by the
/// direction it runs in, not an undefined slope.
pub proof fn lemma_vertical_wall_yaw(dx: int, dz: int)
    requires
        dx == 0,
        dz != 0,
    ensures
        yaw_millideg(dx, dz) == if dz > 0 {
            90000int
        } else {
            -90000int
        },
{
}

/// A horizontal segment has a yaw of exactly 0 degrees.
pub proof fn lemma_horizontal_wall_yaw(dx: int, dz: int)
    requires
        dz == 0,
        dx != 0,
    ensures
        yaw_millideg(dx, dz) == 0,
{
}

/// The magnitude of an `i64` above the minimum.
fn abs_i64(x: i64) -> (r: u64)
    requires
        x > i64::MIN,
    ensures
        r as int == mag(x as int),
{
    if x >= 0 {
        x as u64
    } else {
        (-x) as u64
    }
}

/// The arc-tangent kernel on shrunk operands.
fn atan_core_exec(n: u64, d: u64) -> (r: u64)
    requires
        1 <= d < 65536,
        n <= d,
    ensures
        r as int == atan_core(n as int, d as int),
        r <= 45000,
{
    proof {
        assert(45000 * d + 15642 * (d - n) <= 45000 * 65535 + 15642 * 65535) by (nonlinear_arith)
            requires
                n <= d < 65536,
        ;
        assert(n * (45000 * d + 15642 * (d - n)) <= 65535u64 * (45000 * 65535
            + 15642 * 65535)) by (nonlinear_arith)
            requires
                n <= d < 65536,
        ;
        assert(1 <= d * d < 65536u64 * 65536u64) by (nonlinear_arith)
            requires
                1 <= d < 65536,
        ;
    }
    let num = n * (45000 * d + 15642 * (d - n));
    let den = d * d;
    let r = num / den;
    proof {
        lemma_atan_core_range(n as int, d as int);
    }
    r
}

/// The signed yaw of a segment, in thousandths of a degree.
pub fn yaw_millidegrees(dx: i64, dz: i64) -> (r: i64)
    requires
        dx > i64::MIN,
        dz > i64::MIN,
    ensures
        r as int == yaw_millideg(dx as int, dz as int),
        -90000 <= r <= 90000,
{
    let adx = abs_i64(dx);
    let adz = abs_i64(dz);
    let a: u64 = if adx == 0 {
        90000
    } else if adz == 0 {
        0
    } else if adz <= adx {
        let mut n = adz;
        let mut d = adx;
        while d >= 65536
            invariant
                1 <= d,
                n <= d,
                shrink_n(adz as int, adx as int) == shrink_n(n as int, d as int),
                shrink_d(adx as int) == shrink_d(d as int),
            decreases d,
        {
            proof {
                lemma_div_is_ordered(n as int, d as int, 2);
            }
            n = n / 2;
            d = d / 2;
        }
        atan_core_exec(n, d)
    } else {
        let mut n = adx;
        let mut d = adz;
        while d >= 65536
            invariant
                1 <= d,
                n <= d,
                shrink_n(adx as int, adz as int) == shrink_n(n as int, d as int),
                shrink_d(adz as int) == shrink_d(d as int),
            decreases d,
        {
            proof {
                lemma_div_is_ordered(n as int, d as int, 2);
            }
            n = n / 2;
            d = d / 2;
        }
        90000 - atan_core_exec(n, d)
    };
    if (dx > 0 && dz >= 0) || (dx < 0 && dz <= 0) || (dx == 0 && dz >= 0) {
        a as i64
    } else {
        -(a as i64)
    }
}

/// Half of `a`, rounded toward negative infinity.
fn floor_half(a: i64) -> (r: i64)
    requires
        -4_000_000_000 <= a <= 4_000_000_000,
    ensures
        r as int == (a as int) / 2,
{
    if a >= 0 {
        ((a as u64) / 2) as i64
    } else {
        let m = (-a) as u64;
        let h = (m + 1) / 2;
        proof {
            assert((a as int) / 2 == -(((m as int) + 1) / 2)) by (nonlinear_arith)
                requires
                    a < 0,
                    m == -(a as int),
            ;
        }
        -(h as i64)
    }
}

/// The primitive derived from solid wall `w` of sector `s`: the box centred
/// on the segment's midpoint at mid-height, as high as the sector, as long as
/// the segment, yawed by the segment's slope, carrying the wall's texture
/// reference. Midpoints round half-thousandths toward negative infinity.
pub open spec fn prim_of(w: WallV, s: SectorV) -> WallPrimitiveV {
    WallPrimitiveV {
        center_x: (w.xstart + w.xend) / 2,
        center_y: (s.floor_height + s.ceil_height) / 2,
        center_z: (w.zstart + w.zend) / 2,
        height: s.ceil_height - s.floor_height,
        length: sqrt_floor((w.xend - w.xstart) * (w.xend - w.xstart) + (w.zend - w.zstart) * (
        w.zend - w.zstart)),
        yaw: yaw_millideg(w.xend - w.xstart, w.zend - w.zstart),
        tex: w.tex,
    }
}

/// Prefixes already-emitted primitives onto the outcome of the rest of a
/// generation pass.
pub open spec fn combine(acc: Seq<WallPrimitiveV>, r: Result<Seq<WallPrimitiveV>, MapErrorV>) -> Result<
    Seq<WallPrimitiveV>,
    MapErrorV,
> {
    match r {
        Ok(ps) => Ok(acc + ps),
        Err(e) => Err(e),
    }
}

/// The primitives of sector `s`'s walls from range offset `k` on: portal
/// walls are skipped, a solid wall with coinciding endpoints aborts the pass,
/// and every other solid wall contributes its primitive, in wall order.
pub open spec fn gen_sector_from(s: SectorV, walls: Seq<WallV>, k: int) -> Result<
    Seq<WallPrimitiveV>,
    MapErrorV,
>
    decreases s.nwalls - k,
{
    if k < 0 || k >= s.nwalls {
        Ok(Seq::empty())
    } else {
        let w = walls[s.firstwall + k];
        if w.portalid >= 0 {
            gen_sector_from(s, walls, k + 1)
        } else if w.xend == w.xstart && w.zend == w.zstart {
            Err(MapErrorV::DegenerateWall { wall: s.firstwall + k, id: w.id })
        } else {
            match gen_sector_from(s, walls, k + 1) {
                Ok(rest) => Ok(seq![prim_of(w, s)] + rest),
                Err(e) => Err(e),
            }
        }
    }
}

/// The primitives of the sectors from index `i` on, each sector's wall range
/// checked against the global wall list before it is walked.
pub open spec fn gen_from(sectors: Seq<SectorV>, walls: Seq<WallV>, i: int) -> Result<
    Seq<WallPrimitiveV>,
    MapErrorV,
>
    decreases sectors.len() - i,
{
    if i < 0 || i >= sectors.len() {
        Ok(Seq::empty())
    } else {
        let s = sectors[i];
        if s.firstwall + s.nwalls > walls.len() {
            Err(MapErrorV::SectorWallRangeOutOfBounds {
                sector: i,
                firstwall: s.firstwall,
                nwalls: s.nwalls,
                wall_total: walls.len() as int,
            })
        } else {
            match gen_sector_from(s, walls, 0) {
                Ok(ps) => combine(ps, gen_from(sectors, walls, i + 1)),
                Err(e) => Err(e),
            }
        }
    }
}

/// What a whole geometry pass yields: one primitive per solid wall, in sector
/// order and wall order within each sector, or the first error met.
pub open spec fn spec_generate(sectors: Seq<SectorV>, walls: Seq<WallV>) -> Result<
    Seq<WallPrimitiveV>,
    MapErrorV,
> {
    gen_from(sectors, walls, 0)
}

/// The outcome of a pass that still has sector `s`'s offsets `k..` to walk
/// and then the sectors from `nexti` on.
pub open spec fn gen_tail(
    sectors: Seq<SectorV>,
    walls: Seq<WallV>,
    s: SectorV,
    k: int,
    nexti: int,
) -> Result<Seq<WallPrimitiveV>, MapErrorV> {
    match gen_sector_from(s, walls, k) {
        Ok(ps) => combine(ps, gen_from(sectors, walls, nexti)),
        Err(e) => Err(e),
    }
}

/// Derives the renderable primitives of every solid wall, mirroring
/// [`spec_generate`] on the map's views.
pub fn generate_wall_primitives(sectors: &Vec<Sector>, walls: &Vec<Wall>) -> (r: Result<
    Vec<WallPrimitive>,
    MapError,
>)
    requires
        forall|k: int| 0 <= k < sectors@.len() ==> wf_sector(#[trigger] sectors@[k]@),
        forall|k: int| 0 <= k < walls@.len() ==> wf_wall(#[trigger] walls@[k]@),
    ensures
        match r {
            Ok(ps) => spec_generate(sector_views(sectors@), wall_views(walls@)) == Ok::<
                Seq<WallPrimitiveV>,
                MapErrorV,
            >(prim_views(ps@)),
            Err(e) => spec_generate(sector_views(sectors@), wall_views(walls@)) == Err::<
                Seq<WallPrimitiveV>,
                MapErrorV,
            >(e@),
        },
{
    let ghost ss = sector_views(sectors@);
    let ghost ww = wall_views(walls@);
    let mut out: Vec<WallPrimitive> = Vec::new();
    let mut si: usize = 0;
    proof {
        assert(prim_views(out@) =~= Seq::<WallPrimitiveV>::empty());
        match gen_from(ss, ww, 0) {
            Ok(ps) => {
                assert(Seq::<WallPrimitiveV>::empty() + ps =~= ps);
            },
            Err(_) => {},
        }
    }
    while si < sectors.len()
        invariant
            si <= sectors@.len(),
            ss == sector_views(sectors@),
            ww == wall_views(walls@),
            forall|k: int| 0 <= k < sectors@.len() ==> wf_sector(#[trigger] sectors@[k]@),
            forall|k: int| 0 <= k < walls@.len() ==> wf_wall(#[trigger] walls@[k]@),
            spec_generate(ss, ww) == combine(prim_views(out@), gen_from(ss, ww, si as int)),
        decreases sectors@.len() - si,
    {
        let s = sectors[si];
        proof {
            assert(ss[si as int] == sectors@[si as int]@);
            assert(wf_sector(s@));
        }
        if s.nwalls > walls.len() || s.firstwall > walls.len() - s.nwalls {
            let err = MapError::SectorWallRangeOutOfBounds {
                sector: si,
                firstwall: s.firstwall,
                nwalls: s.nwalls,
                wall_total: walls.len(),
            };
            proof {
                assert(gen_from(ss, ww, si as int) == Err::<Seq<WallPrimitiveV>, MapErrorV>(
                    err@,
                ));
            }
            return Err(err);
        }
        proof {
            assert(gen_from(ss, ww, si as int) == gen_tail(ss, ww, s@, 0, si as int + 1));
        }
        let mut k: usize = 0;
        while k < s.nwalls
            invariant
                k <= s.nwalls,
                si < sectors@.len(),
                s == sectors@[si as int],
                s@ == ss[si as int],
                wf_sector(s@),
                s.firstwall + s.nwalls <= walls@.len() <= usize::MAX,
                ss == sector_views(sectors@),
                ww == wall_views(walls@),
                forall|j: int| 0 <= j < walls@.len() ==> wf_wall(#[trigger] walls@[j]@),
                spec_generate(ss, ww) == combine(
                    prim_views(out@),
                    gen_tail(ss, ww, s@, k as int, si as int + 1),
                ),
            decreases s.nwalls - k,
        {
            let wi = s.firstwall + k;
            let w = &walls[wi];
            proof {
                assert(ww[wi as int] == walls@[wi as int]@);
                assert(wf_wall(w@));
            }
            if w.portalid >= 0 {
                proof {
                    assert(gen_sector_from(s@, ww, k as int) == gen_sector_from(
                        s@,
                        ww,
                        k as int + 1,
                    ));
                }
            } else if w.xend == w.xstart && w.zend == w.zstart {
                let err = MapError::DegenerateWall { wall: wi, id: w.id };
                proof {
                    assert(gen_sector_from(s@, ww, k as int) == Err::<
                        Seq<WallPrimitiveV>,
                        MapErrorV,
                    >(err@));
                }
                return Err(err);
            } else {
                let dx = w.xend - w.xstart;
                let dz = w.zend - w.zstart;
                let cx = floor_half(w.xstart + w.xend);
                let cy = floor_half(s.floor_height + s.ceil_height);
                let cz = floor_half(w.zstart + w.zend);
                let height = s.ceil_height - s.floor_height;
                let adx = abs_i64(dx);
                let adz = abs_i64(dz);
                proof {
                    assert((adx as int) * (adx as int) <= 4_000_000_000_000_000_000
                        && (adz as int) * (adz as int) <= 4_000_000_000_000_000_000) by (
                    nonlinear_arith)
                        requires
                            0 <= adx <= 2_000_000_000,
                            0 <= adz <= 2_000_000_000,
                    ;
                    assert((adx as int) * (adx as int) == (dx as int) * (dx as int)) by (
                    nonlinear_arith)
                        requires
                            adx as int == dx as int || adx as int == -(dx as int),
                    ;
                    assert((adz as int) * (adz as int) == (dz as int) * (dz as int)) by (
                    nonlinear_arith)
                        requires
                            adz as int == dz as int || adz as int == -(dz as int),
                    ;
                }
                let sq = adx * adx + adz * adz;
                let length = isqrt(sq);
                proof {
                    assert(length <= 3_000_000_000) by (nonlinear_arith)
                        requires
                            (length as int) * (length as int) <= sq as int,
                            sq as int <= 8_000_000_000_000_000_000,
                    ;
                }
                let yaw = yaw_millidegrees(dx, dz);
                let tex = copy_bytes(&w.tex);
                let prim = WallPrimitive {
                    center_x: cx,
                    center_y: cy,
                    center_z: cz,
                    height,
                    length: length as i64,
                    yaw,
                    tex,
                };
                let ghost old_out = out@;
                out.push(prim);
                proof {
                    assert(prim@ == prim_of(ww[wi as int], s@));
                    assert(prim_views(out@) =~= prim_views(old_out).push(prim@));
                    match gen_sector_from(s@, ww, k as int + 1) {
                        Ok(rest) => {
                            assert(gen_sector_from(s@, ww, k as int) == Ok::<
                                Seq<WallPrimitiveV>,
                                MapErrorV,
                            >(seq![prim_of(ww[wi as int], s@)] + rest));
                            match gen_from(ss, ww, si as int + 1) {
                                Ok(tail) => {
                                    assert(prim_views(old_out) + ((seq![
                                        prim_of(ww[wi as int], s@)] + rest) + tail) =~= prim_views(out@) + (rest + tail));
                                },
                                Err(_) => {},
                            }
                        },
                        Err(_) => {},
                    }
                }
            }
            k = k + 1;
        }
        proof {
            assert(gen_sector_from(s@, ww, k as int) == Ok::<Seq<WallPrimitiveV>, MapErrorV>(
                Seq::empty(),
            ));
            match gen_from(ss, ww, si as int + 1) {
                Ok(tail) => {
                    assert(Seq::<WallPrimitiveV>::empty() + tail =~= tail);
                },
                Err(_) => {},
            }
        }
        si = si + 1;
    }
    proof {
        assert(gen_from(ss, ww, si as int) == Ok::<Seq<WallPrimitiveV>, MapErrorV>(
            Seq::empty(),
        ));
        assert(prim_views(out@) + Seq::<WallPrimitiveV>::empty() =~= prim_views(out@));
    }
    Ok(out)
}

/// The signed side value of point `(px, pz)` against the directed segment
/// from `(ax, az)` to `(bx, bz)`: positive means the point lies on the outer
/// side of the segment's half-plane.
pub open spec fn side_val(px: int, pz: int, ax: int, az: int, bx: int, bz: int) -> int {
    -((px - ax) * (bz - az) - (pz - az) * (bx - ax))
}

/// The side value of a point against a wall.
pub open spec fn wall_side(px: int, pz: int, w: WallV) -> int {
    side_val(px, pz, w.xstart, w.zstart, w.xend, w.zend)
}

/// A 2D point in the XZ plane, in thousandths of a unit.
#[derive(Clone, Copy, Debug, PartialEq, Eq, Structural)]
pub struct Point2 {
    pub x: i64,
    pub z: i64,
}

/// The signed side value of `p` against the directed segment from `a` to
/// `b`, whose coordinates must be within the parsed fixed-point range.
pub fn point_side(p: &Point2, a: &Point2, b: &Point2) -> (r: i128)
    requires
        -COORD_LIMIT <= a.x <= COORD_LIMIT,
        -COORD_LIMIT <= a.z <= COORD_LIMIT,
        -COORD_LIMIT <= b.x <= COORD_LIMIT,
        -COORD_LIMIT <= b.z <= COORD_LIMIT,
    ensures
        r as int == side_val(p.x as int, p.z as int, a.x as int, a.z as int, b.x as int,
            b.z as int),
{
    let px = p.x as i128;
    let pz = p.z as i128;
    let ax = a.x as i128;
    let az = a.z as i128;
    let bx = b.x as i128;
    let bz = b.z as i128;
    proof {
        let dpx = px - ax;
        let dbz = bz - az;
        let dpz = pz - az;
        let dbx = bx - ax;
        assert(dpx * dbz <= 0x2000_0000_0000_0000_0000_0000_0000i128 && dpx * dbz
            >= -0x2000_0000_0000_0000_0000_0000_0000i128) by (nonlinear_arith)
            requires
                -9_300_000_000_000_000_000i128 <= dpx <= 9_300_000_000_000_000_000i128,
                -2_000_000_000i128 <= dbz <= 2_000_000_000i128,
        ;
        assert(dpz * dbx <= 0x2000_0000_0000_0000_0000_0000_0000i128 && dpz * dbx
            >= -0x2000_0000_0000_0000_0000_0000_0000i128) by (nonlinear_arith)
            requires
                -9_300_000_000_000_000_000i128 <= dpz <= 9_300_000_000_000_000_000i128,
                -2_000_000_000i128 <= dbx <= 2_000_000_000i128,
        ;
    }
    -((px - ax) * (bz - az) - (pz - az) * (bx - ax))
}

/// The point lies on the inner side of every wall in the index range
/// `[first, first + count)` of `walls`.
pub open spec fn spec_inside_range(
    walls: Seq<WallV>,
    first: int,
    count: int,
    px: int,
    pz: int,
) -> bool {
    forall|j: int| 0 <= j < count ==> wall_side(px, pz, #[trigger] walls[first + j]) <= 0
}

/// The point lies on the inner side of every wall of the list.
pub open spec fn spec_inside(walls: Seq<WallV>, px: int, pz: int) -> bool {
    forall|i: int| 0 <= i < walls.len() ==> wall_side(px, pz, #[trigger] walls[i]) <= 0
}

/// The half-plane test over one wall range: false as soon as one wall sees
/// the point on its outer side. Meaningful only for consistently wound wall
/// loops; an inconsistently wound sector classifies arbitrarily.
fn point_in_range(walls: &Vec<Wall>, first: usize, count: usize, p: &Point2) -> (r: bool)
    requires
        first + count <= walls@.len(),
        forall|j: int| 0 <= j < walls@.len() ==> wf_wall(#[trigger] walls@[j]@),
    ensures
        r == spec_inside_range(wall_views(walls@), first as int, count as int, p.x as int,
            p.z as int),
{
    let ghost ww = wall_views(walls@);
    let n = walls.len();
    assert(n == walls@.len());
    let mut k: usize = 0;
    while k < count
        invariant
            0 <= k <= count,
            first + count <= walls@.len() <= usize::MAX,
            ww == wall_views(walls@),
            forall|j: int| 0 <= j < walls@.len() ==> wf_wall(#[trigger] walls@[j]@),
            forall|j: int| 0 <= j < k ==> wall_side(p.x as int, p.z as int, #[trigger] ww[
                first + j]) <= 0,
        decreases count - k,
    {
        let w = &walls[first + k];
        proof {
            assert(ww[first + k as int] == walls@[first + k as int]@);
            assert(wf_wall(w@));
        }
        let a = Point2 { x: w.xstart, z: w.zstart };
        let b = Point2 { x: w.xend, z: w.zend };
        let side = point_side(p, &a, &b);
        if side > 0 {
            return false;
        }
        k = k + 1;
    }
    true
}

impl LevelMap {
    /// The half-plane test against every wall of the whole map at once,
    /// regardless of sector ranges: true when no wall sees the point on its
    /// outer side. Useful for single-room maps; for one sector's loop see
    /// [`Self::sector_contains_point`].
    pub fn p_is_in_sector(&self, p: &Point2) -> (r: bool)
        requires
            self.wf(),
        ensures
            r == spec_inside(wall_views(self.walls@), p.x as int, p.z as int),
    {
        let r = point_in_range(&self.walls, 0, self.walls.len(), p);
        proof {
            let ww = wall_views(self.walls@);
            if spec_inside_range(ww, 0, ww.len() as int, p.x as int, p.z as int) {
                assert forall|i: int| 0 <= i < ww.len() implies wall_side(p.x as int, p.z as int,
                    #[trigger] ww[i]) <= 0 by {
                    assert(wall_side(p.x as int, p.z as int, ww[0 + i]) <= 0);
                }
            }
            if spec_inside(ww, p.x as int, p.z as int) {
                assert forall|j: int| 0 <= j < ww.len() implies wall_side(p.x as int, p.z as int,
                    #[trigger] ww[0 + j]) <= 0 by {
                    assert(wall_side(p.x as int, p.z as int, ww[0 + j]) <= 0);
                }
            }
        }
        r
    }

    /// The half-plane test against one sector's wall loop: `None` when the
    /// sector index or its wall range is out of bounds, otherwise whether the
    /// point lies on the inner side of every wall of that sector.
    pub fn sector_contains_point(&self, sector_index: usize, p: &Point2) -> (r: Option<bool>)
        requires
            self.wf(),
        ensures
            match r {
                Some(b) => {
                    &&& sector_index < self.sectors@.len()
                    &&& self.sectors@[sector_index as int]@.firstwall + self.sectors@[
                        sector_index as int]@.nwalls <= self.walls@.len()
                    &&& b == spec_inside_range(
                        wall_views(self.walls@),
                        self.sectors@[sector_index as int]@.firstwall,
                        self.sectors@[sector_index as int]@.nwalls,
                        p.x as int,
                        p.z as int,
                    )
                },
                None => sector_index >= self.sectors@.len() || self.sectors@[
                    sector_index as int]@.firstwall + self.sectors@[sector_index as int]@.nwalls > self.walls@.len(),
            },
    {
        if sector_index >= self.sectors.len() {
            return None;
        }
        let s = &self.sectors[sector_index];
        if s.nwalls > self.walls.len() || s.firstwall > self.walls.len() - s.nwalls {
            return None;
        }
        Some(point_in_range(&self.walls, s.firstwall, s.nwalls, p))
    }

    /// Rebuilds the derived primitive list from the parsed sectors and walls.
    /// The parsed data is never touched; on failure the primitive list is
    /// left empty rather than half-filled.
    pub fn gen_wallmods(&mut self) -> (r: Result<(), MapError>)
        requires
            old(self).wf(),
        ensures
            final(self).name == old(self).name,
            final(self).sectors == old(self).sectors,
            final(self).walls == old(self).walls,
            final(self).wf(),
            match r {
                Ok(()) => spec_generate(
                    sector_views(final(self).sectors@),
                    wall_views(final(self).walls@),
                ) == Ok::<Seq<WallPrimitiveV>, MapErrorV>(prim_views(final(self).wallmodels@)),
                Err(e) => spec_generate(
                    sector_views(final(self).sectors@),
                    wall_views(final(self).walls@),
                ) == Err::<Seq<WallPrimitiveV>, MapErrorV>(e@) && final(self).wallmodels@
                    == Seq::<WallPrimitive>::empty(),
            },
    {
        self.wallmodels = Vec::new();
        match generate_wall_primitives(&self.sectors, &self.walls) {
            Ok(ps) => {
                self.wallmodels = ps;
                Ok(())
            },
            Err(e) => Err(e),
        }
    }
}

/// Geometry generation is a pure function of the parsed sectors and walls:
/// two passes over the same unmodified data yield value-equal outcomes, both
/// the primitive lists and any error.
pub proof fn lemma_generation_deterministic(
    sectors: Seq<SectorV>,
    walls: Seq<WallV>,
    r1: Result<Seq<WallPrimitiveV>, MapErrorV>,
    r2: Result<Seq<WallPrimitiveV>, MapErrorV>,
)
    requires
        r1 == spec_generate(sectors, walls),
        r2 == spec_generate(sectors, walls),
    ensures
        r1 == r2,
{
}

/// `p` is the primitive of some solid (non-portal) wall of sector `s` at a
/// range position at or after `lo`.
pub open spec fn from_solid_wall_in(s: SectorV, walls: Seq<WallV>, lo: int, p: WallPrimitiveV) -> bool {
    exists|wi: int|
        lo <= wi < s.firstwall + s.nwalls && walls[wi].portalid < 0 && p == prim_of(walls[wi], s)
}

/// `p` is the primitive of some solid wall inside the declared range of one
/// of the sectors from index `lo_sector` on.
pub open spec fn rendered_from_solid(
    sectors: Seq<SectorV>,
    walls: Seq<WallV>,
    lo_sector: int,
    p: WallPrimitiveV,
) -> bool {
    exists|si: int, wi: int|
        lo_sector <= si < sectors.len() && sectors[si].firstwall <= wi < sectors[si].firstwall
            + sectors[si].nwalls && walls[wi].portalid < 0 && p == prim_of(walls[wi], sectors[si])
}

/// Every primitive of one sector's pass stems from a solid wall of the
/// still-unwalked part of its range.
proof fn lemma_sector_prims_solid(s: SectorV, walls: Seq<WallV>, k: int, ps: Seq<WallPrimitiveV>)
    requires
        0 <= k,
        gen_sector_from(s, walls, k) == Ok::<Seq<WallPrimitiveV>, MapErrorV>(ps),
    ensures
        forall|j: int| 0 <= j < ps.len() ==> from_solid_wall_in(s, walls, s.firstwall + k, #[trigger] ps[j]),
    decreases s.nwalls - k,
{
    if k < s.nwalls {
        let w = walls[s.firstwall + k];
        if w.portalid >= 0 {
            lemma_sector_prims_solid(s, walls, k + 1, ps);
            assert forall|j: int| 0 <= j < ps.len() implies from_solid_wall_in(
                s,
                walls,
                s.firstwall + k,
                #[trigger] ps[j],
            ) by {
                let wi = choose|wi: int|
                    s.firstwall + k + 1 <= wi < s.firstwall + s.nwalls && walls[wi].portalid < 0
                        && ps[j] == prim_of(walls[wi], s);
                assert(s.firstwall + k <= wi < s.firstwall + s.nwalls && walls[wi].portalid < 0
                    && ps[j] == prim_of(walls[wi], s));
            }
        } else {
            match gen_sector_from(s, walls, k + 1) {
                Ok(rest) => {
                    lemma_sector_prims_solid(s, walls, k + 1, rest);
                    assert(ps == seq![prim_of(w, s)] + rest);
                    assert forall|j: int| 0 <= j < ps.len() implies from_solid_wall_in(
                        s,
                        walls,
                        s.firstwall + k,
                        #[trigger] ps[j],
                    ) by {
                        if j == 0 {
                            let wi = s.firstwall + k;
                            assert(s.firstwall + k <= wi < s.firstwall + s.nwalls && walls[
                                wi].portalid < 0 && ps[0] == prim_of(walls[wi], s));
                        } else {
                            assert(ps[j] == rest[j - 1]);
                            assert(from_solid_wall_in(s, walls, s.firstwall + k + 1, rest[j - 1]));
                            let wi = choose|wi: int|
                                s.firstwall + k + 1 <= wi < s.firstwall + s.nwalls && walls[
                                    wi].portalid < 0 && rest[j - 1] == prim_of(walls[wi], s);
                            assert(s.firstwall + k <= wi < s.firstwall + s.nwalls && walls[
                                wi].portalid < 0 && ps[j] == prim_of(walls[wi], s));
                        }
                    }
                },
                Err(_) => {},
            }
        }
    }
}

/// Every primitive of a whole pass stems from a solid wall inside the range
/// of one of the sectors from index `i` on.
proof fn lemma_gen_prims_solid(
    sectors: Seq<SectorV>,
    walls: Seq<WallV>,
    i: int,
    ps: Seq<WallPrimitiveV>,
)
    requires
        0 <= i,
        gen_from(sectors, walls, i) == Ok::<Seq<WallPrimitiveV>, MapErrorV>(ps),
    ensures
        forall|j: int| 0 <= j < ps.len() ==> rendered_from_solid(sectors, walls, i, #[trigger] ps[j]),
    decreases sectors.len() - i,
{
    if i < sectors.len() {
        let s = sectors[i];
        if s.firstwall + s.nwalls <= walls.len() {
            match gen_sector_from(s, walls, 0) {
                Ok(own) => {
                    match gen_from(sectors, walls, i + 1) {
                        Ok(rest) => {
                            lemma_sector_prims_solid(s, walls, 0, own);
                            lemma_gen_prims_solid(sectors, walls, i + 1, rest);
                            assert(ps == own + rest);
                            assert forall|j: int| 0 <= j < ps.len() implies rendered_from_solid(
                                sectors,
                                walls,
                                i,
                                #[trigger] ps[j],
                            ) by {
                                if j < own.len() {
                                    assert(ps[j] == own[j]);
                                    assert(from_solid_wall_in(s, walls, s.firstwall + 0, own[j]));
                                    let wi = choose|wi: int|
                                        s.firstwall + 0 <= wi < s.firstwall + s.nwalls && walls[
                                            wi].portalid < 0 && own[j] == prim_of(walls[wi], s);
                                    let si = i;
                                    assert(i <= si < sectors.len() && sectors[si].firstwall <= wi
                                        < sectors[si].firstwall + sectors[si].nwalls && walls[
                                        wi].portalid < 0 && ps[j] == prim_of(
                                        walls[wi],
                                        sectors[si],
                                    ));
                                } else {
                                    assert(ps[j] == rest[j - own.len()]);
                                    assert(rendered_from_solid(
                                        sectors,
                                        walls,
                                        i + 1,
                                        rest[j - own.len()],
                                    ));
                                    let (si, wi): (int, int) = choose|si: int, wi: int|
                                        i + 1 <= si < sectors.len() && sectors[si].firstwall <= wi
                                            < sectors[si].firstwall + sectors[si].nwalls && walls[
                                            wi].portalid < 0 && rest[j - own.len()] == prim_of(
                                            walls[wi],
                                            sectors[si],
                                        );
                                    assert(i <= si < sectors.len() && sectors[si].firstwall <= wi
                                        < sectors[si].firstwall + sectors[si].nwalls && walls[
                                        wi].portalid < 0 && ps[j] == prim_of(
                                        walls[wi],
                                        sectors[si],
                                    ));
                                }
                            }
                        },
                        Err(_) => {},
                    }
                },
                Err(_) => {},
            }
        }
    }
}

/// A portal wall is never rendered: every primitive a successful pass emits
/// is the primitive of a solid wall (negative portal id) lying inside the
/// declared wall range of one of the map's sectors.
pub proof fn lemma_portal_walls_never_rendered(
    sectors: Seq<SectorV>,
    walls: Seq<WallV>,
    ps: Seq<WallPrimitiveV>,
)
    requires
        spec_generate(sectors, walls) == Ok::<Seq<WallPrimitiveV>, MapErrorV>(ps),
    ensures
        forall|j: int| 0 <= j < ps.len() ==> rendered_from_solid(sectors, walls, 0, #[trigger] ps[j]),
{
    lemma_gen_prims_solid(sectors, walls, 0, ps);
}

} // verus!
