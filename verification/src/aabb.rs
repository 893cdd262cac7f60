//! Ray/box intersection by the slab method, in exact arithmetic.
//!
//! A ray is traced as the segment from its origin to `origin + dir * len`.
//! The fraction of that segment lying inside an axis-aligned box is a
//! rational interval, narrowed one axis at a time; the ray hits the box
//! exactly when the final interval is non-empty, and the entry fraction is
//! the interval's lower end.

use vstd::prelude::*;

use crate::ratio::{frac_le, lemma_frac_le_trans, lemma_mul_magnitude, Ratio};
use crate::vec3::{Vec3i, Vec3q};
use crate::MAX_COORD;

verus! {

/// Bound on numerators and denominators of segment fractions.
pub const FRAC_BOUND: i64 = 0x400_0000;

/// Bound on the numerators of hit-point coordinates.
pub const HIT_BOUND: i64 = 0x10_0000_0000_0000;

/// One coordinate axis.
#[derive(Clone, Copy, Debug)]
pub enum Axis {
    X,
    Y,
    Z,
}

/// Anything that exposes an axis-aligned bounding box in its local space.
pub trait AABB {
    /// The lower corner of the box.
    spec fn spec_min(&self) -> Vec3i;

    /// The upper corner of the box.
    spec fn spec_max(&self) -> Vec3i;

    fn get_min(&self) -> (r: Vec3i)
        ensures
            r == self.spec_min(),
    ;

    fn get_max(&self) -> (r: Vec3i)
        ensures
            r == self.spec_max(),
    ;
}

/// The box has ordered corners small enough for exact arithmetic.
pub open spec fn aabb_ok<T: AABB>(b: &T) -> bool {
    &&& b.spec_min().in_bounds(MAX_COORD as int)
    &&& b.spec_max().in_bounds(MAX_COORD as int)
    &&& b.spec_min().x <= b.spec_max().x
    &&& b.spec_min().y <= b.spec_max().y
    &&& b.spec_min().z <= b.spec_max().z
}

/// On one axis, the point `o + (e - o) * (tn / td)` lies between the slab
/// planes `lo` and `hi` (for `td > 0`).
pub open spec fn slab_contains(o: int, e: int, lo: int, hi: int, tn: int, td: int) -> bool {
    &&& lo * td <= o * td + (e - o) * tn
    &&& o * td + (e - o) * tn <= hi * td
}

/// The fraction `tn / td` lies in the closed interval `[f_low, f_high]`.
pub open spec fn in_interval(f_low: Ratio, f_high: Ratio, tn: int, td: int) -> bool {
    &&& frac_le(f_low.num as int, f_low.den as int, tn, td)
    &&& frac_le(tn, td, f_high.num as int, f_high.den as int)
}

/// An axis whose segment component is zero imposes no constraint when the
/// origin's coordinate already lies within the slab: every fraction of the
/// segment stays between the planes on that axis.
pub proof fn lemma_parallel_axis_no_constraint(o: int, e: int, lo: int, hi: int, tn: int, td: int)
    by (nonlinear_arith)
    requires
        e == o,
        lo <= o <= hi,
        td > 0,
    ensures
        slab_contains(o, e, lo, hi, tn, td),
{
}

/// An axis whose segment component is zero excludes the whole segment when
/// the origin's coordinate lies outside the slab.
proof fn lemma_parallel_axis_excludes(o: int, e: int, lo: int, hi: int, tn: int, td: int)
    by (nonlinear_arith)
    requires
        e == o,
        !(lo <= o <= hi),
        td > 0,
    ensures
        !slab_contains(o, e, lo, hi, tn, td),
{
}

/// For a non-degenerate axis, the slab condition is exactly membership in
/// the sorted interval of the two plane-crossing fractions.
proof fn lemma_slab_window(o: int, e: int, lo: int, hi: int, sl: Ratio, sh: Ratio, tn: int, td: int)
    by (nonlinear_arith)
    requires
        e != o,
        lo <= hi,
        td > 0,
        sl.wf(),
        sh.wf(),
        e > o ==> sl.den == e - o && sh.den == e - o,
        e < o ==> sl.den == o - e && sh.den == o - e,
        e > o ==> (sl.num == lo - o && sh.num == hi - o) || (sl.num == hi - o && sh.num == lo - o),
        e < o ==> (sl.num == o - hi && sh.num == o - lo) || (sl.num == o - lo && sh.num == o - hi),
        sl.spec_le(sh),
    ensures
        slab_contains(o, e, lo, hi, tn, td) <==> (frac_le(sl.num as int, sl.den as int, tn, td)
            && frac_le(tn, td, sh.num as int, sh.den as int)),
{
}

/// Narrowing an interval to `[max(fl, sl), min(fh, sh)]` intersects it with
/// `[sl, sh]`.
proof fn lemma_interval_narrow(
    fl: Ratio,
    fh: Ratio,
    sl: Ratio,
    sh: Ratio,
    nl: Ratio,
    nh: Ratio,
    tn: int,
    td: int,
)
    requires
        fl.wf(),
        fh.wf(),
        sl.wf(),
        sh.wf(),
        td > 0,
        nl == (if sl.spec_le(fl) { fl } else { sl }),
        nh == (if fh.spec_le(sh) { fh } else { sh }),
    ensures
        in_interval(nl, nh, tn, td) <==> (in_interval(fl, fh, tn, td) && in_interval(sl, sh, tn, td)),
{
    if sl.spec_le(fl) {
        if frac_le(fl.num as int, fl.den as int, tn, td) {
            lemma_frac_le_trans(sl.num as int, sl.den as int, fl.num as int, fl.den as int, tn, td);
        }
    } else {
        if frac_le(sl.num as int, sl.den as int, tn, td) {
            lemma_frac_le_trans(fl.num as int, fl.den as int, sl.num as int, sl.den as int, tn, td);
        }
    }
    if fh.spec_le(sh) {
        if frac_le(tn, td, fh.num as int, fh.den as int) {
            lemma_frac_le_trans(tn, td, fh.num as int, fh.den as int, sh.num as int, sh.den as int);
        }
    } else {
        if frac_le(tn, td, sh.num as int, sh.den as int) {
            lemma_frac_le_trans(tn, td, sh.num as int, sh.den as int, fh.num as int, fh.den as int);
        }
    }
}

/// The segment from `o` towards `d`, traced for `l` of its lengths, meets
/// the box `[bmin + bpos, bmax + bpos]` at fraction `tn / td` on all three
/// axes.
pub open spec fn seg_hits_box_at(
    o: Vec3i,
    d: Vec3i,
    l: int,
    bmin: Vec3i,
    bmax: Vec3i,
    bpos: Vec3i,
    tn: int,
    td: int,
) -> bool {
    &&& slab_contains(o.x as int, o.x + d.x * l, bmin.x + bpos.x, bmax.x + bpos.x, tn, td)
    &&& slab_contains(o.y as int, o.y + d.y * l, bmin.y + bpos.y, bmax.y + bpos.y, tn, td)
    &&& slab_contains(o.z as int, o.z + d.z * l, bmin.z + bpos.z, bmax.z + bpos.z, tn, td)
}

/// Trace the ray from `ray_pos` along `ray_dir` for `max_ray_len` of its
/// lengths and intersect it with the box placed at `aabb_box_pos`.
///
/// Returns the fraction of the traced segment at which the ray first meets
/// the box, together with the exact hit point, or `None` when no fraction
/// in `[0, 1]` lies inside the box. The returned fraction is the least
/// hitting fraction, and the hit point is `ray_pos + (end - ray_pos) * f`.
pub fn ray_intersect<T: AABB>(
    ray_pos: &Vec3i,
    ray_dir: &Vec3i,
    max_ray_len: i64,
    aabb_box: &T,
    aabb_box_pos: &Vec3i,
) -> (r: Option<(Ratio, Vec3q)>)
    requires
        ray_pos.in_bounds(MAX_COORD as int),
        max_ray_len >= 0,
        -MAX_COORD <= ray_dir.x * max_ray_len <= MAX_COORD,
        -MAX_COORD <= ray_dir.y * max_ray_len <= MAX_COORD,
        -MAX_COORD <= ray_dir.z * max_ray_len <= MAX_COORD,
        aabb_ok(aabb_box),
        aabb_box_pos.in_bounds(MAX_COORD as int),
    ensures
        r is None ==> forall|tn: int, td: int|
            td > 0 && 0 <= tn <= td ==> !#[trigger] seg_hits_box_at(
                *ray_pos,
                *ray_dir,
                max_ray_len as int,
                aabb_box.spec_min(),
                aabb_box.spec_max(),
                *aabb_box_pos,
                tn,
                td,
            ),
        r matches Some((f, hit)) ==> {
            &&& f.bounded(FRAC_BOUND as int)
            &&& 0 <= f.num <= f.den
            &&& seg_hits_box_at(
                *ray_pos,
                *ray_dir,
                max_ray_len as int,
                aabb_box.spec_min(),
                aabb_box.spec_max(),
                *aabb_box_pos,
                f.num as int,
                f.den as int,
            )
            &&& forall|tn: int, td: int|
                td > 0 && 0 <= tn <= td && #[trigger] seg_hits_box_at(
                    *ray_pos,
                    *ray_dir,
                    max_ray_len as int,
                    aabb_box.spec_min(),
                    aabb_box.spec_max(),
                    *aabb_box_pos,
                    tn,
                    td,
                ) ==> frac_le(f.num as int, f.den as int, tn, td)
            &&& hit.x.den == f.den && hit.x.num == ray_pos.x * f.den + (ray_dir.x * max_ray_len)
                * f.num
            &&& hit.y.den == f.den && hit.y.num == ray_pos.y * f.den + (ray_dir.y * max_ray_len)
                * f.num
            &&& hit.z.den == f.den && hit.z.num == ray_pos.z * f.den + (ray_dir.z * max_ray_len)
                * f.num
            &&& -HIT_BOUND <= hit.x.num <= HIT_BOUND
            &&& -HIT_BOUND <= hit.y.num <= HIT_BOUND
            &&& -HIT_BOUND <= hit.z.num <= HIT_BOUND
        },
{
    let end = Vec3i {
        x: ray_pos.x + ray_dir.x * max_ray_len,
        y: ray_pos.y + ray_dir.y * max_ray_len,
        z: ray_pos.z + ray_dir.z * max_ray_len,
    };
    let bmin = aabb_box.get_min();
    let bmax = aabb_box.get_max();
    let lo_x = bmin.x + aabb_box_pos.x;
    let hi_x = bmax.x + aabb_box_pos.x;
    let lo_y = bmin.y + aabb_box_pos.y;
    let hi_y = bmax.y + aabb_box_pos.y;
    let lo_z = bmin.z + aabb_box_pos.z;
    let hi_z = bmax.z + aabb_box_pos.z;
    let ghost o = *ray_pos;
    let ghost d = *ray_dir;
    let ghost l = max_ray_len as int;
    let ghost gmin = aabb_box.spec_min();
    let ghost gmax = aabb_box.spec_max();
    let ghost gpos = *aabb_box_pos;

    let (f1, h1) = match clip_ray(ray_pos.x, end.x, lo_x, hi_x, Ratio::zero(), Ratio::one()) {
        Some(p) => p,
        None => {
            proof {
                assert forall|tn: int, td: int|
                    td > 0 && 0 <= tn <= td implies !#[trigger] seg_hits_box_at(
                    o,
                    d,
                    l,
                    gmin,
                    gmax,
                    gpos,
                    tn,
                    td,
                ) by {
                    if seg_hits_box_at(o, d, l, gmin, gmax, gpos, tn, td) {
                        assert(in_interval(Ratio { num: 0, den: 1 }, Ratio { num: 1, den: 1 }, tn, td));
                        assert(slab_contains(o.x as int, end.x as int, lo_x as int, hi_x as int, tn, td));
                    }
                }
            }
            return None;
        },
    };
    let (f2, h2) = match clip_ray(ray_pos.y, end.y, lo_y, hi_y, f1, h1) {
        Some(p) => p,
        None => {
            proof {
                assert forall|tn: int, td: int|
                    td > 0 && 0 <= tn <= td implies !#[trigger] seg_hits_box_at(
                    o,
                    d,
                    l,
                    gmin,
                    gmax,
                    gpos,
                    tn,
                    td,
                ) by {
                    if seg_hits_box_at(o, d, l, gmin, gmax, gpos, tn, td) {
                        assert(in_interval(Ratio { num: 0, den: 1 }, Ratio { num: 1, den: 1 }, tn, td));
                        assert(in_interval(f1, h1, tn, td));
                        assert(slab_contains(o.y as int, end.y as int, lo_y as int, hi_y as int, tn, td));
                    }
                }
            }
            return None;
        },
    };
    let (f3, h3) = match clip_ray(ray_pos.z, end.z, lo_z, hi_z, f2, h2) {
        Some(p) => p,
        None => {
            proof {
                assert forall|tn: int, td: int|
                    td > 0 && 0 <= tn <= td implies !#[trigger] seg_hits_box_at(
                    o,
                    d,
                    l,
                    gmin,
                    gmax,
                    gpos,
                    tn,
                    td,
                ) by {
                    if seg_hits_box_at(o, d, l, gmin, gmax, gpos, tn, td) {
                        assert(in_interval(Ratio { num: 0, den: 1 }, Ratio { num: 1, den: 1 }, tn, td));
                        assert(in_interval(f1, h1, tn, td));
                        assert(in_interval(f2, h2, tn, td));
                        assert(slab_contains(o.z as int, end.z as int, lo_z as int, hi_z as int, tn, td));
                    }
                }
            }
            return None;
        },
    };
    proof {
        // The lower end of the final interval is the least hitting fraction.
        assert(in_interval(f3, h3, f3.num as int, f3.den as int));
        assert(in_interval(f2, h2, f3.num as int, f3.den as int));
        assert(in_interval(f1, h1, f3.num as int, f3.den as int));
        assert(seg_hits_box_at(o, d, l, gmin, gmax, gpos, f3.num as int, f3.den as int));
        assert forall|tn: int, td: int|
            td > 0 && 0 <= tn <= td && #[trigger] seg_hits_box_at(o, d, l, gmin, gmax, gpos, tn, td)
            implies frac_le(f3.num as int, f3.den as int, tn, td) by {
            assert(in_interval(Ratio { num: 0, den: 1 }, Ratio { num: 1, den: 1 }, tn, td));
            assert(in_interval(f1, h1, tn, td));
            assert(in_interval(f2, h2, tn, td));
            assert(in_interval(f3, h3, tn, td));
        }
    }
    let dx = end.x - ray_pos.x;
    let dy = end.y - ray_pos.y;
    let dz = end.z - ray_pos.z;
    proof {
        lemma_mul_magnitude(ray_pos.x as int, f3.den as int, MAX_COORD as int, FRAC_BOUND as int);
        lemma_mul_magnitude(ray_pos.y as int, f3.den as int, MAX_COORD as int, FRAC_BOUND as int);
        lemma_mul_magnitude(ray_pos.z as int, f3.den as int, MAX_COORD as int, FRAC_BOUND as int);
        lemma_mul_magnitude(dx as int, f3.num as int, MAX_COORD as int, FRAC_BOUND as int);
        lemma_mul_magnitude(dy as int, f3.num as int, MAX_COORD as int, FRAC_BOUND as int);
        lemma_mul_magnitude(dz as int, f3.num as int, MAX_COORD as int, FRAC_BOUND as int);
    }
    let hit = Vec3q {
        x: Ratio { num: ray_pos.x * f3.den + dx * f3.num, den: f3.den },
        y: Ratio { num: ray_pos.y * f3.den + dy * f3.num, den: f3.den },
        z: Ratio { num: ray_pos.z * f3.den + dz * f3.num, den: f3.den },
    };
    Some((f3, hit))
}

/// Narrow the running fraction interval `[f_low, f_high]` by one axis of the
/// box. `o` and `e` are the segment's endpoint coordinates on this axis,
/// `b_lo` and `b_hi` the box's plane positions on it. Returns the narrowed
/// interval, or `None` when no fraction of the segment lies between the
/// planes while staying inside the incoming interval.
fn clip_ray(o: i64, e: i64, b_lo: i64, b_hi: i64, f_low: Ratio, f_high: Ratio) -> (r: Option<
    (Ratio, Ratio),
>)
    requires
        -2 * MAX_COORD <= o <= 2 * MAX_COORD,
        -2 * MAX_COORD <= e <= 2 * MAX_COORD,
        -2 * MAX_COORD <= b_lo <= 2 * MAX_COORD,
        -2 * MAX_COORD <= b_hi <= 2 * MAX_COORD,
        b_lo <= b_hi,
        f_low.bounded(FRAC_BOUND as int),
        f_high.bounded(FRAC_BOUND as int),
    ensures
        r is None ==> forall|tn: int, td: int|
            td > 0 ==> !(#[trigger] slab_contains(o as int, e as int, b_lo as int, b_hi as int, tn, td)
                && in_interval(f_low, f_high, tn, td)),
        r matches Some((nl, nh)) ==> {
            &&& nl.bounded(FRAC_BOUND as int)
            &&& nh.bounded(FRAC_BOUND as int)
            &&& nl.spec_le(nh)
            &&& forall|tn: int, td: int|
                td > 0 ==> (#[trigger] in_interval(nl, nh, tn, td) <==> (in_interval(
                    f_low,
                    f_high,
                    tn,
                    td,
                ) && slab_contains(o as int, e as int, b_lo as int, b_hi as int, tn, td)))
        },
{
    if e == o {
        // Axis-parallel segment: the slab either constrains nothing or
        // excludes everything, depending on where the origin sits.
        if b_lo <= o && o <= b_hi {
            if f_low.le(&f_high) {
                proof {
                    assert forall|tn: int, td: int| td > 0 implies (#[trigger] in_interval(
                        f_low,
                        f_high,
                        tn,
                        td,
                    ) <==> (in_interval(f_low, f_high, tn, td) && slab_contains(
                        o as int,
                        e as int,
                        b_lo as int,
                        b_hi as int,
                        tn,
                        td,
                    ))) by {
                        lemma_parallel_axis_no_constraint(
                            o as int,
                            e as int,
                            b_lo as int,
                            b_hi as int,
                            tn,
                            td,
                        );
                    }
                }
                Some((f_low, f_high))
            } else {
                // The incoming interval is already empty.
                proof {
                    assert forall|tn: int, td: int| td > 0 implies !(#[trigger] slab_contains(
                        o as int,
                        e as int,
                        b_lo as int,
                        b_hi as int,
                        tn,
                        td,
                    ) && in_interval(f_low, f_high, tn, td)) by {
                        if in_interval(f_low, f_high, tn, td) {
                            lemma_frac_le_trans(
                                f_low.num as int,
                                f_low.den as int,
                                tn,
                                td,
                                f_high.num as int,
                                f_high.den as int,
                            );
                        }
                    }
                }
                None
            }
        } else {
            proof {
                assert forall|tn: int, td: int| td > 0 implies !(#[trigger] slab_contains(
                    o as int,
                    e as int,
                    b_lo as int,
                    b_hi as int,
                    tn,
                    td,
                ) && in_interval(f_low, f_high, tn, td)) by {
                    lemma_parallel_axis_excludes(o as int, e as int, b_lo as int, b_hi as int, tn, td);
                }
            }
            None
        }
    } else {
        // Crossing fractions of the two planes, normalized to a positive
        // denominator.
        let (t_enter, t_exit) = if e > o {
            (Ratio { num: b_lo - o, den: e - o }, Ratio { num: b_hi - o, den: e - o })
        } else {
            (Ratio { num: o - b_hi, den: o - e }, Ratio { num: o - b_lo, den: o - e })
        };
        // Sort them so `f_dim_low <= f_dim_high`.
        let (f_dim_low, f_dim_high) = if t_exit.lt(&t_enter) {
            (t_exit, t_enter)
        } else {
            (t_enter, t_exit)
        };
        proof {
            assert forall|tn: int, td: int| td > 0 implies (#[trigger] slab_contains(
                o as int,
                e as int,
                b_lo as int,
                b_hi as int,
                tn,
                td,
            ) <==> (frac_le(f_dim_low.num as int, f_dim_low.den as int, tn, td) && frac_le(
                tn,
                td,
                f_dim_high.num as int,
                f_dim_high.den as int,
            ))) by {
                lemma_slab_window(
                    o as int,
                    e as int,
                    b_lo as int,
                    b_hi as int,
                    f_dim_low,
                    f_dim_high,
                    tn,
                    td,
                );
            }
        }
        if f_dim_high.lt(&f_low) {
            proof {
                assert forall|tn: int, td: int| td > 0 implies !(#[trigger] slab_contains(
                    o as int,
                    e as int,
                    b_lo as int,
                    b_hi as int,
                    tn,
                    td,
                ) && in_interval(f_low, f_high, tn, td)) by {
                    if slab_contains(o as int, e as int, b_lo as int, b_hi as int, tn, td)
                        && in_interval(f_low, f_high, tn, td) {
                        lemma_frac_le_trans(
                            f_low.num as int,
                            f_low.den as int,
                            tn,
                            td,
                            f_dim_high.num as int,
                            f_dim_high.den as int,
                        );
                    }
                }
            }
            None
        } else if f_high.lt(&f_dim_low) {
            proof {
                assert forall|tn: int, td: int| td > 0 implies !(#[trigger] slab_contains(
                    o as int,
                    e as int,
                    b_lo as int,
                    b_hi as int,
                    tn,
                    td,
                ) && in_interval(f_low, f_high, tn, td)) by {
                    if slab_contains(o as int, e as int, b_lo as int, b_hi as int, tn, td)
                        && in_interval(f_low, f_high, tn, td) {
                        lemma_frac_le_trans(
                            f_dim_low.num as int,
                            f_dim_low.den as int,
                            tn,
                            td,
                            f_high.num as int,
                            f_high.den as int,
                        );
                    }
                }
            }
            None
        } else {
            let new_low = if f_dim_low.le(&f_low) {
                f_low
            } else {
                f_dim_low
            };
            let new_high = if f_high.le(&f_dim_high) {
                f_high
            } else {
                f_dim_high
            };
            proof {
                assert forall|tn: int, td: int| td > 0 implies (#[trigger] in_interval(
                    new_low,
                    new_high,
                    tn,
                    td,
                ) <==> (in_interval(f_low, f_high, tn, td) && slab_contains(
                    o as int,
                    e as int,
                    b_lo as int,
                    b_hi as int,
                    tn,
                    td,
                ))) by {
                    lemma_interval_narrow(
                        f_low,
                        f_high,
                        f_dim_low,
                        f_dim_high,
                        new_low,
                        new_high,
                        tn,
                        td,
                    );
                }
            }
            if new_high.lt(&new_low) {
                // With exact arithmetic this only happens when the incoming
                // interval and the slab window do not overlap.
                proof {
                    assert forall|tn: int, td: int| td > 0 implies !(#[trigger] slab_contains(
                        o as int,
                        e as int,
                        b_lo as int,
                        b_hi as int,
                        tn,
                        td,
                    ) && in_interval(f_low, f_high, tn, td)) by {
                        if slab_contains(o as int, e as int, b_lo as int, b_hi as int, tn, td)
                            && in_interval(f_low, f_high, tn, td) {
                            assert(in_interval(new_low, new_high, tn, td));
                            lemma_frac_le_trans(
                                new_low.num as int,
                                new_low.den as int,
                                tn,
                                td,
                                new_high.num as int,
                                new_high.den as int,
                            );
                        }
                    }
                }
                None
            } else {
                Some((new_low, new_high))
            }
        }
    }
}

} // verus!
