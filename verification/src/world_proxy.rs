//! The instance mirror: a sorted shadow list of the grid's solid cells.
//!
//! The proxy owns the authoritative grid and keeps one world-space
//! translation per solid cell in a strictly sorted list, so the renderer
//! can draw all blocks as instances of one mesh. A dirty flag coalesces any
//! number of mutations into a single buffer upload per render.

use vstd::prelude::*;

use crate::aabb::{ray_intersect, seg_hits_box_at, AABB, FRAC_BOUND, HIT_BOUND};
use crate::block::{block_box_max, block_box_min, BlockType};
use crate::math::safe_cast;
use crate::ratio::{
    frac_le, frac_lt, lemma_frac_le_trans, lemma_frac_lt_le_trans, lemma_mul_magnitude, Ratio,
};
use crate::vec3::{Vec3i, Vec3q};
use crate::vertex::Translation;
use crate::world::{grid_lex_lt, spec_world_pos, GridPos, World, WorldBlock};
use crate::{DIM, DIR_MAX, GRID_CAP_MAX, MAX_COORD, REACH_DISTANCE};

verus! {

/// How many direction lengths the targeting ray is traced for. A view
/// direction follows the unit convention of magnitude `SCALE`, so the
/// traced segment is `(REACH_DISTANCE + 1) * DIM` subunits of world space:
/// one cell of slack beyond the query radius.
pub const RAY_LEN: i64 = 10;

/// The ray traced from `o` along `d` for `l` of its lengths meets the block
/// at grid coordinate `p` at fraction `tn / td`.
pub open spec fn block_hit_at(o: Vec3i, d: Vec3i, l: int, p: GridPos, tn: int, td: int) -> bool {
    seg_hits_box_at(o, d, l, block_box_min(), block_box_max(), spec_world_pos(p), tn, td)
}

/// The grid coordinate the view ray starts from: the world position scaled
/// down by the block edge, negative coordinates collapsed to zero.
pub open spec fn spec_view_center(pos: Vec3i) -> GridPos {
    GridPos {
        x: (((if pos.x >= 0 { pos.x as int } else { 0 })) / (DIM as int)) as usize,
        y: (((if pos.y >= 0 { pos.y as int } else { 0 })) / (DIM as int)) as usize,
        z: (((if pos.z >= 0 { pos.z as int } else { 0 })) / (DIM as int)) as usize,
    }
}

/// No solid block of the reach window lies on the traced segment: the
/// targeting query comes back empty.
pub open spec fn spec_ray_misses(w: World, pos: Vec3i, dir: Vec3i) -> bool {
    forall|q: GridPos, tn: int, td: int|
        w.in_query_cube(spec_view_center(pos), REACH_DISTANCE as int, q) && w.solid(q) && td > 0
            && 0 <= tn <= td ==> !#[trigger] block_hit_at(pos, dir, RAY_LEN as int, q, tn, td)
}

/// `wb` and `hp` are what targeting finds on grid `w` for this ray: a solid
/// block of the reach window that the segment meets at the least fraction
/// of any candidate, ties going to the lexicographically least coordinate,
/// and `hp` the exact point where the segment first meets it.
pub open spec fn spec_target(w: World, pos: Vec3i, dir: Vec3i, wb: WorldBlock, hp: Vec3q) -> bool {
    &&& w.in_query_cube(spec_view_center(pos), REACH_DISTANCE as int, wb.pos)
    &&& w.solid(wb.pos)
    &&& wb.block == w.spec_block(wb.pos)
    &&& exists|fnum: int, fden: int| {
        &&& 0 < fden
        &&& 0 <= fnum <= fden
        &&& #[trigger] block_hit_at(pos, dir, RAY_LEN as int, wb.pos, fnum, fden)
        &&& hp.x.den == fden && hp.x.num == pos.x * fden + (dir.x * RAY_LEN) * fnum
        &&& hp.y.den == fden && hp.y.num == pos.y * fden + (dir.y * RAY_LEN) * fnum
        &&& hp.z.den == fden && hp.z.num == pos.z * fden + (dir.z * RAY_LEN) * fnum
        &&& forall|q: GridPos, tn: int, td: int|
            w.in_query_cube(spec_view_center(pos), REACH_DISTANCE as int, q) && w.solid(q) && td
                > 0 && 0 <= tn <= td && #[trigger] block_hit_at(pos, dir, RAY_LEN as int, q, tn, td)
                ==> frac_le(fnum, fden, tn, td)
        &&& forall|q: GridPos, tn: int, td: int|
            w.in_query_cube(spec_view_center(pos), REACH_DISTANCE as int, q) && w.solid(q)
                && grid_lex_lt(q, wb.pos) && td > 0 && 0 <= tn <= td && #[trigger] block_hit_at(
                pos,
                dir,
                RAY_LEN as int,
                q,
                tn,
                td,
            ) ==> frac_lt(fnum, fden, tn, td)
    }
}

/// The translation of the block instance at a grid coordinate.
pub open spec fn translation_of(p: GridPos) -> Translation {
    Translation { x: (p.x * DIM) as i64, y: (p.y * DIM) as i64, z: (p.z * DIM) as i64 }
}

/// The grid coordinate a mirror entry stands for: the left inverse of
/// `translation_of` on in-range coordinates.
pub open spec fn pos_of_translation(t: Translation) -> GridPos {
    GridPos { x: (t.x / DIM) as usize, y: (t.y / DIM) as usize, z: (t.z / DIM) as usize }
}

/// Translating a grid coordinate and decoding it back is the identity.
proof fn lemma_translation_roundtrip(p: GridPos)
    requires
        p.x <= GRID_CAP_MAX,
        p.y <= GRID_CAP_MAX,
        p.z <= GRID_CAP_MAX,
    ensures
        pos_of_translation(translation_of(p)) == p,
{
    vstd::arithmetic::div_mod::lemma_div_multiples_vanish(p.x as int, DIM as int);
    vstd::arithmetic::div_mod::lemma_div_multiples_vanish(p.y as int, DIM as int);
    vstd::arithmetic::div_mod::lemma_div_multiples_vanish(p.z as int, DIM as int);
    assert(p.x * DIM == DIM * (p.x as int)) by (nonlinear_arith);
    assert(p.y * DIM == DIM * (p.y as int)) by (nonlinear_arith);
    assert(p.z * DIM == DIM * (p.z as int)) by (nonlinear_arith);
}

/// Convert a grid coordinate to its instance translation.
pub fn local_pos_to_translation(p: &GridPos) -> (r: Translation)
    requires
        p.x <= GRID_CAP_MAX,
        p.y <= GRID_CAP_MAX,
        p.z <= GRID_CAP_MAX,
    ensures
        r == translation_of(*p),
{
    Translation { x: (p.x as i64) * DIM, y: (p.y as i64) * DIM, z: (p.z as i64) * DIM }
}

/// The list is strictly sorted in lexicographic order.
pub open spec fn translations_sorted(s: Seq<Translation>) -> bool {
    forall|i: int, j: int| #![trigger s[i], s[j]] 0 <= i < j < s.len() ==> s[i].spec_lt(s[j])
}

/// Locate `t` in a strictly sorted list: the index holding it, or the index
/// at which inserting it keeps the list sorted.
fn binary_search_translation(buf: &Vec<Translation>, t: &Translation) -> (r: Result<usize, usize>)
    requires
        translations_sorted(buf@),
    ensures
        match r {
            Ok(i) => i < buf@.len() && buf@[i as int] == *t,
            Err(i) => {
                &&& i <= buf@.len()
                &&& forall|j: int| 0 <= j < i ==> (#[trigger] buf@[j]).spec_lt(*t)
                &&& forall|j: int| i <= j < buf@.len() ==> t.spec_lt(#[trigger] buf@[j])
            },
        },
{
    let mut lo: usize = 0;
    let mut hi: usize = buf.len();
    while lo < hi
        invariant
            lo <= hi <= buf@.len(),
            translations_sorted(buf@),
            forall|j: int| 0 <= j < lo ==> (#[trigger] buf@[j]).spec_lt(*t),
            forall|j: int| hi <= j < buf@.len() ==> t.spec_lt(#[trigger] buf@[j]),
        decreases hi - lo,
    {
        let mid = lo + (hi - lo) / 2;
        let m = buf[mid];
        if m.lt(t) {
            lo = mid + 1;
        } else if t.lt(&m) {
            hi = mid;
        } else {
            return Ok(mid);
        }
    }
    Err(lo)
}

/// The grid together with its render-facing mirror.
pub struct WorldProxy {
    pub world: World,
    pub buf_tmp: Vec<Translation>,
    pub update_required: bool,
}

/// One mirror entry accounted for: it decodes to a solid cell of `w` whose
/// translation it is.
pub open spec fn entry_mirrors(w: World, t: Translation) -> bool {
    &&& w.solid(pos_of_translation(t))
    &&& t == translation_of(pos_of_translation(t))
}

impl WorldProxy {
    /// The mirror invariant: the grid is well-formed, the list is strictly
    /// sorted, every entry is the translation of a solid cell, and every
    /// solid cell's translation is listed.
    pub open spec fn wf(self) -> bool {
        &&& self.world.wf()
        &&& translations_sorted(self.buf_tmp@)
        &&& forall|i: int| 0 <= i < self.buf_tmp@.len() ==> entry_mirrors(
            self.world,
            #[trigger] self.buf_tmp@[i],
        )
        &&& forall|p: GridPos| #[trigger] self.world.solid(p) ==> self.buf_tmp@.contains(
            translation_of(p),
        )
    }
}

/// The mirror invariant only depends on the grid and the list, so it holds
/// of any proxy value sharing them.
proof fn lemma_wf_same_contents(pre: WorldProxy, post: WorldProxy)
    requires
        pre.wf(),
        post.world == pre.world,
        post.buf_tmp == pre.buf_tmp,
    ensures
        post.wf(),
{
    assert forall|i: int| 0 <= i < post.buf_tmp@.len() implies entry_mirrors(
        post.world,
        #[trigger] post.buf_tmp@[i],
    ) by {
        assert(entry_mirrors(pre.world, pre.buf_tmp@[i]));
    }
}

impl WorldProxy {
    /// Create a proxy over an empty grid of the given side.
    pub fn with_capacity(capacity: usize) -> (r: Self)
        requires
            capacity <= GRID_CAP_MAX,
        ensures
            r.wf(),
            r.world.capacity == capacity,
            r.buf_tmp@.len() == 0,
            r.update_required,
            forall|p: GridPos| !#[trigger] r.world.solid(p),
    {
        let world = World::with_capacity(capacity);
        WorldProxy { world, buf_tmp: Vec::new(), update_required: true }
    }

    /// The mirrored translations, one per solid cell, sorted.
    pub fn translations(&self) -> (r: &Vec<Translation>)
        ensures
            r@ == self.buf_tmp@,
    {
        &self.buf_tmp
    }

    /// Mirror and store a solid block at `pos`: insert its translation at
    /// the sorted position (idempotently: an entry already present is
    /// overwritten in place), write `Solid(0)` into the grid, and mark the
    /// mirror dirty. An out-of-bounds position leaves grid and mirror
    /// unchanged.
    pub fn add_block(&mut self, pos: &GridPos)
        requires
            old(self).wf(),
        ensures
            final(self).wf(),
            final(self).update_required,
            final(self).world.capacity == old(self).world.capacity,
            old(self).world.in_bounds(*pos) ==> {
                &&& final(self).world.spec_block(*pos).block_type == BlockType::Solid(0)
                &&& forall|t: Translation| #![trigger final(self).buf_tmp@.contains(t)]
                    final(self).buf_tmp@.contains(t) <==> (old(self).buf_tmp@.contains(t) || t
                    == translation_of(*pos))
            },
            forall|q: GridPos| final(self).world.in_bounds(q) && q != *pos
                ==> #[trigger] final(self).world.spec_block(q) == old(self).world.spec_block(q),
            !old(self).world.in_bounds(*pos) ==> final(self).world.blocks@ == old(
                self,
            ).world.blocks@ && final(self).buf_tmp@ == old(self).buf_tmp@,
    {
        self.update_required = true;
        if pos.x < self.world.capacity && pos.y < self.world.capacity && pos.z
            < self.world.capacity {
            let t = local_pos_to_translation(pos);
            let ghost buf0 = self.buf_tmp@;
            match binary_search_translation(&self.buf_tmp, &t) {
                Ok(i) => {
                    self.buf_tmp[i] = t;
                    proof {
                        assert(self.buf_tmp@ =~= buf0);
                        assert(buf0.contains(t)) by {
                            assert(buf0[i as int] == t);
                        }
                        assert forall|t2: Translation| #![trigger self.buf_tmp@.contains(t2)]
                            self.buf_tmp@.contains(t2) <==> (buf0.contains(t2) || t2 == t) by {
                        }
                    }
                },
                Err(i) => {
                    self.buf_tmp.insert(i, t);
                    proof {
                        buf0.insert_ensures(i as int, t);
                        assert(self.buf_tmp@ == buf0.insert(i as int, t));
                        assert forall|a: int, b: int| #![trigger self.buf_tmp@[a], self.buf_tmp@[b]]
                            0 <= a < b < self.buf_tmp@.len() implies self.buf_tmp@[a].spec_lt(
                            self.buf_tmp@[b],
                        ) by {
                            if a < i && b < i {
                            } else if a < i && b == i {
                                assert(self.buf_tmp@[a] == buf0[a]);
                            } else if a == i {
                                assert(self.buf_tmp@[b] == buf0[b - 1]);
                            } else if b > i && a > i {
                                assert(self.buf_tmp@[a] == buf0[a - 1]);
                                assert(self.buf_tmp@[b] == buf0[b - 1]);
                            } else {
                                assert(self.buf_tmp@[a] == buf0[a]);
                                assert(self.buf_tmp@[b] == buf0[b - 1]);
                                assert(buf0[a].spec_lt(t) && t.spec_lt(buf0[b - 1]));
                            }
                        }
                        assert forall|t2: Translation| #![trigger self.buf_tmp@.contains(t2)]
                            self.buf_tmp@.contains(t2) <==> (buf0.contains(t2) || t2 == t) by {
                            if self.buf_tmp@.contains(t2) {
                                let k = choose|k: int|
                                    0 <= k < self.buf_tmp@.len() && self.buf_tmp@[k] == t2;
                                if k < i {
                                    assert(buf0[k] == t2);
                                } else if k > i {
                                    assert(buf0[k - 1] == t2);
                                }
                            }
                            if buf0.contains(t2) {
                                let k = choose|k: int| 0 <= k < buf0.len() && buf0[k] == t2;
                                if k < i {
                                    assert(self.buf_tmp@[k] == t2);
                                } else {
                                    assert(self.buf_tmp@[k + 1] == t2);
                                }
                            }
                            if t2 == t {
                                assert(self.buf_tmp@[i as int] == t2);
                            }
                        }
                    }
                },
            }
            self.world.add_block(BlockType::Solid(0), pos);
            proof {
                self.lemma_mirror_after_add(*old(self), buf0, *pos, t);
            }
        } else {
            proof {
                lemma_wf_same_contents(*old(self), *self);
            }
        }
    }

    /// Re-establish the mirror invariant after `add_block` has updated the
    /// list (holding exactly the old entries plus `t`) and the grid.
    proof fn lemma_mirror_after_add(
        self,
        pre: WorldProxy,
        buf0: Seq<Translation>,
        pos: GridPos,
        t: Translation,
    )
        requires
            pre.wf(),
            pre.world.in_bounds(pos),
            t == translation_of(pos),
            buf0 == pre.buf_tmp@,
            translations_sorted(self.buf_tmp@),
            forall|t2: Translation| #![trigger self.buf_tmp@.contains(t2)]
                self.buf_tmp@.contains(t2) <==> (buf0.contains(t2) || t2 == t),
            self.world.capacity == pre.world.capacity,
            self.world.wf(),
            self.world.spec_block(pos).block_type == BlockType::Solid(0),
            forall|q: GridPos| self.world.in_bounds(q) && q != pos
                ==> #[trigger] self.world.spec_block(q) == pre.world.spec_block(q),
        ensures
            self.wf(),
    {
        lemma_translation_roundtrip(pos);
        assert(self.world.solid(pos));
        assert forall|p: GridPos| pre.world.solid(p) implies self.world.solid(p) by {
            if p != pos {
                assert(self.world.spec_block(p) == pre.world.spec_block(p));
            }
        }
        assert forall|i: int| 0 <= i < self.buf_tmp@.len() implies entry_mirrors(
            self.world,
            #[trigger] self.buf_tmp@[i],
        ) by {
            let t2 = self.buf_tmp@[i];
            assert(self.buf_tmp@.contains(t2));
            if t2 == t {
                assert(entry_mirrors(self.world, t2));
            } else {
                assert(buf0.contains(t2));
                let j = choose|j: int| 0 <= j < buf0.len() && buf0[j] == t2;
                assert(entry_mirrors(pre.world, buf0[j]));
                assert(self.world.solid(pos_of_translation(t2)));
            }
        }
        assert forall|p: GridPos| #[trigger] self.world.solid(p) implies self.buf_tmp@.contains(
            translation_of(p),
        ) by {
            if p == pos {
                assert(self.buf_tmp@.contains(t));
            } else {
                assert(self.world.spec_block(p) == pre.world.spec_block(p));
                assert(pre.world.solid(p));
                assert(buf0.contains(translation_of(p)));
            }
        }
    }

    /// Remove the block at `pos` from mirror and grid: if its translation
    /// is mirrored, delete the entry and clear the cell; a position that
    /// was never mirrored is silently ignored. Marks the mirror dirty.
    pub fn remove_block(&mut self, pos: &GridPos)
        requires
            old(self).wf(),
        ensures
            final(self).wf(),
            final(self).update_required,
            final(self).world.capacity == old(self).world.capacity,
            forall|q: GridPos| final(self).world.in_bounds(q) && q != *pos
                ==> #[trigger] final(self).world.spec_block(q) == old(self).world.spec_block(q),
            old(self).world.in_bounds(*pos) ==> {
                &&& !final(self).world.solid(*pos)
                &&& (old(self).world.solid(*pos) ==> final(self).world.spec_block(
                    *pos,
                ).block_type == BlockType::Void(0))
                &&& forall|t: Translation| #![trigger final(self).buf_tmp@.contains(t)]
                    final(self).buf_tmp@.contains(t) <==> (old(self).buf_tmp@.contains(t) && t
                    != translation_of(*pos))
            },
            !old(self).world.solid(*pos) ==> final(self).world.blocks@ == old(self).world.blocks@,
            !old(self).world.in_bounds(*pos) ==> final(self).world.blocks@ == old(
                self,
            ).world.blocks@ && final(self).buf_tmp@ == old(self).buf_tmp@,
    {
        self.update_required = true;
        if pos.x < self.world.capacity && pos.y < self.world.capacity && pos.z
            < self.world.capacity {
            let t = local_pos_to_translation(pos);
            let ghost buf0 = self.buf_tmp@;
            match binary_search_translation(&self.buf_tmp, &t) {
                Ok(i) => {
                    proof {
                        // the mirrored entry proves the cell is solid
                        assert(entry_mirrors(old(self).world, buf0[i as int]));
                        lemma_translation_roundtrip(*pos);
                        assert(old(self).world.solid(*pos));
                    }
                    self.buf_tmp.remove(i);
                    proof {
                        buf0.remove_ensures(i as int);
                        assert(self.buf_tmp@ == buf0.remove(i as int));
                        assert forall|a: int, b: int| #![trigger self.buf_tmp@[a], self.buf_tmp@[b]]
                            0 <= a < b < self.buf_tmp@.len() implies self.buf_tmp@[a].spec_lt(
                            self.buf_tmp@[b],
                        ) by {
                            if a < i && b < i {
                            } else if a < i {
                                assert(self.buf_tmp@[b] == buf0[b + 1]);
                            } else {
                                assert(self.buf_tmp@[a] == buf0[a + 1]);
                                assert(self.buf_tmp@[b] == buf0[b + 1]);
                            }
                        }
                        assert forall|t2: Translation| #![trigger self.buf_tmp@.contains(t2)]
                            self.buf_tmp@.contains(t2) <==> (buf0.contains(t2) && t2 != t) by {
                            if self.buf_tmp@.contains(t2) {
                                let k = choose|k: int|
                                    0 <= k < self.buf_tmp@.len() && self.buf_tmp@[k] == t2;
                                if k < i {
                                    assert(buf0[k] == t2);
                                    assert(buf0[k].spec_lt(buf0[i as int]));
                                } else {
                                    assert(buf0[k + 1] == t2);
                                    assert(buf0[i as int].spec_lt(buf0[k + 1]));
                                }
                            }
                            if buf0.contains(t2) && t2 != t {
                                let k = choose|k: int| 0 <= k < buf0.len() && buf0[k] == t2;
                                if k < i {
                                    assert(self.buf_tmp@[k] == t2);
                                } else if k > i {
                                    assert(self.buf_tmp@[k - 1] == t2);
                                }
                            }
                        }
                    }
                    self.world.remove_block(pos);
                    proof {
                        self.lemma_mirror_after_remove(*old(self), buf0, *pos, t);
                    }
                },
                Err(i) => {
                    proof {
                        // The translation is not mirrored, so by the
                        // invariant the cell is not solid and there is
                        // nothing to do.
                        assert(!buf0.contains(t)) by {
                            if buf0.contains(t) {
                                let k = choose|k: int| 0 <= k < buf0.len() && buf0[k] == t;
                                if k < i {
                                    assert(buf0[k].spec_lt(t));
                                } else {
                                    assert(t.spec_lt(buf0[k]));
                                }
                            }
                        }
                        assert(!old(self).world.solid(*pos));
                        lemma_wf_same_contents(*old(self), *self);
                    }
                },
            }
        } else {
            proof {
                lemma_wf_same_contents(*old(self), *self);
            }
        }
    }

    /// Re-establish the mirror invariant after `remove_block` has deleted
    /// the entry `t` from the list and cleared the cell.
    proof fn lemma_mirror_after_remove(
        self,
        pre: WorldProxy,
        buf0: Seq<Translation>,
        pos: GridPos,
        t: Translation,
    )
        requires
            pre.wf(),
            pre.world.in_bounds(pos),
            t == translation_of(pos),
            buf0 == pre.buf_tmp@,
            translations_sorted(self.buf_tmp@),
            forall|t2: Translation| #![trigger self.buf_tmp@.contains(t2)]
                self.buf_tmp@.contains(t2) <==> (buf0.contains(t2) && t2 != t),
            self.world.capacity == pre.world.capacity,
            self.world.wf(),
            self.world.spec_block(pos).block_type == BlockType::Void(0),
            forall|q: GridPos| self.world.in_bounds(q) && q != pos
                ==> #[trigger] self.world.spec_block(q) == pre.world.spec_block(q),
        ensures
            self.wf(),
    {
        lemma_translation_roundtrip(pos);
        assert forall|i: int| 0 <= i < self.buf_tmp@.len() implies entry_mirrors(
            self.world,
            #[trigger] self.buf_tmp@[i],
        ) by {
            let t2 = self.buf_tmp@[i];
            assert(self.buf_tmp@.contains(t2));
            assert(buf0.contains(t2) && t2 != t);
            let j = choose|j: int| 0 <= j < buf0.len() && buf0[j] == t2;
            assert(entry_mirrors(pre.world, buf0[j]));
            let p2 = pos_of_translation(t2);
            // `t2 != t` forces `p2 != pos`, so the cell survived untouched.
            assert(p2 != pos);
            assert(self.world.spec_block(p2) == pre.world.spec_block(p2));
        }
        assert forall|p: GridPos| #[trigger] self.world.solid(p) implies self.buf_tmp@.contains(
            translation_of(p),
        ) by {
            assert(p != pos);
            assert(self.world.spec_block(p) == pre.world.spec_block(p));
            assert(pre.world.solid(p));
            assert(buf0.contains(translation_of(p)));
            // Distinct in-range coordinates have distinct translations.
            lemma_translation_roundtrip(p);
            assert(translation_of(p) != t);
        }
    }

    /// Find the closest solid block along the view ray, with the fraction
    /// of the traced segment at which it is first met and the exact hit
    /// point. Candidates come from the bounded neighborhood query around
    /// the ray origin, in ascending (x, y, z) order; among candidates met
    /// at the same fraction the first seen wins, so ties go to the
    /// lexicographically least coordinate.
    #[verifier::loop_isolation(false)]
    pub fn closest_block_hit(&self, pos: &Vec3i, dir: &Vec3i) -> (r: Option<
        (Ratio, Vec3q, WorldBlock),
    >)
        requires
            self.wf(),
            pos.in_bounds(MAX_COORD as int),
            dir.in_bounds(DIR_MAX as int),
        ensures
            r is None ==> forall|q: GridPos, tn: int, td: int|
                self.world.in_query_cube(spec_view_center(*pos), REACH_DISTANCE as int, q)
                    && self.world.solid(q) && td > 0 && 0 <= tn <= td ==> !#[trigger] block_hit_at(
                    *pos,
                    *dir,
                    RAY_LEN as int,
                    q,
                    tn,
                    td,
                ),
            r matches Some((f, hp, wb)) ==> {
                &&& self.world.in_query_cube(spec_view_center(*pos), REACH_DISTANCE as int, wb.pos)
                &&& self.world.solid(wb.pos)
                &&& wb.block == self.world.spec_block(wb.pos)
                &&& f.bounded(FRAC_BOUND as int)
                &&& 0 <= f.num <= f.den
                &&& block_hit_at(*pos, *dir, RAY_LEN as int, wb.pos, f.num as int, f.den as int)
                &&& hp.x.den == f.den && hp.x.num == pos.x * f.den + (dir.x * RAY_LEN) * f.num
                &&& hp.y.den == f.den && hp.y.num == pos.y * f.den + (dir.y * RAY_LEN) * f.num
                &&& hp.z.den == f.den && hp.z.num == pos.z * f.den + (dir.z * RAY_LEN) * f.num
                &&& -HIT_BOUND <= hp.x.num <= HIT_BOUND
                &&& -HIT_BOUND <= hp.y.num <= HIT_BOUND
                &&& -HIT_BOUND <= hp.z.num <= HIT_BOUND
                &&& forall|q: GridPos, tn: int, td: int|
                    self.world.in_query_cube(spec_view_center(*pos), REACH_DISTANCE as int, q)
                        && self.world.solid(q) && td > 0 && 0 <= tn <= td
                        && #[trigger] block_hit_at(*pos, *dir, RAY_LEN as int, q, tn, td)
                        ==> frac_le(f.num as int, f.den as int, tn, td)
                &&& forall|q: GridPos, tn: int, td: int|
                    self.world.in_query_cube(spec_view_center(*pos), REACH_DISTANCE as int, q)
                        && self.world.solid(q) && grid_lex_lt(q, wb.pos) && td > 0 && 0 <= tn <= td
                        && #[trigger] block_hit_at(*pos, *dir, RAY_LEN as int, q, tn, td)
                        ==> frac_lt(f.num as int, f.den as int, tn, td)
            },
    {
        let sc = safe_cast(pos);
        let center = GridPos { x: sc.x / (DIM as usize), y: sc.y / (DIM as usize), z: sc.z / (
        DIM as usize) };
        proof {
            assert(center == spec_view_center(*pos));
        }
        let cands = self.world.blocks(&center, REACH_DISTANCE);
        let ghost o = *pos;
        let ghost d = *dir;
        let ghost l = RAY_LEN as int;
        let ghost cube = |q: GridPos|
            self.world.in_query_cube(spec_view_center(o), REACH_DISTANCE as int, q);
        let mut best: Option<(Ratio, Vec3q, WorldBlock)> = None;
        let ghost mut bi: int = 0;
        let mut k: usize = 0;
        while k < cands.len()
            invariant
                0 <= k <= cands@.len(),
                best is None ==> forall|j: int, tn: int, td: int|
                    0 <= j < k && td > 0 && 0 <= tn <= td ==> !#[trigger] block_hit_at(
                        o,
                        d,
                        l,
                        cands@[j].pos,
                        tn,
                        td,
                    ),
                best matches Some((f, hp, wb)) ==> {
                    &&& 0 <= bi < k
                    &&& wb == cands@[bi]
                    &&& f.bounded(FRAC_BOUND as int)
                    &&& 0 <= f.num <= f.den
                    &&& block_hit_at(o, d, l, wb.pos, f.num as int, f.den as int)
                    &&& hp.x.den == f.den && hp.x.num == o.x * f.den + (d.x * l) * f.num
                    &&& hp.y.den == f.den && hp.y.num == o.y * f.den + (d.y * l) * f.num
                    &&& hp.z.den == f.den && hp.z.num == o.z * f.den + (d.z * l) * f.num
                    &&& -HIT_BOUND <= hp.x.num <= HIT_BOUND
                    &&& -HIT_BOUND <= hp.y.num <= HIT_BOUND
                    &&& -HIT_BOUND <= hp.z.num <= HIT_BOUND
                    &&& forall|j: int, tn: int, td: int|
                        0 <= j < k && td > 0 && 0 <= tn <= td && #[trigger] block_hit_at(
                            o,
                            d,
                            l,
                            cands@[j].pos,
                            tn,
                            td,
                        ) ==> frac_le(f.num as int, f.den as int, tn, td)
                    &&& forall|j: int, tn: int, td: int|
                        0 <= j < bi && td > 0 && 0 <= tn <= td && #[trigger] block_hit_at(
                            o,
                            d,
                            l,
                            cands@[j].pos,
                            tn,
                            td,
                        ) ==> frac_lt(f.num as int, f.den as int, tn, td)
                },
            decreases cands@.len() - k,
        {
            let wb = cands[k];
            proof {
                assert(self.world.in_query_cube(spec_view_center(o), REACH_DISTANCE as int, wb.pos));
                assert(wb.pos.x <= GRID_CAP_MAX && wb.pos.y <= GRID_CAP_MAX && wb.pos.z
                    <= GRID_CAP_MAX);
                lemma_mul_magnitude(dir.x as int, RAY_LEN as int, DIR_MAX as int, RAY_LEN as int);
                lemma_mul_magnitude(dir.y as int, RAY_LEN as int, DIR_MAX as int, RAY_LEN as int);
                lemma_mul_magnitude(dir.z as int, RAY_LEN as int, DIR_MAX as int, RAY_LEN as int);
            }
            let wpos = wb.world_pos();
            match ray_intersect(pos, dir, RAY_LEN, &wb.block, &wpos) {
                Some((fr, hp2)) => {
                    proof {
                        assert(block_hit_at(o, d, l, wb.pos, fr.num as int, fr.den as int)) by {
                            assert(seg_hits_box_at(
                                o,
                                d,
                                l,
                                wb.block.spec_min(),
                                wb.block.spec_max(),
                                spec_world_pos(wb.pos),
                                fr.num as int,
                                fr.den as int,
                            ));
                        }
                        // the least hitting fraction of this candidate
                        // bounds every hitting fraction of it from below
                        assert forall|tn: int, td: int|
                            td > 0 && 0 <= tn <= td && #[trigger] block_hit_at(
                                o,
                                d,
                                l,
                                wb.pos,
                                tn,
                                td,
                            ) implies frac_le(fr.num as int, fr.den as int, tn, td) by {
                            assert(seg_hits_box_at(
                                o,
                                d,
                                l,
                                wb.block.spec_min(),
                                wb.block.spec_max(),
                                spec_world_pos(wb.pos),
                                tn,
                                td,
                            ));
                        }
                    }
                    match best {
                        Some((bf, bhp, bwb)) => {
                            if fr.lt(&bf) {
                                proof {
                                    // every earlier hit is at least the old
                                    // best, which the new fraction undercuts
                                    assert forall|j: int, tn: int, td: int|
                                        0 <= j < k && td > 0 && 0 <= tn <= td
                                            && #[trigger] block_hit_at(
                                            o,
                                            d,
                                            l,
                                            cands@[j].pos,
                                            tn,
                                            td,
                                        ) implies frac_lt(fr.num as int, fr.den as int, tn, td) by {
                                        lemma_frac_lt_le_trans(
                                            fr.num as int,
                                            fr.den as int,
                                            bf.num as int,
                                            bf.den as int,
                                            tn,
                                            td,
                                        );
                                    }
                                    bi = k as int;
                                }
                                best = Some((fr, hp2, wb));
                            } else {
                                proof {
                                    // the new hit is no closer: every hit of
                                    // this candidate is at least the best
                                    assert forall|tn: int, td: int|
                                        td > 0 && 0 <= tn <= td && #[trigger] block_hit_at(
                                            o,
                                            d,
                                            l,
                                            cands@[k as int].pos,
                                            tn,
                                            td,
                                        ) implies frac_le(bf.num as int, bf.den as int, tn, td) by {
                                        lemma_frac_le_trans(
                                            bf.num as int,
                                            bf.den as int,
                                            fr.num as int,
                                            fr.den as int,
                                            tn,
                                            td,
                                        );
                                    }
                                }
                            }
                        },
                        None => {
                            proof {
                                bi = k as int;
                            }
                            best = Some((fr, hp2, wb));
                        },
                    }
                },
                None => {
                    proof {
                        // no fraction of the segment meets this candidate
                        assert forall|tn: int, td: int| td > 0 && 0 <= tn <= td implies !#[trigger] block_hit_at(
                            o,
                            d,
                            l,
                            cands@[k as int].pos,
                            tn,
                            td,
                        ) by {
                            if block_hit_at(o, d, l, cands@[k as int].pos, tn, td) {
                                assert(seg_hits_box_at(
                                    o,
                                    d,
                                    l,
                                    wb.block.spec_min(),
                                    wb.block.spec_max(),
                                    spec_world_pos(wb.pos),
                                    tn,
                                    td,
                                ));
                            }
                        }
                    }
                },
            }
            k = k + 1;
        }
        proof {
            if best is None {
                assert forall|q: GridPos, tn: int, td: int|
                    self.world.in_query_cube(spec_view_center(o), REACH_DISTANCE as int, q)
                        && self.world.solid(q) && td > 0 && 0 <= tn <= td implies !#[trigger] block_hit_at(
                    o,
                    d,
                    l,
                    q,
                    tn,
                    td,
                ) by {
                    let j = choose|j: int| 0 <= j < cands@.len() && (#[trigger] cands@[j]).pos == q;
                    assert(!block_hit_at(o, d, l, cands@[j].pos, tn, td));
                }
            } else {
                let (f, hp, wb) = best->0;
                assert forall|q: GridPos, tn: int, td: int|
                    self.world.in_query_cube(spec_view_center(o), REACH_DISTANCE as int, q)
                        && self.world.solid(q) && td > 0 && 0 <= tn <= td && #[trigger] block_hit_at(
                        o,
                        d,
                        l,
                        q,
                        tn,
                        td,
                    ) implies frac_le(f.num as int, f.den as int, tn, td) by {
                    let j = choose|j: int| 0 <= j < cands@.len() && (#[trigger] cands@[j]).pos == q;
                    assert(block_hit_at(o, d, l, cands@[j].pos, tn, td));
                }
                assert forall|q: GridPos, tn: int, td: int|
                    self.world.in_query_cube(spec_view_center(o), REACH_DISTANCE as int, q)
                        && self.world.solid(q) && grid_lex_lt(q, wb.pos) && td > 0 && 0 <= tn <= td
                        && #[trigger] block_hit_at(o, d, l, q, tn, td) implies frac_lt(
                    f.num as int,
                    f.den as int,
                    tn,
                    td,
                ) by {
                    let j = choose|j: int| 0 <= j < cands@.len() && (#[trigger] cands@[j]).pos == q;
                    if j > bi {
                        assert(grid_lex_lt(cands@[bi].pos, cands@[j].pos));
                    }
                    assert(j < bi);
                    assert(block_hit_at(o, d, l, cands@[j].pos, tn, td));
                }
            }
        }
        best
    }

    /// Find the block the camera looks at: the closest solid block along
    /// the view ray within reach, together with the world-space hit point.
    pub fn find_block_look_at(&self, pos: &Vec3i, dir: &Vec3i) -> (r: Option<(WorldBlock, Vec3q)>)
        requires
            self.wf(),
            pos.in_bounds(MAX_COORD as int),
            dir.in_bounds(DIR_MAX as int),
        ensures
            r is None ==> spec_ray_misses(self.world, *pos, *dir),
            r matches Some((wb, hp)) ==> {
                &&& spec_target(self.world, *pos, *dir, wb, hp)
                &&& 0 < hp.x.den <= FRAC_BOUND && 0 < hp.y.den <= FRAC_BOUND && 0 < hp.z.den
                    <= FRAC_BOUND
                &&& -HIT_BOUND <= hp.x.num <= HIT_BOUND
                &&& -HIT_BOUND <= hp.y.num <= HIT_BOUND
                &&& -HIT_BOUND <= hp.z.num <= HIT_BOUND
            },
    {
        match self.closest_block_hit(pos, dir) {
            Some((f, hp, wb)) => {
                proof {
                    assert(block_hit_at(
                        *pos,
                        *dir,
                        RAY_LEN as int,
                        wb.pos,
                        f.num as int,
                        f.den as int,
                    ));
                    assert(spec_target(self.world, *pos, *dir, wb, hp));
                }
                Some((wb, hp))
            },
            None => None,
        }
    }

    /// Handle a "place" interaction: resolve the targeted block and face,
    /// and add a block at the adjacent coordinate. Returns the coordinate a
    /// block was added at, and nothing exactly when no block is targeted or
    /// the hit resolves to no placeable face.
    pub fn place_block_look_at(&mut self, pos: &Vec3i, dir: &Vec3i) -> (r: Option<GridPos>)
        requires
            old(self).wf(),
            pos.in_bounds(MAX_COORD as int),
            dir.in_bounds(DIR_MAX as int),
        ensures
            final(self).wf(),
            final(self).world.capacity == old(self).world.capacity,
            r is None ==> {
                &&& final(self).world.blocks@ == old(self).world.blocks@
                &&& final(self).buf_tmp@ == old(self).buf_tmp@
                &&& (spec_ray_misses(old(self).world, *pos, *dir) || exists|
                    wb: WorldBlock,
                    hp: Vec3q,
                |
                    #[trigger] spec_target(old(self).world, *pos, *dir, wb, hp)
                        && crate::targeting::spec_place_position(wb.pos, hp) is None)
            },
            r matches Some(p) ==> {
                &&& exists|wb: WorldBlock, hp: Vec3q|
                    #[trigger] spec_target(old(self).world, *pos, *dir, wb, hp) && Some(p)
                        == crate::targeting::spec_place_position(wb.pos, hp)
                &&& old(self).world.in_bounds(p) ==> {
                    &&& final(self).world.spec_block(p).block_type == BlockType::Solid(0)
                    &&& forall|t: Translation| #![trigger final(self).buf_tmp@.contains(t)]
                        final(self).buf_tmp@.contains(t) <==> (old(self).buf_tmp@.contains(t) || t
                        == translation_of(p))
                }
                &&& forall|q: GridPos| final(self).world.in_bounds(q) && q != p
                    ==> #[trigger] final(self).world.spec_block(q) == old(self).world.spec_block(q)
            },
    {
        let found = self.find_block_look_at(pos, dir);
        match found {
            Some((wb, hp)) => {
                let bp = wb.local_pos();
                proof {
                    assert(bp.x <= GRID_CAP_MAX && bp.y <= GRID_CAP_MAX && bp.z <= GRID_CAP_MAX);
                }
                match crate::targeting::place_position(&bp, &hp) {
                    Some(p) => {
                        self.add_block(&p);
                        proof {
                            assert(spec_target(old(self).world, *pos, *dir, wb, hp) && Some(p)
                                == crate::targeting::spec_place_position(wb.pos, hp));
                        }
                        Some(p)
                    },
                    None => {
                        proof {
                            assert(spec_target(old(self).world, *pos, *dir, wb, hp)
                                && crate::targeting::spec_place_position(wb.pos, hp) is None);
                        }
                        None
                    },
                }
            },
            None => None,
        }
    }

    /// Handle a "remove" interaction: clear the targeted block from grid
    /// and mirror. Returns the targeted block's coordinate, and nothing
    /// exactly when no block is targeted.
    pub fn remove_block_look_at(&mut self, pos: &Vec3i, dir: &Vec3i) -> (r: Option<GridPos>)
        requires
            old(self).wf(),
            pos.in_bounds(MAX_COORD as int),
            dir.in_bounds(DIR_MAX as int),
        ensures
            final(self).wf(),
            final(self).world.capacity == old(self).world.capacity,
            r is None ==> {
                &&& final(self).world.blocks@ == old(self).world.blocks@
                &&& final(self).buf_tmp@ == old(self).buf_tmp@
                &&& spec_ray_misses(old(self).world, *pos, *dir)
            },
            r matches Some(p) ==> {
                &&& exists|wb: WorldBlock, hp: Vec3q|
                    #[trigger] spec_target(old(self).world, *pos, *dir, wb, hp) && wb.pos == p
                &&& old(self).world.solid(p)
                &&& final(self).world.spec_block(p).block_type == BlockType::Void(0)
                &&& !final(self).world.solid(p)
                &&& forall|t: Translation| #![trigger final(self).buf_tmp@.contains(t)]
                    final(self).buf_tmp@.contains(t) <==> (old(self).buf_tmp@.contains(t) && t
                    != translation_of(p))
                &&& forall|q: GridPos| final(self).world.in_bounds(q) && q != p
                    ==> #[trigger] final(self).world.spec_block(q) == old(self).world.spec_block(q)
            },
    {
        let found = self.find_block_look_at(pos, dir);
        match found {
            Some((wb, hp)) => {
                let p = wb.local_pos();
                proof {
                    assert(spec_target(old(self).world, *pos, *dir, wb, hp) && wb.pos == p);
                }
                self.remove_block(&p);
                Some(p)
            },
            None => None,
        }
    }

    /// One synchronization step for the renderer: reports whether the
    /// render-visible buffer must be rewritten from the mirror, and clears
    /// the dirty flag exactly when it reports so. Any number of mutations
    /// between two calls coalesce into one reported rewrite.
    pub fn sync_for_render(&mut self) -> (dirty: bool)
        ensures
            final(self).world == old(self).world,
            final(self).buf_tmp == old(self).buf_tmp,
            dirty == (old(self).update_required && old(self).buf_tmp@.len() > 0),
            final(self).update_required == (old(self).update_required && old(
                self,
            ).buf_tmp@.len() == 0),
    {
        if self.update_required && self.buf_tmp.len() > 0 {
            self.update_required = false;
            true
        } else {
            false
        }
    }
}

/// A strictly sorted mirror holds at most one entry per translation: equal
/// entries stand at equal indices.
pub proof fn lemma_mirror_entry_unique(pr: WorldProxy, i: int, j: int)
    requires
        pr.wf(),
        0 <= i < pr.buf_tmp@.len(),
        0 <= j < pr.buf_tmp@.len(),
        pr.buf_tmp@[i] == pr.buf_tmp@[j],
    ensures
        i == j,
{
    if i < j {
        assert(pr.buf_tmp@[i].spec_lt(pr.buf_tmp@[j]));
    }
    if j < i {
        assert(pr.buf_tmp@[j].spec_lt(pr.buf_tmp@[i]));
    }
}

/// The mirror's entry set is exactly the set of translations of the grid's
/// solid cells: however adds and removes were interleaved, a translation is
/// listed if and only if some solid cell translates to it.
pub proof fn lemma_mirror_matches_grid(pr: WorldProxy, t: Translation)
    requires
        pr.wf(),
    ensures
        pr.buf_tmp@.contains(t) <==> exists|p: GridPos| #[trigger] pr.world.solid(p) && t
            == translation_of(p),
{
    if pr.buf_tmp@.contains(t) {
        let k = choose|k: int| 0 <= k < pr.buf_tmp@.len() && pr.buf_tmp@[k] == t;
        assert(entry_mirrors(pr.world, pr.buf_tmp@[k]));
        assert(pr.world.solid(pos_of_translation(t)) && t == translation_of(pos_of_translation(t)));
    }
    if exists|p: GridPos| #[trigger] pr.world.solid(p) && t == translation_of(p) {
        let p = choose|p: GridPos| #[trigger] pr.world.solid(p) && t == translation_of(p);
        assert(pr.buf_tmp@.contains(translation_of(p)));
    }
}

} // verus!
