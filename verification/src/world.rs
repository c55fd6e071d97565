use vstd::prelude::*;
use vstd::arithmetic::div_mod::{
    lemma_fundamental_div_mod, lemma_fundamental_div_mod_converse,
    lemma_mod_division_less_than_divisor,
};
use crate::chunk::{
    all_air, freshly_generated, lemma_freshly_generated_voxels, stone_marks, voxel_index, Chunk,
    CHUNK_SIZE, CHUNK_VOLUME,
};
use crate::linalg::{floor_div, floor_rem, Pos};
use crate::palette::MaterialID;

verus! {

/// Chunks per edge of the visible cube. A power of two, like the chunk edge,
/// so that ring-buffer addressing is a per-axis modulo.
pub const RENDER_DISTANCE: usize = 2;

/// Chunk slots in the visible cube.
pub const RENDER_VOLUME: usize = 2 * 2 * 2;

/// Chunk-space coordinates within this bound keep all streaming arithmetic
/// inside the `i32` range.
pub const COORD_LIMIT: i32 = 0x1000_0000;

/// The ring-buffer slot that a chunk-space coordinate wraps to: each axis is
/// reduced modulo the cube edge, so the same physical slots are reused as
/// the visible window slides.
pub open spec fn chunk_slot(c: Pos) -> int {
    let edge = RENDER_DISTANCE as int;
    ((c.z as int % edge) * edge + (c.y as int % edge)) * edge + (c.x as int % edge)
}

/// The visible cube of a viewer standing at chunk-space index `ci`: the
/// cube's minimal corner lies half the render distance below `ci` on every
/// axis.
pub open spec fn in_cube(ci: Pos, c: Pos) -> bool {
    &&& ci.x - 1 <= c.x <= ci.x
    &&& ci.y - 1 <= c.y <= ci.y
    &&& ci.z - 1 <= c.z <= ci.z
}

/// The viewer outran the visible window: between two chunk-space indices the
/// offset reaches the render distance in magnitude on some axis, so the old
/// and new visible cubes share nothing.
pub open spec fn far_jump(oci: Pos, nci: Pos) -> bool {
    ||| crate::linalg::abs_val(nci.x - oci.x) >= RENDER_DISTANCE
    ||| crate::linalg::abs_val(nci.y - oci.y) >= RENDER_DISTANCE
    ||| crate::linalg::abs_val(nci.z - oci.z) >= RENDER_DISTANCE
}

/// The chunk-space coordinate owning a voxel-space position: flooring
/// division by the chunk edge on every axis.
pub open spec fn chunk_coords_of(pos: Pos) -> Pos {
    Pos {
        x: (pos.x as int / (CHUNK_SIZE as int)) as i32,
        y: (pos.y as int / (CHUNK_SIZE as int)) as i32,
        z: (pos.z as int / (CHUNK_SIZE as int)) as i32,
    }
}

/// A slot number splits back into the per-axis residues it was built from.
pub proof fn lemma_slot_decompose(c: Pos)
    ensures
        0 <= chunk_slot(c) < RENDER_VOLUME,
        chunk_slot(c) % 2 == c.x as int % 2,
        (chunk_slot(c) / 2) % 2 == c.y as int % 2,
        chunk_slot(c) / 4 == c.z as int % 2,
{
    let bx = c.x as int % 2;
    let by = c.y as int % 2;
    let bz = c.z as int % 2;
    lemma_mod_division_less_than_divisor(c.x as int, 2);
    lemma_mod_division_less_than_divisor(c.y as int, 2);
    lemma_mod_division_less_than_divisor(c.z as int, 2);
    lemma_fundamental_div_mod_converse(chunk_slot(c), 2, bz * 2 + by, bx);
    lemma_fundamental_div_mod_converse(bz * 2 + by, 2, bz, by);
    lemma_fundamental_div_mod_converse(chunk_slot(c), 4, bz, by * 2 + bx);
}

/// Consecutive integers have different parities.
proof fn lemma_parity_differs(a: int)
    ensures
        a % 2 != (a + 1) % 2,
{
    lemma_fundamental_div_mod(a, 2);
    lemma_mod_division_less_than_divisor(a, 2);
    if a % 2 == 0 {
        lemma_fundamental_div_mod_converse(a + 1, 2, a / 2, 1);
    } else {
        lemma_fundamental_div_mod_converse(a + 1, 2, a / 2 + 1, 0);
    }
}

/// Within one visible cube, distinct chunk coordinates occupy distinct
/// ring-buffer slots.
pub proof fn lemma_cube_slot_injective(ci: Pos, c1: Pos, c2: Pos)
    requires
        in_cube(ci, c1),
        in_cube(ci, c2),
        chunk_slot(c1) == chunk_slot(c2),
    ensures
        c1 == c2,
{
    lemma_slot_decompose(c1);
    lemma_slot_decompose(c2);
    lemma_parity_differs(ci.x - 1);
    lemma_parity_differs(ci.y - 1);
    lemma_parity_differs(ci.z - 1);
}

/// In a well-formed world no two simultaneously loaded chunks share a
/// ring-buffer slot: a loaded chunk's slot is determined by its coordinates.
pub proof fn lemma_no_slot_sharing(w: World, i: int, j: int)
    requires
        w.wf(),
        0 <= i < RENDER_VOLUME,
        0 <= j < RENDER_VOLUME,
        w.chunks@[i] is Some,
        w.chunks@[j] is Some,
        w.chunks@[i]->0.coords == w.chunks@[j]->0.coords,
    ensures
        i == j,
{
}

/// A toroidal grid of chunk slots: a chunk's slot is its chunk-space
/// coordinate modulo the visible radius, and `coord_index` records the
/// chunk-space coordinate the viewer had when streaming was last evaluated.
#[derive(Debug)]
pub struct World {
    pub chunks: Vec<Option<Chunk>>,
    pub coord_index: Pos,
}

impl World {
    /// Structural invariant: one slot per position of the visible cube, a
    /// loaded chunk always sits in the slot its coordinates wrap to, and the
    /// viewer index stays within safe arithmetic range.
    pub open spec fn wf(self) -> bool {
        &&& self.chunks@.len() == RENDER_VOLUME
        &&& forall|i: int|
            0 <= i < RENDER_VOLUME && self.chunks@[i] is Some ==> (#[trigger] self.chunks@[i])->0.wf()
                && chunk_slot(self.chunks@[i]->0.coords) == i
        &&& -COORD_LIMIT <= self.coord_index.x <= COORD_LIMIT
        &&& -COORD_LIMIT <= self.coord_index.y <= COORD_LIMIT
        &&& -COORD_LIMIT <= self.coord_index.z <= COORD_LIMIT
    }

    /// Steady-state invariant: every position of the visible cube is backed
    /// by a chunk carrying exactly those coordinates.
    pub open spec fn fully_loaded(self) -> bool {
        forall|c: Pos|
            #[trigger] in_cube(self.coord_index, c) ==> self.chunks@[chunk_slot(c)] is Some
                && self.chunks@[chunk_slot(c)]->0.coords == c
    }

    /// An empty world centered on the origin: every slot starts vacant.
    pub fn new() -> (w: World)
        ensures
            w.wf(),
            w.coord_index == (Pos { x: 0, y: 0, z: 0 }),
            forall|i: int| 0 <= i < RENDER_VOLUME ==> w.chunks@[i] is None,
    {
        let mut chunks: Vec<Option<Chunk>> = Vec::new();
        let mut i: usize = 0;
        while i < RENDER_VOLUME
            invariant
                i <= RENDER_VOLUME,
                chunks@.len() == i,
                forall|j: int| 0 <= j < i ==> chunks@[j] is None,
            decreases RENDER_VOLUME - i,
        {
            chunks.push(None);
            i = i + 1;
        }
        World { chunks, coord_index: Pos::new(0, 0, 0) }
    }

    /// The ring-buffer slot for a chunk-space coordinate.
    fn chunk_index(coords: Pos) -> (index: usize)
        ensures
            index == chunk_slot(coords),
            index < RENDER_VOLUME,
    {
        let x = floor_rem(coords.x, 2) as usize;
        let y = floor_rem(coords.y, 2) as usize;
        let z = floor_rem(coords.z, 2) as usize;
        (z * RENDER_DISTANCE + y) * RENDER_DISTANCE + x
    }

    /// Put a chunk into the slot its coordinates wrap to, handing back
    /// whatever chunk occupied that slot before.
    pub fn load_chunk(&mut self, chunk: Chunk) -> (old_chunk: Option<Chunk>)
        requires
            old(self).wf(),
            chunk.wf(),
        ensures
            final(self).wf(),
            final(self).coord_index == old(self).coord_index,
            final(self).chunks@ == old(self).chunks@.update(
                chunk_slot(chunk.coords),
                Some(chunk),
            ),
            old_chunk == old(self).chunks@[chunk_slot(chunk.coords)],
    {
        let index = World::chunk_index(chunk.coords);
        let ghost slot = chunk_slot(chunk.coords);
        let old_chunk = self.chunks[index].take();
        self.chunks[index] = Some(chunk);
        proof {
            assert(self.chunks@ =~= old(self).chunks@.update(slot, Some(chunk)));
        }
        old_chunk
    }

    /// Vacate the slot a chunk-space coordinate wraps to, handing back the
    /// chunk that occupied it, if any.
    pub fn unload_chunk(&mut self, coords: Pos) -> (old_chunk: Option<Chunk>)
        requires
            old(self).wf(),
        ensures
            final(self).wf(),
            final(self).coord_index == old(self).coord_index,
            final(self).chunks@ == old(self).chunks@.update(chunk_slot(coords), None),
            old_chunk == old(self).chunks@[chunk_slot(coords)],
    {
        let index = World::chunk_index(coords);
        let old_chunk = self.chunks[index].take();
        proof {
            assert(self.chunks@ =~= old(self).chunks@.update(chunk_slot(coords), None));
        }
        old_chunk
    }

    /// The material of the voxel at a voxel-space position, or nothing when
    /// the owning slot currently holds no chunk. The latter signals
    /// "outside streamed space", which is distinct from Air.
    pub fn voxel_at(&self, pos: Pos) -> (m: Option<MaterialID>)
        requires
            self.wf(),
        ensures
            m == spec_voxel_at(*self, pos),
    {
        let cx = floor_div(pos.x, 8);
        let cy = floor_div(pos.y, 8);
        let cz = floor_div(pos.z, 8);
        let chunk_coords = Pos::new(cx, cy, cz);
        let index = World::chunk_index(chunk_coords);
        match &self.chunks[index] {
            Some(chunk) => Some(chunk.get_voxel(pos)),
            None => None,
        }
    }

    /// A chunk for a slot with no current content. Persistence is a stub, so
    /// the chunk always comes freshly generated: the placeholder generator's
    /// Stone marks over an all-Air base, in every outcome.
    fn fetch_unloaded_chunk(&self, coords: Pos) -> (c: Chunk)
        ensures
            c.wf(),
            c.coords == coords,
            freshly_generated(c.voxels@),
            forall|i: int|
                0 <= i < CHUNK_VOLUME ==> c.voxels@[i] == 0 || c.voxels@[i]
                    == crate::palette::Materials::Stone.spec_id(),
    {
        let mut c = Chunk::new(coords);
        let ghost base = c.voxels@;
        c.random_gen();
        proof {
            let ps = choose|ps: Seq<int>| stone_marks(ps, base, c.voxels@);
            assert forall|i: int|
                0 <= i < CHUNK_VOLUME && !ps.contains(i) implies #[trigger] c.voxels@[i]
                == all_air()[i] by {
                assert(base[i] == 0);
                assert(all_air()[i] == 0);
            }
            assert(stone_marks(ps, all_air(), c.voxels@));
            assert forall|i: int| 0 <= i < CHUNK_VOLUME implies c.voxels@[i] == 0 || c.voxels@[i]
                == crate::palette::Materials::Stone.spec_id() by {
                lemma_freshly_generated_voxels(c.voxels@, i);
            }
        }
        c
    }
}

/// A half-open, axis-aligned box of chunk-space coordinates, used to
/// describe the slices of the visible cube that a streaming step reloads.
#[derive(Clone, Copy, Debug, PartialEq, Eq, Structural)]
pub struct Region {
    pub x0: i32,
    pub x1: i32,
    pub y0: i32,
    pub y1: i32,
    pub z0: i32,
    pub z1: i32,
}

impl Region {
    /// The coordinates the region holds.
    pub open spec fn has(self, c: Pos) -> bool {
        &&& self.x0 <= c.x < self.x1
        &&& self.y0 <= c.y < self.y1
        &&& self.z0 <= c.z < self.z1
    }

    /// The region is well formed and lies within the visible cube of the
    /// viewer index `ci`.
    pub open spec fn within_cube(self, ci: Pos) -> bool {
        &&& self.x0 <= self.x1 && ci.x - 1 <= self.x0 && self.x1 <= ci.x + 1
        &&& self.y0 <= self.y1 && ci.y - 1 <= self.y0 && self.y1 <= ci.y + 1
        &&& self.z0 <= self.z1 && ci.z - 1 <= self.z0 && self.z1 <= ci.z + 1
    }
}

/// The ring-buffer slot `s` serves some coordinate of the region.
pub open spec fn slot_in_region(r: Region, s: int) -> bool {
    exists|c: Pos| #[trigger] r.has(c) && chunk_slot(c) == s
}

impl World {
    /// Load fresh chunks into every position of a single-column region: the
    /// region spans one coordinate on the x and y axes. Chunks evicted from
    /// the reused slots are returned.
    fn load_column(&mut self, r: Region, Ghost(ci): Ghost<Pos>) -> (evicted: Vec<Chunk>)
        requires
            old(self).wf(),
            r.within_cube(ci),
            r.x1 == r.x0 + 1,
            r.y1 == r.y0 + 1,
            -COORD_LIMIT <= ci.x <= COORD_LIMIT,
            -COORD_LIMIT <= ci.y <= COORD_LIMIT,
            -COORD_LIMIT <= ci.z <= COORD_LIMIT,
        ensures
            final(self).wf(),
            final(self).coord_index == old(self).coord_index,
            forall|c: Pos|
                #[trigger] r.has(c) ==> final(self).chunks@[chunk_slot(c)] is Some
                    && final(self).chunks@[chunk_slot(c)]->0.coords == c,
            forall|c: Pos|
                #[trigger] r.has(c) ==> freshly_generated(
                    final(self).chunks@[chunk_slot(c)]->0.voxels@,
                ),
            forall|c: Pos|
                in_cube(ci, c) && !(#[trigger] r.has(c)) ==> final(self).chunks@[chunk_slot(c)]
                    == old(self).chunks@[chunk_slot(c)],
            forall|k: int|
                0 <= k < evicted@.len() ==> old(self).chunks@[chunk_slot(
                    (#[trigger] evicted@[k]).coords,
                )] == Some(evicted@[k]),
            forall|k: int|
                0 <= k < evicted@.len() ==> slot_in_region(
                    r,
                    chunk_slot((#[trigger] evicted@[k]).coords),
                ),
            forall|c: Pos|
                #[trigger] r.has(c) && old(self).chunks@[chunk_slot(c)] is Some ==> evicted@.contains(
                    old(self).chunks@[chunk_slot(c)]->0,
                ),
    {
        let x = r.x0;
        let y = r.y0;
        let mut z = r.z0;
        let mut evicted: Vec<Chunk> = Vec::new();
        while z < r.z1
            invariant
                self.wf(),
                self.coord_index == old(self).coord_index,
                r.within_cube(ci),
                r.x1 == r.x0 + 1,
                r.y1 == r.y0 + 1,
                x == r.x0,
                y == r.y0,
                r.z0 <= z <= r.z1,
                -COORD_LIMIT <= ci.z <= COORD_LIMIT,
                forall|c: Pos|
                    #[trigger] r.has(c) && c.z < z ==> self.chunks@[chunk_slot(c)] is Some
                        && self.chunks@[chunk_slot(c)]->0.coords == c,
                forall|c: Pos|
                    #[trigger] r.has(c) && c.z < z ==> freshly_generated(
                        self.chunks@[chunk_slot(c)]->0.voxels@,
                    ),
                forall|c: Pos|
                    in_cube(ci, c) && !(#[trigger] r.has(c) && c.z < z) ==> self.chunks@[chunk_slot(
                        c,
                    )] == old(self).chunks@[chunk_slot(c)],
                forall|k: int|
                    0 <= k < evicted@.len() ==> old(self).chunks@[chunk_slot(
                        (#[trigger] evicted@[k]).coords,
                    )] == Some(evicted@[k]),
                forall|k: int|
                    0 <= k < evicted@.len() ==> slot_in_region(
                        r,
                        chunk_slot((#[trigger] evicted@[k]).coords),
                    ),
                forall|c: Pos|
                    #[trigger] r.has(c) && c.z < z && old(self).chunks@[chunk_slot(c)] is Some
                        ==> evicted@.contains(old(self).chunks@[chunk_slot(c)]->0),
            decreases r.z1 - z,
        {
            let coords = Pos::new(x, y, z);
            proof {
                assert(r.has(coords));
                assert(in_cube(ci, coords));
                assert forall|c: Pos| in_cube(ci, c) && c != coords implies chunk_slot(c)
                    != chunk_slot(coords) by {
                    if chunk_slot(c) == chunk_slot(coords) {
                        lemma_cube_slot_injective(ci, c, coords);
                    }
                }
            }
            let ghost pre = *self;
            let ghost pre_evicted = evicted@;
            let fresh = self.fetch_unloaded_chunk(coords);
            let old_c = self.load_chunk(fresh);
            if let Some(o) = old_c {
                evicted.push(o);
            }
            proof {
                lemma_slot_decompose(coords);
                assert forall|c: Pos|
                    in_cube(ci, c) && !(#[trigger] r.has(c) && c.z < z + 1) implies self.chunks@[chunk_slot(
                    c,
                )] == old(self).chunks@[chunk_slot(c)] by {
                    assert(c != coords);
                }
                assert forall|c: Pos| #[trigger] r.has(c) && c.z < z + 1 implies self.chunks@[chunk_slot(
                    c,
                )] is Some && self.chunks@[chunk_slot(c)]->0.coords == c && freshly_generated(
                    self.chunks@[chunk_slot(c)]->0.voxels@,
                ) by {
                    if c != coords {
                        assert(in_cube(ci, c));
                        assert(chunk_slot(c) != chunk_slot(coords));
                    }
                }
                assert forall|v: Chunk| pre_evicted.contains(v) implies evicted@.contains(v) by {
                    let k = choose|k: int| 0 <= k < pre_evicted.len() && pre_evicted[k] == v;
                    assert(evicted@[k] == v);
                }
                assert(pre.chunks@[chunk_slot(coords)] == old(self).chunks@[chunk_slot(coords)]);
                if old_c is Some {
                    let o = old_c->0;
                    assert(pre.chunks@[chunk_slot(coords)] == Some(o));
                    assert(chunk_slot(o.coords) == chunk_slot(coords));
                    assert(evicted@[evicted@.len() - 1] == o);
                    assert(evicted@.contains(o));
                }
            }
            z = z + 1;
        }
        evicted
    }

    /// Load fresh chunks into every position of a single-slab region: the
    /// region spans one coordinate on the x axis.
    fn load_slab(&mut self, r: Region, Ghost(ci): Ghost<Pos>) -> (evicted: Vec<Chunk>)
        requires
            old(self).wf(),
            r.within_cube(ci),
            r.x1 == r.x0 + 1,
            -COORD_LIMIT <= ci.x <= COORD_LIMIT,
            -COORD_LIMIT <= ci.y <= COORD_LIMIT,
            -COORD_LIMIT <= ci.z <= COORD_LIMIT,
        ensures
            final(self).wf(),
            final(self).coord_index == old(self).coord_index,
            forall|c: Pos|
                #[trigger] r.has(c) ==> final(self).chunks@[chunk_slot(c)] is Some
                    && final(self).chunks@[chunk_slot(c)]->0.coords == c,
            forall|c: Pos|
                #[trigger] r.has(c) ==> freshly_generated(
                    final(self).chunks@[chunk_slot(c)]->0.voxels@,
                ),
            forall|c: Pos|
                in_cube(ci, c) && !(#[trigger] r.has(c)) ==> final(self).chunks@[chunk_slot(c)]
                    == old(self).chunks@[chunk_slot(c)],
            forall|k: int|
                0 <= k < evicted@.len() ==> old(self).chunks@[chunk_slot(
                    (#[trigger] evicted@[k]).coords,
                )] == Some(evicted@[k]),
            forall|k: int|
                0 <= k < evicted@.len() ==> slot_in_region(
                    r,
                    chunk_slot((#[trigger] evicted@[k]).coords),
                ),
            forall|c: Pos|
                #[trigger] r.has(c) && old(self).chunks@[chunk_slot(c)] is Some ==> evicted@.contains(
                    old(self).chunks@[chunk_slot(c)]->0,
                ),
    {
        let mut y = r.y0;
        let mut evicted: Vec<Chunk> = Vec::new();
        while y < r.y1
            invariant
                self.wf(),
                self.coord_index == old(self).coord_index,
                r.within_cube(ci),
                r.x1 == r.x0 + 1,
                r.y0 <= y <= r.y1,
                -COORD_LIMIT <= ci.x <= COORD_LIMIT,
                -COORD_LIMIT <= ci.y <= COORD_LIMIT,
                -COORD_LIMIT <= ci.z <= COORD_LIMIT,
                forall|c: Pos|
                    #[trigger] r.has(c) && c.y < y ==> self.chunks@[chunk_slot(c)] is Some
                        && self.chunks@[chunk_slot(c)]->0.coords == c,
                forall|c: Pos|
                    #[trigger] r.has(c) && c.y < y ==> freshly_generated(
                        self.chunks@[chunk_slot(c)]->0.voxels@,
                    ),
                forall|c: Pos|
                    in_cube(ci, c) && !(#[trigger] r.has(c) && c.y < y) ==> self.chunks@[chunk_slot(
                        c,
                    )] == old(self).chunks@[chunk_slot(c)],
                forall|k: int|
                    0 <= k < evicted@.len() ==> old(self).chunks@[chunk_slot(
                        (#[trigger] evicted@[k]).coords,
                    )] == Some(evicted@[k]),
                forall|k: int|
                    0 <= k < evicted@.len() ==> slot_in_region(
                        r,
                        chunk_slot((#[trigger] evicted@[k]).coords),
                    ),
                forall|c: Pos|
                    #[trigger] r.has(c) && c.y < y && old(self).chunks@[chunk_slot(c)] is Some
                        ==> evicted@.contains(old(self).chunks@[chunk_slot(c)]->0),
            decreases r.y1 - y,
        {
            let rc = Region { x0: r.x0, x1: r.x1, y0: y, y1: y + 1, z0: r.z0, z1: r.z1 };
            let ghost pre = *self;
            let ghost pre_ev = evicted@;
            let mut col = self.load_column(rc, Ghost(ci));
            let ghost col_ev = col@;
            evicted.append(&mut col);
            proof {
                assert forall|c: Pos| #[trigger] r.has(c) && c.y < y + 1 implies self.chunks@[chunk_slot(
                    c,
                )] is Some && self.chunks@[chunk_slot(c)]->0.coords == c by {
                    if c.y == y {
                        assert(rc.has(c));
                    } else {
                        assert(!rc.has(c));
                        assert(in_cube(ci, c));
                    }
                }
                assert forall|c: Pos| #[trigger] r.has(c) && c.y < y + 1 implies freshly_generated(
                    self.chunks@[chunk_slot(c)]->0.voxels@,
                ) by {
                    if c.y == y {
                        assert(rc.has(c));
                    } else {
                        assert(!rc.has(c));
                        assert(in_cube(ci, c));
                    }
                }
                assert forall|c: Pos|
                    in_cube(ci, c) && !(#[trigger] r.has(c) && c.y < y + 1) implies self.chunks@[chunk_slot(
                    c,
                )] == old(self).chunks@[chunk_slot(c)] by {
                    assert(!rc.has(c));
                }
                assert forall|k: int| 0 <= k < evicted@.len() implies old(self).chunks@[chunk_slot(
                    (#[trigger] evicted@[k]).coords,
                )] == Some(evicted@[k]) && slot_in_region(r, chunk_slot(evicted@[k].coords)) by {
                    if k < pre_ev.len() {
                        assert(evicted@[k] == pre_ev[k]);
                    } else {
                        let ch = col_ev[k - pre_ev.len()];
                        assert(evicted@[k] == ch);
                        assert(pre.chunks@[chunk_slot(ch.coords)] == Some(ch));
                        assert(slot_in_region(rc, chunk_slot(ch.coords)));
                        let cw = choose|c: Pos| rc.has(c) && chunk_slot(c) == chunk_slot(ch.coords);
                        assert(r.has(cw) && chunk_slot(cw) == chunk_slot(ch.coords));
                        assert(in_cube(ci, cw));
                        assert(!(r.has(cw) && cw.y < y));
                        assert(old(self).chunks@[chunk_slot(ch.coords)] == pre.chunks@[chunk_slot(
                            ch.coords,
                        )]);
                    }
                }
                assert forall|c: Pos|
                    #[trigger] r.has(c) && c.y < y + 1 && old(self).chunks@[chunk_slot(c)] is Some
                        implies evicted@.contains(old(self).chunks@[chunk_slot(c)]->0) by {
                    let v = old(self).chunks@[chunk_slot(c)]->0;
                    if c.y == y {
                        assert(rc.has(c));
                        assert(in_cube(ci, c));
                        assert(!(r.has(c) && c.y < y));
                        assert(pre.chunks@[chunk_slot(c)] == old(self).chunks@[chunk_slot(c)]);
                        assert(col_ev.contains(pre.chunks@[chunk_slot(c)]->0));
                        let k = choose|k: int| 0 <= k < col_ev.len() && col_ev[k] == v;
                        assert(evicted@[pre_ev.len() + k] == v);
                    } else {
                        assert(pre_ev.contains(v));
                        let k = choose|k: int| 0 <= k < pre_ev.len() && pre_ev[k] == v;
                        assert(evicted@[k] == v);
                    }
                    assert(evicted@.contains(v));
                }
            }
            y = y + 1;
        }
        evicted
    }

    /// Load fresh chunks into every position of a region that lies within
    /// one visible cube, handing back the chunks evicted from reused slots.
    fn load_box(&mut self, r: Region, Ghost(ci): Ghost<Pos>) -> (evicted: Vec<Chunk>)
        requires
            old(self).wf(),
            r.within_cube(ci),
            -COORD_LIMIT <= ci.x <= COORD_LIMIT,
            -COORD_LIMIT <= ci.y <= COORD_LIMIT,
            -COORD_LIMIT <= ci.z <= COORD_LIMIT,
        ensures
            final(self).wf(),
            final(self).coord_index == old(self).coord_index,
            forall|c: Pos|
                #[trigger] r.has(c) ==> final(self).chunks@[chunk_slot(c)] is Some
                    && final(self).chunks@[chunk_slot(c)]->0.coords == c,
            forall|c: Pos|
                #[trigger] r.has(c) ==> freshly_generated(
                    final(self).chunks@[chunk_slot(c)]->0.voxels@,
                ),
            forall|c: Pos|
                in_cube(ci, c) && !(#[trigger] r.has(c)) ==> final(self).chunks@[chunk_slot(c)]
                    == old(self).chunks@[chunk_slot(c)],
            forall|k: int|
                0 <= k < evicted@.len() ==> old(self).chunks@[chunk_slot(
                    (#[trigger] evicted@[k]).coords,
                )] == Some(evicted@[k]),
            forall|k: int|
                0 <= k < evicted@.len() ==> slot_in_region(
                    r,
                    chunk_slot((#[trigger] evicted@[k]).coords),
                ),
            forall|c: Pos|
                #[trigger] r.has(c) && old(self).chunks@[chunk_slot(c)] is Some ==> evicted@.contains(
                    old(self).chunks@[chunk_slot(c)]->0,
                ),
    {
        let mut x = r.x0;
        let mut evicted: Vec<Chunk> = Vec::new();
        while x < r.x1
            invariant
                self.wf(),
                self.coord_index == old(self).coord_index,
                r.within_cube(ci),
                r.x0 <= x <= r.x1,
                -COORD_LIMIT <= ci.x <= COORD_LIMIT,
                -COORD_LIMIT <= ci.y <= COORD_LIMIT,
                -COORD_LIMIT <= ci.z <= COORD_LIMIT,
                forall|c: Pos|
                    #[trigger] r.has(c) && c.x < x ==> self.chunks@[chunk_slot(c)] is Some
                        && self.chunks@[chunk_slot(c)]->0.coords == c,
                forall|c: Pos|
                    #[trigger] r.has(c) && c.x < x ==> freshly_generated(
                        self.chunks@[chunk_slot(c)]->0.voxels@,
                    ),
                forall|c: Pos|
                    in_cube(ci, c) && !(#[trigger] r.has(c) && c.x < x) ==> self.chunks@[chunk_slot(
                        c,
                    )] == old(self).chunks@[chunk_slot(c)],
                forall|k: int|
                    0 <= k < evicted@.len() ==> old(self).chunks@[chunk_slot(
                        (#[trigger] evicted@[k]).coords,
                    )] == Some(evicted@[k]),
                forall|k: int|
                    0 <= k < evicted@.len() ==> slot_in_region(
                        r,
                        chunk_slot((#[trigger] evicted@[k]).coords),
                    ),
                forall|c: Pos|
                    #[trigger] r.has(c) && c.x < x && old(self).chunks@[chunk_slot(c)] is Some
                        ==> evicted@.contains(old(self).chunks@[chunk_slot(c)]->0),
            decreases r.x1 - x,
        {
            let rc = Region { x0: x, x1: x + 1, y0: r.y0, y1: r.y1, z0: r.z0, z1: r.z1 };
            let ghost pre = *self;
            let ghost pre_ev = evicted@;
            let mut slab = self.load_slab(rc, Ghost(ci));
            let ghost slab_ev = slab@;
            evicted.append(&mut slab);
            proof {
                assert forall|c: Pos| #[trigger] r.has(c) && c.x < x + 1 implies self.chunks@[chunk_slot(
                    c,
                )] is Some && self.chunks@[chunk_slot(c)]->0.coords == c by {
                    if c.x == x {
                        assert(rc.has(c));
                    } else {
                        assert(!rc.has(c));
                        assert(in_cube(ci, c));
                    }
                }
                assert forall|c: Pos| #[trigger] r.has(c) && c.x < x + 1 implies freshly_generated(
                    self.chunks@[chunk_slot(c)]->0.voxels@,
                ) by {
                    if c.x == x {
                        assert(rc.has(c));
                    } else {
                        assert(!rc.has(c));
                        assert(in_cube(ci, c));
                    }
                }
                assert forall|c: Pos|
                    in_cube(ci, c) && !(#[trigger] r.has(c) && c.x < x + 1) implies self.chunks@[chunk_slot(
                    c,
                )] == old(self).chunks@[chunk_slot(c)] by {
                    assert(!rc.has(c));
                }
                assert forall|k: int| 0 <= k < evicted@.len() implies old(self).chunks@[chunk_slot(
                    (#[trigger] evicted@[k]).coords,
                )] == Some(evicted@[k]) && slot_in_region(r, chunk_slot(evicted@[k].coords)) by {
                    if k < pre_ev.len() {
                        assert(evicted@[k] == pre_ev[k]);
                    } else {
                        let ch = slab_ev[k - pre_ev.len()];
                        assert(evicted@[k] == ch);
                        assert(pre.chunks@[chunk_slot(ch.coords)] == Some(ch));
                        assert(slot_in_region(rc, chunk_slot(ch.coords)));
                        let cw = choose|c: Pos| rc.has(c) && chunk_slot(c) == chunk_slot(ch.coords);
                        assert(r.has(cw) && chunk_slot(cw) == chunk_slot(ch.coords));
                        assert(in_cube(ci, cw));
                        assert(!(r.has(cw) && cw.x < x));
                        assert(old(self).chunks@[chunk_slot(ch.coords)] == pre.chunks@[chunk_slot(
                            ch.coords,
                        )]);
                    }
                }
                assert forall|c: Pos|
                    #[trigger] r.has(c) && c.x < x + 1 && old(self).chunks@[chunk_slot(c)] is Some
                        implies evicted@.contains(old(self).chunks@[chunk_slot(c)]->0) by {
                    let v = old(self).chunks@[chunk_slot(c)]->0;
                    if c.x == x {
                        assert(rc.has(c));
                        assert(in_cube(ci, c));
                        assert(!(r.has(c) && c.x < x));
                        assert(pre.chunks@[chunk_slot(c)] == old(self).chunks@[chunk_slot(c)]);
                        assert(slab_ev.contains(pre.chunks@[chunk_slot(c)]->0));
                        let k = choose|k: int| 0 <= k < slab_ev.len() && slab_ev[k] == v;
                        assert(evicted@[pre_ev.len() + k] == v);
                    } else {
                        assert(pre_ev.contains(v));
                        let k = choose|k: int| 0 <= k < pre_ev.len() && pre_ev[k] == v;
                        assert(evicted@[k] == v);
                    }
                    assert(evicted@.contains(v));
                }
            }
            x = x + 1;
        }
        evicted
    }

    /// Fill the whole visible cube around the current viewer index with
    /// placeholder-generated chunks; whatever the slots held is dropped.
    pub fn random_gen(&mut self)
        requires
            old(self).wf(),
        ensures
            final(self).wf(),
            final(self).coord_index == old(self).coord_index,
            final(self).fully_loaded(),
            forall|c: Pos|
                #[trigger] in_cube(final(self).coord_index, c) ==> freshly_generated(
                    final(self).chunks@[chunk_slot(c)]->0.voxels@,
                ),
    {
        let ci = self.coord_index;
        let r = Region {
            x0: ci.x - 1,
            x1: ci.x + 1,
            y0: ci.y - 1,
            y1: ci.y + 1,
            z0: ci.z - 1,
            z1: ci.z + 1,
        };
        let _dropped = self.load_box(r, Ghost(ci));
        proof {
            assert forall|c: Pos| #[trigger] in_cube(self.coord_index, c) implies self.chunks@[chunk_slot(
                c,
            )] is Some && self.chunks@[chunk_slot(c)]->0.coords == c && freshly_generated(
                self.chunks@[chunk_slot(c)]->0.voxels@,
            ) by {
                assert(r.has(c));
            }
        }
    }

    /// Re-center the streamed window on the viewer's position. When the
    /// viewer's chunk-space index is unchanged this is a no-op; when it
    /// jumped by at least the render distance on some axis the whole grid is
    /// reloaded afresh; otherwise only the slices of the visible cube that
    /// the viewer entered are loaded, evicting the chunks of the slices it
    /// left. The evicted chunks are handed back for persistence or eviction
    /// hooks outside the core.
    pub fn update_chunks_in_area(&mut self, pos: Pos) -> (unloaded: Vec<Chunk>)
        requires
            old(self).wf(),
        ensures
            final(self).wf(),
            final(self).coord_index == chunk_coords_of(pos),
            chunk_coords_of(pos) == old(self).coord_index ==> *final(self) == *old(self)
                && unloaded@.len() == 0,
            old(self).fully_loaded() ==> final(self).fully_loaded(),
            forall|c: Pos|
                #[trigger] in_cube(old(self).coord_index, c) && in_cube(chunk_coords_of(pos), c)
                    ==> final(self).chunks@[chunk_slot(c)] == old(self).chunks@[chunk_slot(c)],
            old(self).fully_loaded() ==> forall|k: int|
                0 <= k < unloaded@.len() ==> in_cube(
                    old(self).coord_index,
                    (#[trigger] unloaded@[k]).coords,
                ) && !in_cube(chunk_coords_of(pos), unloaded@[k].coords) && old(
                    self,
                ).chunks@[chunk_slot(unloaded@[k].coords)] == Some(unloaded@[k]),
            old(self).fully_loaded() ==> forall|c: Pos|
                #[trigger] in_cube(old(self).coord_index, c) && !in_cube(chunk_coords_of(pos), c)
                    ==> unloaded@.contains(old(self).chunks@[chunk_slot(c)]->0),
            forall|c: Pos|
                #[trigger] in_cube(chunk_coords_of(pos), c) && !in_cube(old(self).coord_index, c)
                    ==> final(self).chunks@[chunk_slot(c)] is Some
                    && final(self).chunks@[chunk_slot(c)]->0.coords == c,
            forall|c: Pos|
                #[trigger] in_cube(chunk_coords_of(pos), c) && !in_cube(old(self).coord_index, c)
                    ==> freshly_generated(final(self).chunks@[chunk_slot(c)]->0.voxels@),
            far_jump(old(self).coord_index, chunk_coords_of(pos)) ==> final(self).fully_loaded(),
            far_jump(old(self).coord_index, chunk_coords_of(pos)) ==> forall|i: int|
                0 <= i < RENDER_VOLUME && old(self).chunks@[i] is Some ==> unloaded@.contains(
                    old(self).chunks@[i]->0,
                ),
    {
        proof {
            vstd::arithmetic::div_mod::lemma_div_is_ordered(
                i32::MIN as int,
                pos.x as int,
                CHUNK_SIZE as int,
            );
            vstd::arithmetic::div_mod::lemma_div_is_ordered(
                pos.x as int,
                i32::MAX as int,
                CHUNK_SIZE as int,
            );
            vstd::arithmetic::div_mod::lemma_div_is_ordered(
                i32::MIN as int,
                pos.y as int,
                CHUNK_SIZE as int,
            );
            vstd::arithmetic::div_mod::lemma_div_is_ordered(
                pos.y as int,
                i32::MAX as int,
                CHUNK_SIZE as int,
            );
            vstd::arithmetic::div_mod::lemma_div_is_ordered(
                i32::MIN as int,
                pos.z as int,
                CHUNK_SIZE as int,
            );
            vstd::arithmetic::div_mod::lemma_div_is_ordered(
                pos.z as int,
                i32::MAX as int,
                CHUNK_SIZE as int,
            );
        }
        let index = Pos::new(floor_div(pos.x, 8), floor_div(pos.y, 8), floor_div(pos.z, 8));
        proof {
            assert(index == chunk_coords_of(pos));
        }
        if index == self.coord_index {
            return Vec::new();
        }
        let ghost s0 = *self;
        let ghost oci = self.coord_index;
        let ox = index.x - self.coord_index.x;
        let oy = index.y - self.coord_index.y;
        let oz = index.z - self.coord_index.z;
        if ox <= -2 || ox >= 2 || oy <= -2 || oy >= 2 || oz <= -2 || oz >= 2 {
            // Full-grid fallback: the viewer outran the visible cube, so the
            // old and new cubes share nothing.
            let r = Region {
                x0: index.x - 1,
                x1: index.x + 1,
                y0: index.y - 1,
                y1: index.y + 1,
                z0: index.z - 1,
                z1: index.z + 1,
            };
            let unloaded = self.load_box(r, Ghost(index));
            self.coord_index = index;
            proof {
                assert(far_jump(oci, index));
                assert forall|c: Pos| !(in_cube(oci, c) && in_cube(index, c)) by {}
                assert forall|c: Pos| #[trigger] in_cube(index, c) implies self.chunks@[chunk_slot(
                    c,
                )] is Some && self.chunks@[chunk_slot(c)]->0.coords == c by {
                    assert(r.has(c));
                }
                assert forall|c: Pos| #[trigger] in_cube(index, c) implies freshly_generated(
                    self.chunks@[chunk_slot(c)]->0.voxels@,
                ) by {
                    assert(r.has(c));
                }
                assert forall|i: int|
                    0 <= i < RENDER_VOLUME && s0.chunks@[i] is Some implies unloaded@.contains(
                    s0.chunks@[i]->0,
                ) by {
                    let cn = cube_coord_for_slot(index, i);
                    assert(r.has(cn));
                    assert(chunk_slot(cn) == i);
                }
                if s0.fully_loaded() {
                    assert forall|k: int| 0 <= k < unloaded@.len() implies in_cube(
                        oci,
                        (#[trigger] unloaded@[k]).coords,
                    ) && !in_cube(index, unloaded@[k].coords) && s0.chunks@[chunk_slot(
                        unloaded@[k].coords,
                    )] == Some(unloaded@[k]) by {
                        let ch = unloaded@[k];
                        lemma_slot_decompose(ch.coords);
                        let co = cube_coord_for_slot(oci, chunk_slot(ch.coords));
                        assert(s0.chunks@[chunk_slot(co)]->0.coords == co);
                        assert(ch.coords == co);
                    }
                    assert forall|c: Pos|
                        #[trigger] in_cube(oci, c) && !in_cube(index, c) implies unloaded@.contains(
                        s0.chunks@[chunk_slot(c)]->0,
                    ) by {
                        lemma_slot_decompose(c);
                        let cn = cube_coord_for_slot(index, chunk_slot(c));
                        assert(r.has(cn));
                        assert(s0.chunks@[chunk_slot(cn)] is Some);
                    }
                }
            }
            return unloaded;
        }
        // Incremental update: one slice per axis, computed against the new
        // cube's minimal corner; each slice is as thick as the offset on its
        // axis, and later axes skip the slices already reloaded.
        let cnx = index.x - 1;
        let cny = index.y - 1;
        let cnz = index.z - 1;
        let (ex0, ex1) = if ox >= 0 {
            (cnx + 2 - ox, cnx + 2)
        } else {
            (cnx, cnx - ox)
        };
        let (rx0, rx1) = if ox >= 0 {
            (cnx, cnx + 2 - ox)
        } else {
            (cnx - ox, cnx + 2)
        };
        let (ey0, ey1) = if oy >= 0 {
            (cny + 2 - oy, cny + 2)
        } else {
            (cny, cny - oy)
        };
        let (ry0, ry1) = if oy >= 0 {
            (cny, cny + 2 - oy)
        } else {
            (cny - oy, cny + 2)
        };
        let (ez0, ez1) = if oz >= 0 {
            (cnz + 2 - oz, cnz + 2)
        } else {
            (cnz, cnz - oz)
        };
        let b1 = Region { x0: ex0, x1: ex1, y0: cny, y1: cny + 2, z0: cnz, z1: cnz + 2 };
        let b2 = Region { x0: rx0, x1: rx1, y0: ey0, y1: ey1, z0: cnz, z1: cnz + 2 };
        let b3 = Region { x0: rx0, x1: rx1, y0: ry0, y1: ry1, z0: ez0, z1: ez1 };
        let mut unloaded = self.load_box(b1, Ghost(index));
        let ghost e1 = unloaded@;
        let ghost s1 = *self;
        let mut ev2 = self.load_box(b2, Ghost(index));
        let ghost e2 = ev2@;
        let ghost s2 = *self;
        unloaded.append(&mut ev2);
        let mut ev3 = self.load_box(b3, Ghost(index));
        let ghost e3 = ev3@;
        let ghost s3 = *self;
        unloaded.append(&mut ev3);
        self.coord_index = index;
        proof {
            assert(unloaded@ == e1 + e2 + e3);
            // Slices never reach back into the old cube, and they are
            // pairwise disjoint.
            assert forall|c: Pos| #[trigger] b1.has(c) implies !in_cube(oci, c) && !b2.has(c)
                && !b3.has(c) by {}
            assert forall|c: Pos| #[trigger] b2.has(c) implies !in_cube(oci, c) && !b3.has(c) by {}
            assert forall|c: Pos| #[trigger] b3.has(c) implies !in_cube(oci, c) by {}
            // Together the slices cover exactly the entered part of the cube.
            assert forall|c: Pos|
                in_cube(index, c) && !in_cube(oci, c) implies b1.has(c) || b2.has(c) || b3.has(
                c,
            ) by {}
            // Preservation of the chunks the viewer kept in sight.
            assert forall|c: Pos|
                #[trigger] in_cube(oci, c) && in_cube(index, c) implies self.chunks@[chunk_slot(c)]
                    == s0.chunks@[chunk_slot(c)] by {
                assert(!b1.has(c) && !b2.has(c) && !b3.has(c));
            }
            assert(!far_jump(oci, index));
            // The slices the viewer entered are loaded afresh.
            assert forall|c: Pos|
                #[trigger] in_cube(index, c) && !in_cube(oci, c) implies self.chunks@[chunk_slot(
                c,
            )] is Some && self.chunks@[chunk_slot(c)]->0.coords == c && freshly_generated(
                self.chunks@[chunk_slot(c)]->0.voxels@,
            ) by {
                assert(b1.has(c) || b2.has(c) || b3.has(c));
            }
            if s0.fully_loaded() {
                assert forall|c: Pos| #[trigger] in_cube(index, c) implies self.chunks@[chunk_slot(
                    c,
                )] is Some && self.chunks@[chunk_slot(c)]->0.coords == c by {
                    if b1.has(c) || b2.has(c) || b3.has(c) {
                    } else {
                        assert(in_cube(oci, c));
                    }
                }
                assert forall|k: int| 0 <= k < unloaded@.len() implies in_cube(
                    oci,
                    (#[trigger] unloaded@[k]).coords,
                ) && !in_cube(index, unloaded@[k].coords) && s0.chunks@[chunk_slot(
                    unloaded@[k].coords,
                )] == Some(unloaded@[k]) by {
                    let ch = unloaded@[k];
                    lemma_slot_decompose(ch.coords);
                    if k < e1.len() {
                        assert(ch == e1[k]);
                        let cw = choose|c: Pos| b1.has(c) && chunk_slot(c) == chunk_slot(ch.coords);
                        assert(s0.chunks@[chunk_slot(ch.coords)] == Some(ch));
                        let co = cube_coord_for_slot(oci, chunk_slot(ch.coords));
                        assert(s0.chunks@[chunk_slot(co)]->0.coords == co);
                        assert(ch.coords == co);
                        if in_cube(index, ch.coords) {
                            lemma_cube_slot_injective(index, ch.coords, cw);
                        }
                    } else if k < e1.len() + e2.len() {
                        assert(ch == e2[k - e1.len()]);
                        let cw = choose|c: Pos| b2.has(c) && chunk_slot(c) == chunk_slot(ch.coords);
                        assert(in_cube(index, cw));
                        assert(!b1.has(cw));
                        assert(s1.chunks@[chunk_slot(cw)] == s0.chunks@[chunk_slot(cw)]);
                        assert(s0.chunks@[chunk_slot(ch.coords)] == Some(ch));
                        let co = cube_coord_for_slot(oci, chunk_slot(ch.coords));
                        assert(s0.chunks@[chunk_slot(co)]->0.coords == co);
                        assert(ch.coords == co);
                        if in_cube(index, ch.coords) {
                            lemma_cube_slot_injective(index, ch.coords, cw);
                        }
                    } else {
                        assert(ch == e3[k - e1.len() - e2.len()]);
                        let cw = choose|c: Pos| b3.has(c) && chunk_slot(c) == chunk_slot(ch.coords);
                        assert(in_cube(index, cw));
                        assert(!b1.has(cw) && !b2.has(cw));
                        assert(s1.chunks@[chunk_slot(cw)] == s0.chunks@[chunk_slot(cw)]);
                        assert(s2.chunks@[chunk_slot(cw)] == s1.chunks@[chunk_slot(cw)]);
                        assert(s0.chunks@[chunk_slot(ch.coords)] == Some(ch));
                        let co = cube_coord_for_slot(oci, chunk_slot(ch.coords));
                        assert(s0.chunks@[chunk_slot(co)]->0.coords == co);
                        assert(ch.coords == co);
                        if in_cube(index, ch.coords) {
                            lemma_cube_slot_injective(index, ch.coords, cw);
                        }
                    }
                }
                assert forall|c: Pos|
                    #[trigger] in_cube(oci, c) && !in_cube(index, c) implies unloaded@.contains(
                    s0.chunks@[chunk_slot(c)]->0,
                ) by {
                    let v = s0.chunks@[chunk_slot(c)]->0;
                    lemma_slot_decompose(c);
                    let cn = cube_coord_for_slot(index, chunk_slot(c));
                    if in_cube(oci, cn) {
                        lemma_cube_slot_injective(oci, cn, c);
                    }
                    assert(!in_cube(oci, cn));
                    assert(b1.has(cn) || b2.has(cn) || b3.has(cn));
                    assert(s0.chunks@[chunk_slot(cn)] == s0.chunks@[chunk_slot(c)]);
                    if b1.has(cn) {
                        assert(e1.contains(v));
                        let j = choose|j: int| 0 <= j < e1.len() && e1[j] == v;
                        assert(unloaded@[j] == v);
                    } else if b2.has(cn) {
                        assert(s1.chunks@[chunk_slot(cn)] == s0.chunks@[chunk_slot(cn)]);
                        assert(e2.contains(v));
                        let j = choose|j: int| 0 <= j < e2.len() && e2[j] == v;
                        assert(unloaded@[e1.len() + j] == v);
                    } else {
                        assert(s1.chunks@[chunk_slot(cn)] == s0.chunks@[chunk_slot(cn)]);
                        assert(s2.chunks@[chunk_slot(cn)] == s1.chunks@[chunk_slot(cn)]);
                        assert(e3.contains(v));
                        let j = choose|j: int| 0 <= j < e3.len() && e3[j] == v;
                        assert(unloaded@[e1.len() + e2.len() + j] == v);
                    }
                    assert(unloaded@.contains(v));
                }
            }
        }
        unloaded
    }
}

/// Every ring-buffer slot serves exactly one position of each visible cube;
/// this produces the position of the cube of `ci` that slot `s` serves.
pub proof fn cube_coord_for_slot(ci: Pos, s: int) -> (c: Pos)
    requires
        0 <= s < RENDER_VOLUME,
        -COORD_LIMIT <= ci.x <= COORD_LIMIT,
        -COORD_LIMIT <= ci.y <= COORD_LIMIT,
        -COORD_LIMIT <= ci.z <= COORD_LIMIT,
    ensures
        in_cube(ci, c),
        chunk_slot(c) == s,
{
    let bx = s % 2;
    let by = (s / 2) % 2;
    let bz = s / 4;
    lemma_mod_division_less_than_divisor(s, 2);
    lemma_mod_division_less_than_divisor(s / 2, 2);
    vstd::arithmetic::div_mod::lemma_div_is_ordered(s, 7, 4);
    vstd::arithmetic::div_mod::lemma_div_pos_is_pos(s, 4);
    lemma_fundamental_div_mod(s, 2);
    lemma_fundamental_div_mod(s / 2, 2);
    vstd::arithmetic::div_mod::lemma_div_denominator(s, 2, 2);
    lemma_parity_differs(ci.x - 1);
    lemma_parity_differs(ci.y - 1);
    lemma_parity_differs(ci.z - 1);
    lemma_mod_division_less_than_divisor(ci.x - 1, 2);
    lemma_mod_division_less_than_divisor(ci.y - 1, 2);
    lemma_mod_division_less_than_divisor(ci.z - 1, 2);
    lemma_mod_division_less_than_divisor(ci.x as int, 2);
    lemma_mod_division_less_than_divisor(ci.y as int, 2);
    lemma_mod_division_less_than_divisor(ci.z as int, 2);
    let cx: int = if (ci.x - 1) % 2 == bx {
        ci.x - 1
    } else {
        ci.x as int
    };
    let cy: int = if (ci.y - 1) % 2 == by {
        ci.y - 1
    } else {
        ci.y as int
    };
    let cz: int = if (ci.z - 1) % 2 == bz {
        ci.z - 1
    } else {
        ci.z as int
    };
    let c = Pos { x: cx as i32, y: cy as i32, z: cz as i32 };
    assert(c.x as int % 2 == bx);
    assert(c.y as int % 2 == by);
    assert(c.z as int % 2 == bz);
    c
}

/// A freshly generated world: an empty grid centered on the origin, filled
/// by the placeholder chunk generator.
pub fn generate_world() -> (w: World)
    ensures
        w.wf(),
        w.fully_loaded(),
        w.coord_index == (Pos { x: 0, y: 0, z: 0 }),
        forall|c: Pos|
            #[trigger] in_cube(w.coord_index, c) ==> freshly_generated(
                w.chunks@[chunk_slot(c)]->0.voxels@,
            ),
{
    let mut world = World::new();
    world.random_gen();
    world
}

/// The voxel lookup that `World::voxel_at` implements: the owning chunk is
/// the position floor-divided by the chunk edge, and the voxel within it is
/// the position wrapped to chunk-local space.
pub open spec fn spec_voxel_at(w: World, pos: Pos) -> Option<MaterialID> {
    let slot = chunk_slot(chunk_coords_of(pos));
    if w.chunks@[slot] is Some {
        Some(w.chunks@[slot]->0.voxels@[voxel_index(pos)])
    } else {
        None
    }
}

} // verus!
