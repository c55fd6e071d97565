use vstd::prelude::*;
use crate::linalg::{floor_rem, Pos};
use crate::palette::{MaterialID, Materials};
use crate::rng::rand_below;

verus! {

/// Voxels per chunk edge. It must be a power of two: local addressing
/// reduces each coordinate modulo this edge, which then coincides with
/// masking by one less.
pub const CHUNK_SIZE: usize = 8;

/// Voxels per chunk.
pub const CHUNK_VOLUME: usize = 8 * 8 * 8;

/// The slot of a chunk's voxel array that an arbitrary grid coordinate wraps
/// to: each axis is reduced modulo the chunk edge, so every integer
/// coordinate addresses some local voxel.
pub open spec fn voxel_index(c: Pos) -> int {
    ((c.z as int % (CHUNK_SIZE as int)) * (CHUNK_SIZE as int) + (c.y as int % (CHUNK_SIZE as int)))
        * (CHUNK_SIZE as int) + (c.x as int % (CHUNK_SIZE as int))
}

/// Every coordinate wraps into the voxel array.
pub proof fn lemma_voxel_index_in_range(c: Pos)
    ensures
        0 <= voxel_index(c) < CHUNK_VOLUME,
{
}

/// Wrapping is periodic: moving a coordinate by whole chunk edges along any
/// combination of axes addresses the same local voxel.
pub proof fn lemma_voxel_index_periodic(c: Pos, d: Pos, kx: int, ky: int, kz: int)
    requires
        d.x == c.x + (CHUNK_SIZE as int) * kx,
        d.y == c.y + (CHUNK_SIZE as int) * ky,
        d.z == c.z + (CHUNK_SIZE as int) * kz,
    ensures
        voxel_index(d) == voxel_index(c),
{
    vstd::arithmetic::div_mod::lemma_mod_multiples_vanish(kx, c.x as int, CHUNK_SIZE as int);
    vstd::arithmetic::div_mod::lemma_mod_multiples_vanish(ky, c.y as int, CHUNK_SIZE as int);
    vstd::arithmetic::div_mod::lemma_mod_multiples_vanish(kz, c.z as int, CHUNK_SIZE as int);
}

/// Writing a material and reading it back through any coordinate that wraps
/// to the same voxel yields exactly the written material.
pub proof fn lemma_voxel_roundtrip(voxels: Seq<MaterialID>, c: Pos, m: MaterialID)
    requires
        voxels.len() == CHUNK_VOLUME,
    ensures
        voxels.update(voxel_index(c), m)[voxel_index(c)] == m,
{
}

/// An all-Air voxel table: the contents of a fresh chunk.
pub open spec fn all_air() -> Seq<MaterialID> {
    Seq::new(CHUNK_VOLUME as nat, |i: int| 0u8)
}

/// The voxel table `voxels` is `base` overwritten with the placeholder
/// generator's marks: `ps` lists the positions drawn, one per draw; each is
/// in range and holds Stone afterwards, and every position outside the list
/// keeps its base value.
pub open spec fn stone_marks(ps: Seq<int>, base: Seq<MaterialID>, voxels: Seq<MaterialID>) -> bool {
    &&& ps.len() == CHUNK_SIZE
    &&& forall|j: int|
        0 <= j < ps.len() ==> 0 <= #[trigger] ps[j] < CHUNK_VOLUME && voxels[ps[j]]
            == Materials::Stone.spec_id()
    &&& forall|i: int|
        0 <= i < CHUNK_VOLUME && !ps.contains(i) ==> #[trigger] voxels[i] == base[i]
}

/// Some sequence of drawn positions explains `voxels` as `base` plus the
/// generator's marks: at most one Stone voxel per draw, nothing else changed.
pub open spec fn stone_marked(base: Seq<MaterialID>, voxels: Seq<MaterialID>) -> bool {
    exists|ps: Seq<int>| stone_marks(ps, base, voxels)
}

/// Freshly generated contents: the generator's Stone marks over an all-Air
/// base.
pub open spec fn freshly_generated(voxels: Seq<MaterialID>) -> bool {
    stone_marked(all_air(), voxels)
}

/// Freshly generated contents hold nothing but Air and Stone.
pub proof fn lemma_freshly_generated_voxels(voxels: Seq<MaterialID>, i: int)
    requires
        freshly_generated(voxels),
        0 <= i < CHUNK_VOLUME,
    ensures
        voxels[i] == 0 || voxels[i] == Materials::Stone.spec_id(),
{
    let ps = choose|ps: Seq<int>| stone_marks(ps, all_air(), voxels);
    if ps.contains(i) {
        let k = choose|k: int| 0 <= k < ps.len() && ps[k] == i;
        assert(voxels[ps[k]] == Materials::Stone.spec_id());
    } else {
        assert(voxels[i] == all_air()[i]);
        assert(all_air()[i] == 0);
    }
}

/// A fixed-size cubic block of voxels, the unit of loading and unloading,
/// together with its chunk-space coordinates.
#[derive(Clone, Debug)]
pub struct Chunk {
    pub coords: Pos,
    pub voxels: Vec<MaterialID>,
}

impl Chunk {
    /// A chunk is well formed when it holds exactly one material per voxel
    /// of its cubic volume.
    pub open spec fn wf(self) -> bool {
        self.voxels@.len() == CHUNK_VOLUME
    }

    /// A fresh, fully transparent chunk at the given chunk-space coordinates.
    pub fn new(coords: Pos) -> (c: Chunk)
        ensures
            c.wf(),
            c.coords == coords,
            forall|i: int| 0 <= i < CHUNK_VOLUME ==> c.voxels@[i] == 0,
    {
        let mut voxels: Vec<MaterialID> = Vec::new();
        let mut i: usize = 0;
        while i < CHUNK_VOLUME
            invariant
                i <= CHUNK_VOLUME,
                voxels@.len() == i,
                forall|j: int| 0 <= j < i ==> voxels@[j] == 0,
            decreases CHUNK_VOLUME - i,
        {
            voxels.push(0);
            i = i + 1;
        }
        Chunk { coords, voxels }
    }

    /// The material stored at the local voxel the coordinate wraps to.
    pub fn get_voxel(&self, coords: Pos) -> (m: MaterialID)
        requires
            self.wf(),
        ensures
            m == self.voxels@[voxel_index(coords)],
    {
        let index = Chunk::get_voxel_index(coords);
        self.voxels[index]
    }

    /// Overwrite the local voxel the coordinate wraps to.
    pub fn set_voxel(&mut self, coords: Pos, material: MaterialID)
        requires
            old(self).wf(),
        ensures
            final(self).wf(),
            final(self).coords == old(self).coords,
            final(self).voxels@ == old(self).voxels@.update(voxel_index(coords), material),
    {
        let index = Chunk::get_voxel_index(coords);
        self.voxels[index] = material;
    }

    /// Placeholder content generation: mark one random voxel Stone per draw,
    /// one draw per chunk edge. Whatever the draws were, some sequence of
    /// that many in-range positions holds Stone afterwards and every other
    /// voxel is unchanged.
    pub fn random_gen(&mut self)
        requires
            old(self).wf(),
        ensures
            final(self).wf(),
            final(self).coords == old(self).coords,
            forall|i: int|
                0 <= i < CHUNK_VOLUME ==> final(self).voxels@[i] == old(self).voxels@[i]
                    || final(self).voxels@[i] == Materials::Stone.spec_id(),
            stone_marked(old(self).voxels@, final(self).voxels@),
    {
        let stone: MaterialID = Materials::Stone.id();
        let ghost mut ps: Seq<int> = Seq::empty();
        let mut n: usize = 0;
        while n < CHUNK_SIZE
            invariant
                self.wf(),
                self.coords == old(self).coords,
                stone == Materials::Stone.spec_id(),
                n <= CHUNK_SIZE,
                ps.len() == n,
                forall|i: int|
                    0 <= i < CHUNK_VOLUME ==> self.voxels@[i] == old(self).voxels@[i]
                        || self.voxels@[i] == Materials::Stone.spec_id(),
                forall|j: int|
                    0 <= j < ps.len() ==> 0 <= #[trigger] ps[j] < CHUNK_VOLUME && self.voxels@[ps[j]]
                        == Materials::Stone.spec_id(),
                forall|i: int|
                    0 <= i < CHUNK_VOLUME && !ps.contains(i) ==> #[trigger] self.voxels@[i] == old(
                        self,
                    ).voxels@[i],
            decreases CHUNK_SIZE - n,
        {
            let x = rand_below(CHUNK_SIZE);
            let y = rand_below(CHUNK_SIZE);
            let z = rand_below(CHUNK_SIZE);
            let index = (z * CHUNK_SIZE + y) * CHUNK_SIZE + x;
            self.voxels[index] = stone;
            proof {
                let prev = ps;
                ps = ps.push(index as int);
                assert(ps[prev.len() as int] == index as int);
                assert forall|i: int| 0 <= i < CHUNK_VOLUME && !ps.contains(i) implies self.voxels@[i]
                    == old(self).voxels@[i] by {
                    if prev.contains(i) {
                        let k = choose|k: int| 0 <= k < prev.len() && prev[k] == i;
                        assert(ps[k] == i);
                        assert(ps.contains(i));
                    }
                    assert(i != index as int);
                }
            }
            n = n + 1;
        }
        proof {
            assert(stone_marks(ps, old(self).voxels@, self.voxels@));
        }
    }

    /// The array slot of the local voxel an arbitrary coordinate wraps to.
    fn get_voxel_index(coords: Pos) -> (index: usize)
        ensures
            index == voxel_index(coords),
    {
        let x = floor_rem(coords.x, 8) as usize;
        let y = floor_rem(coords.y, 8) as usize;
        let z = floor_rem(coords.z, 8) as usize;
        (z * CHUNK_SIZE + y) * CHUNK_SIZE + x
    }
}

} // verus!
