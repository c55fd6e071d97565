use vstd::prelude::*;
use crate::linalg::{abs_i64, abs_val, fix_floor, l1_norm, Fix3, Pos, FIX_ONE};
use crate::palette::{material_color, spec_weight_mix, Color, Material, Materials};
use crate::world::{spec_voxel_at, World};

verus! {

/// How far a ray marches before giving up, in fixed-point units: the edge of
/// the visible cube, `RENDER_DISTANCE * CHUNK_SIZE` voxels. Manhattan
/// distance stands in for Euclidean travel along the march: a deliberate,
/// cheap approximation that under-bounds true travel on diagonals.
pub const MARCH_LIMIT: i64 = 16 * 65536;

/// The origin and direction limits under which a trace with the given
/// bounce budget stays within safe fixed-point range: the direction is
/// nonzero and at most sixteen voxels per step, and the origin leaves room
/// for every continuation ray the budget allows.
pub open spec fn trace_inputs_ok(o: Fix3, d: Fix3, bounces: u8) -> bool {
    &&& 1 <= l1_norm(d)
    &&& abs_val(d.x as int) <= 16 * FIX_ONE
    &&& abs_val(d.y as int) <= 16 * FIX_ONE
    &&& abs_val(d.z as int) <= 16 * FIX_ONE
    &&& abs_val(o.x as int) + (bounces as int + 1) * (MARCH_LIMIT + 16 * FIX_ONE)
        <= 0x4000_0000_0000
    &&& abs_val(o.y as int) + (bounces as int + 1) * (MARCH_LIMIT + 16 * FIX_ONE)
        <= 0x4000_0000_0000
    &&& abs_val(o.z as int) + (bounces as int + 1) * (MARCH_LIMIT + 16 * FIX_ONE)
        <= 0x4000_0000_0000
}

/// The fixed-point position reached after `k` whole steps of the march.
pub open spec fn march_fix(o: Fix3, d: Fix3, k: nat) -> Fix3 {
    Fix3 {
        x: (o.x + k * d.x) as i64,
        y: (o.y + k * d.y) as i64,
        z: (o.z + k * d.z) as i64,
    }
}

/// The voxel grid position sampled after `k` whole steps of the march.
pub open spec fn march_pos(o: Fix3, d: Fix3, k: nat) -> Pos {
    Pos {
        x: ((o.x + k * d.x) / FIX_ONE as int) as i32,
        y: ((o.y + k * d.y) / FIX_ONE as int) as i32,
        z: ((o.z + k * d.z) / FIX_ONE as int) as i32,
    }
}

/// What a trace returns, starting from step `k` of the march: Air once the
/// march leaves the distance bound or streamed space; marching on through
/// fully transparent voxels; a terminal hit on a fully opaque voxel or an
/// exhausted bounce budget; and otherwise the hit color composited over a
/// continuation ray traced from the current position with one less bounce.
pub open spec fn trace_spec(w: World, o: Fix3, d: Fix3, k: nat, bounces: u8) -> Color
    decreases bounces, (if k * l1_norm(d) >= MARCH_LIMIT {
        0int
    } else {
        MARCH_LIMIT - k * l1_norm(d)
    }),
        when l1_norm(d) >= 1
        via trace_spec_decreases
{
    if k * l1_norm(d) >= MARCH_LIMIT {
        material_color(0)
    } else {
        if spec_voxel_at(w, march_pos(o, d, k)) is Some {
            let col = material_color(spec_voxel_at(w, march_pos(o, d, k))->0);
            if col.a == 0 {
                trace_spec(w, o, d, k + 1, bounces)
            } else if col.a == 255 || bounces == 0 {
                col
            } else {
                spec_weight_mix(
                    col,
                    trace_spec(w, march_fix(o, d, k), d, 0, (bounces - 1) as u8),
                )
            }
        } else {
            material_color(0)
        }
    }
}

#[via_fn]
proof fn trace_spec_decreases(w: World, o: Fix3, d: Fix3, k: nat, bounces: u8) {
    assert((k + 1) * l1_norm(d) == k * l1_norm(d) + l1_norm(d)) by (nonlinear_arith);
}

/// A ray with a fixed-point origin and per-step direction. The caller is
/// expected to hand in a direction of unit length; the march takes one
/// direction-length step per sample either way.
pub struct Ray {
    pub origin: Fix3,
    pub direction: Fix3,
}

impl Ray {
    pub fn new(origin: Fix3, direction: Fix3) -> (r: Ray)
        ensures
            r.origin == origin,
            r.direction == direction,
    {
        Ray { origin, direction }
    }

    /// March the ray through the world and composite what it hits.
    pub fn trace(&self, world: &World, bounces_left: u8) -> (c: Color)
        requires
            world.wf(),
            trace_inputs_ok(self.origin, self.direction, bounces_left),
        ensures
            c == trace_spec(*world, self.origin, self.direction, 0, bounces_left),
        decreases bounces_left,
    {
        let o = self.origin;
        let d = self.direction;
        let l1 = abs_i64(d.x) + abs_i64(d.y) + abs_i64(d.z);
        let mut px = o.x;
        let mut py = o.y;
        let mut pz = o.z;
        let mut traveled: i64 = 0;
        let ghost mut k: nat = 0;
        while traveled < MARCH_LIMIT
            invariant
                world.wf(),
                o == self.origin,
                d == self.direction,
                trace_inputs_ok(o, d, bounces_left),
                l1 == l1_norm(d),
                traveled == k * l1_norm(d),
                0 <= traveled <= MARCH_LIMIT + 48 * FIX_ONE,
                px == o.x + k * d.x,
                py == o.y + k * d.y,
                pz == o.z + k * d.z,
                trace_spec(*world, o, d, 0, bounces_left) == trace_spec(
                    *world,
                    o,
                    d,
                    k,
                    bounces_left,
                ),
            decreases MARCH_LIMIT + 48 * FIX_ONE - traveled,
        {
            proof {
                assert(-(k * l1_norm(d)) <= k * (d.x as int) <= k * l1_norm(d))
                    by (nonlinear_arith)
                    requires
                        abs_val(d.x as int) <= l1_norm(d),
                        k >= 0,
                ;
                assert(-(k * l1_norm(d)) <= k * (d.y as int) <= k * l1_norm(d))
                    by (nonlinear_arith)
                    requires
                        abs_val(d.y as int) <= l1_norm(d),
                        k >= 0,
                ;
                assert(-(k * l1_norm(d)) <= k * (d.z as int) <= k * l1_norm(d))
                    by (nonlinear_arith)
                    requires
                        abs_val(d.z as int) <= l1_norm(d),
                        k >= 0,
                ;
            }
            let vx = fix_floor(px);
            let vy = fix_floor(py);
            let vz = fix_floor(pz);
            let sample = Pos::new(vx, vy, vz);
            proof {
                assert(sample == march_pos(o, d, k));
            }
            let voxel = world.voxel_at(sample);
            match voxel {
                None => {
                    // The ray left streamed space.
                    proof {
                        assert(trace_spec(*world, o, d, k, bounces_left) == material_color(0));
                    }
                    return Materials::Air.get_properties().color;
                },
                Some(m) => {
                    let col = Material::from_id(m).color;
                    if col.a != 0 {
                        if col.a == 255 || bounces_left == 0 {
                            proof {
                                assert(trace_spec(*world, o, d, k, bounces_left) == col);
                            }
                            return col;
                        }
                        let cont = Ray::new(Fix3 { x: px, y: py, z: pz }, d);
                        proof {
                            assert(cont.origin == march_fix(o, d, k));
                        }
                        let rec = cont.trace(world, bounces_left - 1);
                        proof {
                            assert(trace_spec(*world, o, d, k, bounces_left) == spec_weight_mix(
                                col,
                                trace_spec(*world, cont.origin, d, 0, (bounces_left - 1) as u8),
                            ));
                        }
                        return col.weight_mix(rec);
                    }
                },
            }
            px = px + d.x;
            py = py + d.y;
            pz = pz + d.z;
            traveled = traveled + l1;
            proof {
                assert((k + 1) * (d.x as int) == k * (d.x as int) + d.x) by (nonlinear_arith);
                assert((k + 1) * (d.y as int) == k * (d.y as int) + d.y) by (nonlinear_arith);
                assert((k + 1) * (d.z as int) == k * (d.z as int) + d.z) by (nonlinear_arith);
                assert((k + 1) * l1_norm(d) == k * l1_norm(d) + l1_norm(d)) by (nonlinear_arith);
                k = k + 1;
            }
        }
        proof {
            assert(trace_spec(*world, o, d, k, bounces_left) == material_color(0));
        }
        Materials::Air.get_properties().color
    }
}

/// Marching through streamed, fully transparent space does not change what a
/// trace returns: the first sample that is not transparent Air decides. With
/// a terminal-hit law this pins the trace down along any ray whose early
/// samples are all transparent.
pub proof fn lemma_trace_march(w: World, o: Fix3, d: Fix3, k: nat, bounces: u8)
    requires
        l1_norm(d) >= 1,
        k * l1_norm(d) < MARCH_LIMIT + l1_norm(d),
        forall|j: nat|
            j < k ==> #[trigger] spec_voxel_at(w, march_pos(o, d, j)) is Some && material_color(
                spec_voxel_at(w, march_pos(o, d, j))->0,
            ).a == 0,
    ensures
        trace_spec(w, o, d, 0, bounces) == trace_spec(w, o, d, k, bounces),
    decreases k,
{
    if k > 0 {
        assert((k - 1) * l1_norm(d) == k * l1_norm(d) - l1_norm(d)) by (nonlinear_arith);
        lemma_trace_march(w, o, d, (k - 1) as nat, bounces);
        assert(trace_spec(w, o, d, (k - 1) as nat, bounces) == trace_spec(w, o, d, k, bounces));
    }
}

/// The first sample that is not transparent decides the trace: when it is a
/// fully opaque voxel, the whole trace returns exactly that voxel's palette
/// color, whatever the bounce budget.
pub proof fn lemma_trace_first_opaque_hit(w: World, o: Fix3, d: Fix3, k: nat, bounces: u8, m: u8)
    requires
        l1_norm(d) >= 1,
        k * l1_norm(d) < MARCH_LIMIT,
        forall|j: nat|
            j < k ==> #[trigger] spec_voxel_at(w, march_pos(o, d, j)) is Some && material_color(
                spec_voxel_at(w, march_pos(o, d, j))->0,
            ).a == 0,
        spec_voxel_at(w, march_pos(o, d, k)) == Some(m),
        material_color(m).a == 255,
    ensures
        trace_spec(w, o, d, 0, bounces) == material_color(m),
{
    lemma_trace_march(w, o, d, k, bounces);
}

/// A ray that meets only transparent voxels until its distance bound runs
/// out returns Air's color; `k` is the first step at or past the bound.
pub proof fn lemma_trace_transparent_miss(w: World, o: Fix3, d: Fix3, k: nat, bounces: u8)
    requires
        l1_norm(d) >= 1,
        k * l1_norm(d) >= MARCH_LIMIT,
        k * l1_norm(d) < MARCH_LIMIT + l1_norm(d),
        forall|j: nat|
            j < k ==> #[trigger] spec_voxel_at(w, march_pos(o, d, j)) is Some && material_color(
                spec_voxel_at(w, march_pos(o, d, j))->0,
            ).a == 0,
    ensures
        trace_spec(w, o, d, 0, bounces) == material_color(0),
{
    lemma_trace_march(w, o, d, k, bounces);
}

/// Out of streamed space the march stops at once: a sample in a slot with no
/// chunk returns Air's color, whatever the bounce budget.
pub proof fn lemma_trace_unstreamed(w: World, o: Fix3, d: Fix3, k: nat, bounces: u8)
    requires
        l1_norm(d) >= 1,
        k * l1_norm(d) < MARCH_LIMIT,
        spec_voxel_at(w, march_pos(o, d, k)) is None,
    ensures
        trace_spec(w, o, d, k, bounces) == material_color(0),
{
}

/// A fully opaque voxel under the current sample is a terminal hit: the
/// trace returns exactly that voxel's palette color, whatever the bounce
/// budget.
pub proof fn lemma_trace_opaque_hit(w: World, o: Fix3, d: Fix3, k: nat, bounces: u8, m: u8)
    requires
        l1_norm(d) >= 1,
        k * l1_norm(d) < MARCH_LIMIT,
        spec_voxel_at(w, march_pos(o, d, k)) == Some(m),
        material_color(m).a == 255,
    ensures
        trace_spec(w, o, d, k, bounces) == material_color(m),
{
}

/// With no bounces left, a translucent voxel under the current sample is
/// returned unmixed: no recursive blend is attempted.
pub proof fn lemma_trace_translucent_unmixed(w: World, o: Fix3, d: Fix3, k: nat, m: u8)
    requires
        l1_norm(d) >= 1,
        k * l1_norm(d) < MARCH_LIMIT,
        spec_voxel_at(w, march_pos(o, d, k)) == Some(m),
        0 < material_color(m).a < 255,
    ensures
        trace_spec(w, o, d, k, 0) == material_color(m),
{
}

} // verus!
