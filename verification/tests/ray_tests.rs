use voxelray::chunk::Chunk;
use voxelray::linalg::{Fix3, Pos, FIX_ONE};
use voxelray::palette::{Color, Materials};
use voxelray::ray::Ray;
use voxelray::world::World;

/// One fixed-point unit is one voxel edge.
fn fix(units: i64, frac: i64) -> i64 {
    units * FIX_ONE + frac
}

/// A fully streamed world around the origin where every voxel is Air except
/// the single voxel at (0, 0, 0), which is opaque Stone.
fn single_stone_voxel_world() -> World {
    let mut world = World::new();
    for x in -1..=0 {
        for y in -1..=0 {
            for z in -1..=0 {
                world.load_chunk(Chunk::new(Pos::new(x, y, z)));
            }
        }
    }
    let mut stone_chunk = Chunk::new(Pos::new(0, 0, 0));
    stone_chunk.set_voxel(Pos::new(0, 0, 0), Materials::Stone.id());
    world.load_chunk(stone_chunk);
    world
}

fn stone_color() -> Color {
    Materials::Stone.get_properties().color
}

fn air_color() -> Color {
    Materials::Air.get_properties().color
}

#[test]
fn diagonal_ray_hits_the_stone_voxel() {
    let world = single_stone_voxel_world();
    // From (-1, -1, -1) along (1, 1, 1) normalized: 1/sqrt(3) of a voxel per
    // axis per step, in 16.16 fixed point.
    let origin = Fix3 { x: fix(-1, 0), y: fix(-1, 0), z: fix(-1, 0) };
    let direction = Fix3 { x: 37837, y: 37837, z: 37837 };
    let color = Ray::new(origin, direction).trace(&world, 4);
    assert_eq!(color, stone_color());
}

#[test]
fn axis_ray_hits_the_stone_voxel_from_either_side() {
    let world = single_stone_voxel_world();
    let from_below = Ray::new(
        Fix3 { x: fix(-1, -FIX_ONE / 2), y: fix(0, FIX_ONE / 2), z: fix(0, FIX_ONE / 2) },
        Fix3 { x: FIX_ONE, y: 0, z: 0 },
    );
    assert_eq!(from_below.trace(&world, 4), stone_color());
    let from_above = Ray::new(
        Fix3 { x: fix(2, FIX_ONE / 2), y: fix(0, FIX_ONE / 2), z: fix(0, FIX_ONE / 2) },
        Fix3 { x: -FIX_ONE, y: 0, z: 0 },
    );
    assert_eq!(from_above.trace(&world, 4), stone_color());
}

#[test]
fn ray_pointing_away_returns_air() {
    let world = single_stone_voxel_world();
    let origin = Fix3 { x: fix(-1, 0), y: fix(-1, 0), z: fix(-1, 0) };
    let direction = Fix3 { x: -37837, y: -37837, z: -37837 };
    let color = Ray::new(origin, direction).trace(&world, 4);
    assert_eq!(color, air_color());
}

#[test]
fn opaque_hit_ignores_the_bounce_budget() {
    let world = single_stone_voxel_world();
    // Starting inside the stone voxel is a terminal hit at the very first
    // sample, with or without bounces left.
    let origin = Fix3 { x: FIX_ONE / 2, y: FIX_ONE / 2, z: FIX_ONE / 2 };
    let direction = Fix3 { x: FIX_ONE, y: 0, z: 0 };
    assert_eq!(Ray::new(origin, direction).trace(&world, 0), stone_color());
    assert_eq!(Ray::new(origin, direction).trace(&world, 255), stone_color());
}

#[test]
fn unstreamed_space_stops_the_march() {
    let world = World::new();
    let origin = Fix3 { x: 0, y: 0, z: 0 };
    let direction = Fix3 { x: FIX_ONE, y: 0, z: 0 };
    assert_eq!(Ray::new(origin, direction).trace(&world, 4), air_color());
}

#[test]
fn march_exhausts_the_distance_bound_in_all_air() {
    let world = single_stone_voxel_world();
    // Aimed to stay inside streamed, all-Air space until the Manhattan
    // distance bound runs out.
    let origin = Fix3 { x: fix(-8, 0), y: fix(-1, 0), z: fix(-1, 0) };
    let direction = Fix3 { x: 0, y: FIX_ONE, z: 0 };
    assert_eq!(Ray::new(origin, direction).trace(&world, 4), air_color());
}
