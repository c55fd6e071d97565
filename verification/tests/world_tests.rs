use voxelray::chunk::Chunk;
use voxelray::linalg::Pos;
use voxelray::palette::Materials;
use voxelray::world::{generate_world, World, RENDER_VOLUME};

#[test]
fn empty_world_has_no_voxels() {
    let world = World::new();
    assert_eq!(world.voxel_at(Pos::new(0, 0, 0)), None);
    assert_eq!(world.voxel_at(Pos::new(-5, 100, 7)), None);
}

#[test]
fn loaded_chunk_serves_voxel_lookups() {
    let mut world = World::new();
    let mut chunk = Chunk::new(Pos::new(0, 0, 0));
    chunk.set_voxel(Pos::new(4, 4, 4), Materials::Stone.id());
    assert!(world.load_chunk(chunk).is_none());
    assert_eq!(world.voxel_at(Pos::new(4, 4, 4)), Some(Materials::Stone.id()));
    assert_eq!(world.voxel_at(Pos::new(0, 0, 0)), Some(0));
    // The neighbouring chunk's slot is still vacant.
    assert_eq!(world.voxel_at(Pos::new(12, 4, 4)), None);
}

#[test]
fn load_chunk_hands_back_the_evicted_occupant() {
    let mut world = World::new();
    let mut first = Chunk::new(Pos::new(0, 0, 0));
    first.set_voxel(Pos::new(0, 0, 0), Materials::Dirt.id());
    assert!(world.load_chunk(first).is_none());
    // Chunk coordinate (2, 0, 0) wraps to the same ring-buffer slot.
    let second = Chunk::new(Pos::new(2, 0, 0));
    let evicted = world.load_chunk(second).expect("slot was occupied");
    assert_eq!(evicted.coords, Pos::new(0, 0, 0));
    assert_eq!(evicted.get_voxel(Pos::new(0, 0, 0)), Materials::Dirt.id());
}

#[test]
fn unload_chunk_vacates_the_slot() {
    let mut world = World::new();
    world.load_chunk(Chunk::new(Pos::new(1, 1, 1)));
    let removed = world.unload_chunk(Pos::new(1, 1, 1)).expect("chunk was loaded");
    assert_eq!(removed.coords, Pos::new(1, 1, 1));
    assert!(world.unload_chunk(Pos::new(1, 1, 1)).is_none());
    assert_eq!(world.voxel_at(Pos::new(8, 8, 8)), None);
}

#[test]
fn generated_world_covers_the_visible_cube() {
    let world = generate_world();
    // The visible cube around the origin index spans chunk coordinates
    // -1 and 0 on every axis, i.e. voxel positions -8..8.
    assert!(world.voxel_at(Pos::new(0, 0, 0)).is_some());
    assert!(world.voxel_at(Pos::new(-8, -8, -8)).is_some());
    assert!(world.voxel_at(Pos::new(7, -1, 3)).is_some());
}

#[test]
fn streaming_same_index_twice_is_a_noop() {
    let mut world = generate_world();
    // Still inside chunk index (0, 0, 0): nothing to do.
    let unloaded = world.update_chunks_in_area(Pos::new(3, 2, 1));
    assert_eq!(unloaded.len(), 0);
    // Cross into chunk index (1, 0, 0).
    let first = world.update_chunks_in_area(Pos::new(9, 0, 0));
    assert!(first.len() > 0);
    // A second update from the same chunk index performs no loads or
    // unloads, wherever inside the chunk the viewer stands.
    let second = world.update_chunks_in_area(Pos::new(9, 0, 0));
    assert_eq!(second.len(), 0);
    let third = world.update_chunks_in_area(Pos::new(15, 7, 7));
    assert_eq!(third.len(), 0);
}

#[test]
fn incremental_streaming_keeps_surviving_chunks() {
    let mut world = generate_world();
    // Mark a voxel in chunk (0, 0, 0), which stays visible after a one-chunk
    // step along x.
    let mut marker = Chunk::new(Pos::new(0, 0, 0));
    marker.set_voxel(Pos::new(2, 2, 2), Materials::Dirt.id());
    world.load_chunk(marker);
    let unloaded = world.update_chunks_in_area(Pos::new(9, 2, 2));
    // The slice at chunk x = -1 left the window: four chunks.
    assert_eq!(unloaded.len(), 4);
    for chunk in &unloaded {
        assert_eq!(chunk.coords.x, -1);
    }
    // The surviving chunk kept its contents, and the entered slice is loaded.
    assert_eq!(world.voxel_at(Pos::new(2, 2, 2)), Some(Materials::Dirt.id()));
    assert!(world.voxel_at(Pos::new(8, 0, 0)).is_some());
    assert!(world.voxel_at(Pos::new(15, -8, -8)).is_some());
}

#[test]
fn generated_chunks_hold_only_air_and_stone() {
    let world = generate_world();
    // Every voxel of the visible cube (positions -8..8 per axis) comes from
    // the placeholder generator: Air or Stone, nothing else.
    for x in -8..8 {
        for y in -8..8 {
            for z in -8..8 {
                let m = world.voxel_at(Pos::new(x, y, z)).expect("visible cube is loaded");
                assert!(m == Materials::Air.id() || m == Materials::Stone.id());
            }
        }
    }
}

#[test]
fn entered_slices_come_freshly_generated() {
    let mut world = generate_world();
    // Plant a marker the generator never writes, then walk one chunk along
    // x: the entered slice (chunk x = 1, voxel x in 8..16) must be fresh
    // generator output, not recycled content.
    let mut marker = Chunk::new(Pos::new(0, 0, 0));
    marker.set_voxel(Pos::new(0, 0, 0), Materials::Wood.id());
    world.load_chunk(marker);
    world.update_chunks_in_area(Pos::new(9, 0, 0));
    for x in 8..16 {
        for y in -8..8 {
            for z in -8..8 {
                let m = world.voxel_at(Pos::new(x, y, z)).expect("entered slice is loaded");
                assert!(m == Materials::Air.id() || m == Materials::Stone.id());
            }
        }
    }
}

#[test]
fn far_jump_reloads_the_full_grid() {
    let mut world = generate_world();
    // Two chunks along x in one step: at least the render distance, so the
    // whole grid is shed and reloaded.
    let unloaded = world.update_chunks_in_area(Pos::new(16, 0, 0));
    assert_eq!(unloaded.len(), RENDER_VOLUME);
    for chunk in &unloaded {
        assert!(-1 <= chunk.coords.x && chunk.coords.x <= 0);
        assert!(-1 <= chunk.coords.y && chunk.coords.y <= 0);
        assert!(-1 <= chunk.coords.z && chunk.coords.z <= 0);
    }
    // The new visible cube spans chunk x coordinates 1 and 2.
    assert!(world.voxel_at(Pos::new(8, 0, 0)).is_some());
    assert!(world.voxel_at(Pos::new(23, -8, -8)).is_some());
}
