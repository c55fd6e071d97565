use voxelray::chunk::{Chunk, CHUNK_SIZE};
use voxelray::linalg::Pos;
use voxelray::palette::Materials;

#[test]
fn new_chunk_is_all_air() {
    let chunk = Chunk::new(Pos::new(0, 0, 0));
    for x in 0..CHUNK_SIZE as i32 {
        for y in 0..CHUNK_SIZE as i32 {
            for z in 0..CHUNK_SIZE as i32 {
                assert_eq!(chunk.get_voxel(Pos::new(x, y, z)), 0);
            }
        }
    }
}

#[test]
fn set_then_get_roundtrip() {
    let mut chunk = Chunk::new(Pos::new(0, 0, 0));
    chunk.set_voxel(Pos::new(3, 4, 5), Materials::Dirt.id());
    assert_eq!(chunk.get_voxel(Pos::new(3, 4, 5)), Materials::Dirt.id());
    assert_eq!(chunk.get_voxel(Pos::new(3, 4, 6)), 0);
}

#[test]
fn coordinates_wrap_per_axis() {
    let mut chunk = Chunk::new(Pos::new(0, 0, 0));
    chunk.set_voxel(Pos::new(1, 2, 3), Materials::Stone.id());
    // Shifting any axis by whole chunk edges addresses the same voxel,
    // negative coordinates included.
    assert_eq!(chunk.get_voxel(Pos::new(1 + 8, 2, 3)), Materials::Stone.id());
    assert_eq!(chunk.get_voxel(Pos::new(1, 2 - 16, 3)), Materials::Stone.id());
    assert_eq!(chunk.get_voxel(Pos::new(1, 2, 3 + 24)), Materials::Stone.id());
    assert_eq!(chunk.get_voxel(Pos::new(1 - 8, 2 + 8, 3 - 8)), Materials::Stone.id());
}

#[test]
fn wrapped_set_overwrites_the_same_voxel() {
    let mut chunk = Chunk::new(Pos::new(0, 0, 0));
    chunk.set_voxel(Pos::new(-7, 9, 0), Materials::Wood.id());
    assert_eq!(chunk.get_voxel(Pos::new(1, 1, 0)), Materials::Wood.id());
}

#[test]
fn random_gen_only_marks_stone() {
    let mut chunk = Chunk::new(Pos::new(0, 0, 0));
    chunk.random_gen();
    let mut stone_count = 0;
    for x in 0..CHUNK_SIZE as i32 {
        for y in 0..CHUNK_SIZE as i32 {
            for z in 0..CHUNK_SIZE as i32 {
                let m = chunk.get_voxel(Pos::new(x, y, z));
                assert!(m == 0 || m == Materials::Stone.id());
                if m == Materials::Stone.id() {
                    stone_count += 1;
                }
            }
        }
    }
    assert!(1 <= stone_count && stone_count <= CHUNK_SIZE);
}
