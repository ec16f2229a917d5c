use astatine::blocks::Blocks;
use astatine::position::ChunkPos;
use astatine::position::GlobalTilePos;
use astatine::storage::WorldStorage;

#[test]
fn bounded_world_starts_as_air() {
    let world = WorldStorage::from_chunk_dimensions(2, 3);
    assert!(world.is_bounded());
    assert_eq!(world.width_in_chunks(), 2);
    assert_eq!(world.height_in_chunks(), 3);
    assert_eq!(world.get_width(), 128);
    assert_eq!(world.get_height(), 192);
    assert_eq!(world.get_spawn_point(), GlobalTilePos::new(0, 0));
    assert_eq!(world.get_tile(0, 0), Some(Blocks::Air));
    assert_eq!(world.get_tile(127, 191), Some(Blocks::Air));
    assert_eq!(world.get_tile(128, 0), None);
    assert_eq!(world.get_tile(0, 192), None);
    assert_eq!(world.get_tile(-1, 0), None);
    for y in 0..3 {
        for x in 0..2 {
            assert!(world.get_chunk(ChunkPos::new(x, y)).is_some());
        }
    }
    assert!(world.get_chunk(ChunkPos::new(2, 0)).is_none());
    assert!(world.get_chunk(ChunkPos::new(0, -1)).is_none());
}

#[test]
fn empty_bounded_world_holds_nothing() {
    let mut world = WorldStorage::from_chunk_dimensions(0, 0);
    assert_eq!(world.get_width(), 0);
    assert!(!world.in_bounds(0, 0));
    assert_eq!(world.get_tile(0, 0), None);
    assert!(!world.set_tile(0, 0, Blocks::Stone));
    assert_eq!(world.get_tile(0, 0), None);
}

#[test]
fn bounded_in_bounds_follows_the_chunk_rectangle() {
    let world = WorldStorage::from_chunk_dimensions(2, 2);
    assert!(world.in_bounds(0, 0));
    assert!(world.in_bounds(127, 127));
    assert!(!world.in_bounds(128, 0));
    assert!(!world.in_bounds(0, 128));
    assert!(!world.in_bounds(-1, 0));
    assert!(!world.in_bounds(0, -1));
    assert!(world.chunk_in_bounds(ChunkPos::new(1, 1)));
    assert!(!world.chunk_in_bounds(ChunkPos::new(2, 1)));
    assert!(!world.chunk_in_bounds(ChunkPos::new(-1, 0)));
}

#[test]
fn set_tile_then_get_tile() {
    let mut world = WorldStorage::from_chunk_dimensions(2, 2);
    let all = [Blocks::Air, Blocks::Grass, Blocks::Dirt, Blocks::Stone, Blocks::Border];
    for (i, tile) in all.iter().enumerate() {
        let x = 60 + i as i32 * 3;
        let y = 127 - i as i32;
        assert!(world.set_tile(x, y, *tile));
        assert_eq!(world.get_tile(x, y), Some(*tile));
    }
    assert_eq!(world.get_tile(60, 127), Some(Blocks::Air));
    assert_eq!(world.get_tile(63, 126), Some(Blocks::Grass));
    assert_eq!(world.get_tile(66, 125), Some(Blocks::Dirt));
    assert_eq!(world.get_tile(69, 124), Some(Blocks::Stone));
    assert_eq!(world.get_tile(72, 123), Some(Blocks::Border));
    assert_eq!(world.get_tile(61, 127), Some(Blocks::Air));
}

#[test]
fn set_tile_crosses_chunk_boundaries() {
    let mut world = WorldStorage::from_chunk_dimensions(2, 2);
    assert!(world.set_tile(63, 63, Blocks::Stone));
    assert!(world.set_tile(64, 63, Blocks::Dirt));
    assert!(world.set_tile(63, 64, Blocks::Grass));
    assert!(world.set_tile(64, 64, Blocks::Border));
    let first = world.get_chunk(ChunkPos::new(0, 0)).unwrap().codes();
    let right = world.get_chunk(ChunkPos::new(1, 0)).unwrap().codes();
    let above = world.get_chunk(ChunkPos::new(0, 1)).unwrap().codes();
    let far = world.get_chunk(ChunkPos::new(1, 1)).unwrap().codes();
    assert_eq!(first[63 + 64 * 63], 3);
    assert_eq!(right[0 + 64 * 63], 2);
    assert_eq!(above[63 + 64 * 0], 1);
    assert_eq!(far[0], 4);
    assert_eq!(first.iter().filter(|&&c| c != 0).count(), 1);
    assert_eq!(far.iter().filter(|&&c| c != 0).count(), 1);
}

#[test]
fn bounded_write_outside_is_reported_and_ignored() {
    let mut world = WorldStorage::from_chunk_dimensions(1, 1);
    assert!(!world.set_tile(64, 0, Blocks::Stone));
    assert!(!world.set_tile(-1, -1, Blocks::Stone));
    assert_eq!(world.get_tile(64, 0), None);
    assert_eq!(world.get_tile(-1, -1), None);
    assert!(world.get_chunk(ChunkPos::new(1, 0)).is_none());
    assert!(world.get_chunk(ChunkPos::new(-1, -1)).is_none());
    assert!(world.get_chunk(ChunkPos::new(0, 0)).unwrap().codes().iter().all(|&c| c == 0));
}

#[test]
fn sparse_world_creates_chunks_on_write() {
    let mut world = WorldStorage::sparse();
    assert!(!world.is_bounded());
    assert_eq!(world.get_width(), 0);
    assert_eq!(world.get_height(), 0);
    assert!(!world.in_bounds(-1, -1));
    assert_eq!(world.get_tile(-1, -1), None);
    assert!(world.set_tile(-1, -1, Blocks::Stone));
    assert!(world.in_bounds(-1, -1));
    assert!(world.in_bounds(-64, -64));
    assert!(!world.in_bounds(0, 0));
    assert_eq!(world.get_tile(-1, -1), Some(Blocks::Stone));
    assert_eq!(world.get_tile(-2, -1), Some(Blocks::Air));
    assert_eq!(world.get_tile(0, 0), None);
    let codes = world.get_chunk(ChunkPos::new(-1, -1)).unwrap().codes();
    assert_eq!(codes[63 + 64 * 63], 3);
    assert_eq!(codes.iter().filter(|&&c| c != 0).count(), 1);
}

#[test]
fn sparse_world_reaches_the_far_corners() {
    let mut world = WorldStorage::sparse();
    assert!(world.set_tile(i32::MAX, i32::MIN, Blocks::Border));
    assert_eq!(world.get_tile(i32::MAX, i32::MIN), Some(Blocks::Border));
    assert!(world.get_chunk(ChunkPos::new(33554431, -33554432)).is_some());
    assert_eq!(world.get_tile(i32::MIN, i32::MAX), None);
}

#[test]
fn spawn_point_defaults_to_origin_and_can_be_set() {
    let mut world = WorldStorage::from_chunk_dimensions(1, 1);
    assert_eq!(world.get_spawn_point(), GlobalTilePos::new(0, 0));
    world.set_spawn_point(12, 34);
    assert_eq!(world.get_spawn_point(), GlobalTilePos::new(12, 34));
    assert_eq!(world.get_tile(12, 34), Some(Blocks::Air));
    assert_eq!(world.get_width(), 64);
}

#[test]
fn linear_indices_run_row_by_row() {
    let mut world = WorldStorage::from_dimensions(128, 64);
    assert_eq!(world.linearize(0, 0), 0);
    assert_eq!(world.linearize(3, 2), 259);
    assert_eq!(world.linearize(5, 2), 5 + 128 * 2);
    assert_eq!(world.delinearize(259), (3, 2));
    assert_eq!(world.delinearize(5 + 128 * 2), (5, 2));
    assert_eq!(world.delinearize(127), (127, 0));
    assert_eq!(world.delinearize(128), (0, 1));
    world.set_tile_idx(5 + 128 * 2, Blocks::Stone);
    assert_eq!(world.get_tile_idx(5 + 128 * 2), Blocks::Stone);
    assert_eq!(world.get_tile_idx(6 + 128 * 2), Blocks::Air);
    assert_eq!(world.get_tile(5, 2), Some(Blocks::Stone));
    assert_eq!(world.get_tile_usize(5, 2), Some(Blocks::Stone));
    world.set_tile_idx(128 * 64 - 1, Blocks::Grass);
    assert_eq!(world.get_tile_idx(128 * 64 - 1), Blocks::Grass);
    assert_eq!(world.get_tile(127, 63), Some(Blocks::Grass));
    for idx in [0usize, 127, 128, 259, 128 * 64 - 1] {
        let (x, y) = world.delinearize(idx);
        assert_eq!(world.linearize(x, y), idx);
    }
}

#[test]
fn dimensions_are_given_and_read_back_in_tiles() {
    let world = WorldStorage::from_dimensions(128, 64);
    assert!(world.is_bounded());
    assert_eq!(world.get_width(), 128);
    assert_eq!(world.get_height(), 64);
    assert_eq!(world.width_in_chunks(), 2);
    assert_eq!(world.height_in_chunks(), 1);
    assert_eq!(world.get_spawn_point(), GlobalTilePos::new(0, 0));
    for idx in 0..128 * 64 {
        assert_eq!(world.get_tile_idx(idx), Blocks::Air);
        assert_eq!(world.get_wall_idx(idx), 0);
    }
    assert_eq!(world.get_tile(127, 63), Some(Blocks::Air));
    assert_eq!(world.get_tile(128, 0), None);
    assert_eq!(world.get_tile(0, 64), None);
    let empty = WorldStorage::from_dimensions(0, 0);
    assert_eq!(empty.get_width(), 0);
    assert_eq!(empty.get_height(), 0);
    assert_eq!(empty.get_tile(0, 0), None);
    let large = WorldStorage::from_dimensions(1024, 256);
    assert_eq!(large.get_width(), 1024);
    assert_eq!(large.get_height(), 256);
    assert_eq!(large.width_in_chunks(), 16);
    assert_eq!(large.height_in_chunks(), 4);
}

#[test]
fn in_bounds_of_a_world_given_in_tiles() {
    let world = WorldStorage::from_dimensions(128, 128);
    assert!(world.in_bounds(0, 0));
    assert!(world.in_bounds(127, 127));
    assert!(!world.in_bounds(128, 0));
    assert!(!world.in_bounds(0, 128));
    assert!(!world.in_bounds(-1, 0));
    assert!(!world.in_bounds(0, -1));
}

#[test]
fn chunk_and_tile_constructors_agree() {
    let by_tiles = WorldStorage::from_dimensions(192, 64);
    let by_chunks = WorldStorage::from_chunk_dimensions(3, 1);
    assert_eq!(by_tiles.get_width(), by_chunks.get_width());
    assert_eq!(by_tiles.get_height(), by_chunks.get_height());
    assert_eq!(by_tiles.width_in_chunks(), 3);
    assert_eq!(by_chunks.get_width(), 192);
    assert!(by_tiles.get_chunk(ChunkPos::new(2, 0)).is_some());
    assert!(by_tiles.get_chunk(ChunkPos::new(3, 0)).is_none());
}

#[test]
fn usize_accessors_agree_with_signed_ones() {
    let mut world = WorldStorage::from_chunk_dimensions(1, 1);
    assert!(world.set_tile_usize(3, 4, Blocks::Grass));
    assert_eq!(world.get_tile(3, 4), Some(Blocks::Grass));
    assert_eq!(world.get_tile_usize(3, 4), Some(Blocks::Grass));
    assert!(!world.set_tile_usize(64, 0, Blocks::Grass));
    assert_eq!(world.get_tile_usize(64, 0), None);
    assert_eq!(world.get_tile_usize(usize::MAX, 0), None);
    assert!(!world.set_tile_usize(0, usize::MAX, Blocks::Grass));
    world.place(7, 8, Blocks::Border);
    assert_eq!(world.get_tile(7, 8), Some(Blocks::Border));
}

#[test]
fn walls_are_a_layer_of_their_own() {
    let mut world = WorldStorage::from_chunk_dimensions(2, 1);
    assert_eq!(world.get_wall(0, 0), Some(0));
    assert_eq!(world.get_wall(127, 63), Some(0));
    assert_eq!(world.get_wall(128, 0), None);
    assert_eq!(world.get_wall(-1, 0), None);
    assert!(world.set_wall(70, 3, 9));
    assert_eq!(world.get_wall(70, 3), Some(9));
    assert_eq!(world.get_wall(71, 3), Some(0));
    assert_eq!(world.get_tile(70, 3), Some(Blocks::Air));
    assert!(world.set_tile(70, 3, Blocks::Stone));
    assert_eq!(world.get_wall(70, 3), Some(9));
    assert_eq!(world.get_tile(70, 3), Some(Blocks::Stone));
    assert!(!world.set_wall(128, 0, 1));
    assert!(!world.set_wall(0, -1, 1));
    assert_eq!(world.get_wall(128, 0), None);
}

#[test]
fn walls_by_linear_index() {
    let mut world = WorldStorage::from_dimensions(128, 64);
    world.set_wall_idx(5 + 128 * 2, 77);
    assert_eq!(world.get_wall_idx(5 + 128 * 2), 77);
    assert_eq!(world.get_wall(5, 2), Some(77));
    assert_eq!(world.get_wall_idx(6 + 128 * 2), 0);
    world.set_wall_idx(128 * 64 - 1, 3);
    assert_eq!(world.get_wall(127, 63), Some(3));
    assert_eq!(world.get_tile(5, 2), Some(Blocks::Air));
    assert_eq!(world.get_tile_idx(5 + 128 * 2), Blocks::Air);
}

#[test]
fn sparse_walls_are_created_on_write() {
    let mut world = WorldStorage::sparse();
    assert_eq!(world.get_wall(-5, 9), None);
    assert!(world.set_wall(-5, 9, 4));
    assert_eq!(world.get_wall(-5, 9), Some(4));
    assert_eq!(world.get_wall(-6, 9), Some(0));
    assert_eq!(world.get_tile(-5, 9), None);
    assert!(!world.in_bounds(-5, 9));
}
