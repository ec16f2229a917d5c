use astatine::blocks::Blocks;
use astatine::chunks::camera_pos_to_chunk_pos;
use astatine::chunks::chunk_snapshot;
use astatine::chunks::contains_pos;
use astatine::chunks::desired_chunks;
use astatine::chunks::despawn_all;
use astatine::chunks::despawn_chunks;
use astatine::chunks::dirty_rendered_chunk;
use astatine::chunks::make_coll;
use astatine::chunks::missing_chunks;
use astatine::chunks::reconcile;
use astatine::chunks::spawn_chunks;
use astatine::chunks::stream_around;
use astatine::chunks::despawn_dirty_chunks;
use astatine::chunks::ChunkHandle;
use astatine::chunks::Instruction;
use astatine::chunks::LoadPoint;
use astatine::chunks::RenderedChunks;
use astatine::generation::uni::fill;
use astatine::position::BlockPos;
use astatine::position::ChunkPos;
use astatine::storage::WorldStorage;
use std::collections::HashMap;

fn sorted(mut list: Vec<ChunkPos>) -> Vec<(i32, i32)> {
    list.sort_by_key(|c| (c.x(), c.y()));
    list.iter().map(|c| (c.x(), c.y())).collect()
}

fn sorted_handles(mut list: Vec<ChunkHandle>) -> Vec<(i32, i32, u64)> {
    list.sort_by_key(|e| (e.pos.x(), e.pos.y()));
    list.iter().map(|e| (e.pos.x(), e.pos.y(), e.handle)).collect()
}

/// Stands for the presentation layer: remembers what it was given to show.
struct Screen {
    next: u64,
    shown: HashMap<u64, (ChunkPos, Vec<u32>)>,
    log: Vec<String>,
}

impl Screen {
    fn new() -> Self {
        Screen { next: 100, shown: HashMap::new(), log: Vec::new() }
    }

    fn materialize(&mut self, pos: ChunkPos, codes: Vec<u32>) -> u64 {
        let handle = self.next;
        self.next += 1;
        self.shown.insert(handle, (pos, codes));
        self.log.push(format!("spawn {} {}", pos.x(), pos.y()));
        handle
    }

    fn release(&mut self, handle: u64) {
        let (pos, _) = self.shown.remove(&handle).unwrap();
        self.log.push(format!("despawn {} {}", pos.x(), pos.y()));
    }

    fn apply(&mut self, rendered: &mut RenderedChunks, world: &WorldStorage, desired: &Vec<ChunkPos>) -> (usize, usize) {
        let plan = reconcile(rendered, desired, world);
        for entry in plan.despawn.iter() {
            self.release(entry.handle);
        }
        for pos in plan.spawn.iter() {
            let handle = self.materialize(*pos, chunk_snapshot(world, *pos));
            assert_eq!(rendered.insert(*pos, handle), None);
        }
        (plan.despawn.len(), plan.spawn.len())
    }
}

#[test]
fn load_point_keeps_its_radius() {
    assert_eq!(LoadPoint::new(4).radius(), 4);
    assert_eq!(LoadPoint::new(0).radius(), 0);
}

#[test]
fn camera_chunk_uses_floor_division() {
    assert_eq!(camera_pos_to_chunk_pos(0, 0, 8, 8), ChunkPos::new(0, 0));
    assert_eq!(camera_pos_to_chunk_pos(511, 512, 8, 8), ChunkPos::new(0, 1));
    assert_eq!(camera_pos_to_chunk_pos(-1, -512, 8, 8), ChunkPos::new(-1, -1));
    assert_eq!(camera_pos_to_chunk_pos(-513, 1023, 8, 8), ChunkPos::new(-2, 1));
    assert_eq!(camera_pos_to_chunk_pos(100, 1900, 8, 16), ChunkPos::new(0, 1));
    assert_eq!(camera_pos_to_chunk_pos(i32::MIN, i32::MAX, 1, 1), ChunkPos::new(-33554432, 33554431));
}

#[test]
fn rendered_chunks_table_records_and_forgets() {
    let mut rendered = RenderedChunks::new();
    assert_eq!(rendered.len(), 0);
    assert!(!rendered.contains(&ChunkPos::new(0, 0)));
    assert_eq!(rendered.get(&ChunkPos::new(0, 0)), None);
    assert_eq!(rendered.insert(ChunkPos::new(0, 0), 7), None);
    assert_eq!(rendered.insert(ChunkPos::new(-1, 5), 8), None);
    assert_eq!(rendered.len(), 2);
    assert!(rendered.contains(&ChunkPos::new(-1, 5)));
    assert!(!rendered.contains(&ChunkPos::new(5, -1)));
    assert_eq!(rendered.get(&ChunkPos::new(0, 0)), Some(7));
    assert_eq!(rendered.get(&ChunkPos::new(-1, 5)), Some(8));
    assert_eq!(rendered.insert(ChunkPos::new(0, 0), 9), Some(7));
    assert_eq!(rendered.get(&ChunkPos::new(0, 0)), Some(9));
    assert_eq!(rendered.len(), 2);
    assert_eq!(sorted(rendered.positions()), vec![(-1, 5), (0, 0)]);
    assert_eq!(rendered.remove(&ChunkPos::new(0, 0)), Some(9));
    assert_eq!(rendered.remove(&ChunkPos::new(0, 0)), None);
    assert_eq!(rendered.get(&ChunkPos::new(0, 0)), None);
    assert_eq!(sorted(rendered.positions()), vec![(-1, 5)]);
    assert_eq!(rendered.len(), 1);
}

#[test]
fn contains_pos_finds_only_listed_positions() {
    let list = vec![ChunkPos::new(1, 2), ChunkPos::new(-3, 4)];
    assert!(contains_pos(&list, ChunkPos::new(1, 2)));
    assert!(contains_pos(&list, ChunkPos::new(-3, 4)));
    assert!(!contains_pos(&list, ChunkPos::new(2, 1)));
    assert!(!contains_pos(&Vec::new(), ChunkPos::new(0, 0)));
}

#[test]
fn desired_set_is_window_within_bounds() {
    let world = WorldStorage::from_chunk_dimensions(4, 3);
    let all = desired_chunks(ChunkPos::new(1, 1), &LoadPoint::new(1), &world);
    assert_eq!(
        sorted(all),
        vec![(0, 0), (0, 1), (0, 2), (1, 0), (1, 1), (1, 2), (2, 0), (2, 1), (2, 2)]
    );
    let corner = desired_chunks(ChunkPos::new(3, 2), &LoadPoint::new(1), &world);
    assert_eq!(sorted(corner), vec![(2, 1), (2, 2), (3, 1), (3, 2)]);
    let point = desired_chunks(ChunkPos::new(2, 0), &LoadPoint::new(0), &world);
    assert_eq!(sorted(point), vec![(2, 0)]);
    let outside = desired_chunks(ChunkPos::new(-5, 10), &LoadPoint::new(2), &world);
    assert!(outside.is_empty());
    let whole = desired_chunks(ChunkPos::new(0, 0), &LoadPoint::new(10), &world);
    assert_eq!(whole.len(), 12);
}

#[test]
fn desired_set_at_the_edge_of_the_coordinates() {
    let mut world = WorldStorage::sparse();
    assert!(world.set_tile(i32::MAX, i32::MAX, Blocks::Dirt));
    let near = desired_chunks(ChunkPos::new(i32::MAX, i32::MAX), &LoadPoint::new(1), &world);
    assert!(near.is_empty());
    let at = desired_chunks(ChunkPos::new(33554431, 33554431), &LoadPoint::new(1), &world);
    assert_eq!(sorted(at), vec![(33554431, 33554431)]);
}

#[test]
fn desired_set_of_sparse_world_is_existing_chunks() {
    let mut world = WorldStorage::sparse();
    assert!(world.set_tile(-1, -1, Blocks::Dirt));
    assert!(world.set_tile(70, 0, Blocks::Dirt));
    assert!(world.set_tile(1000, 1000, Blocks::Dirt));
    let desired = desired_chunks(ChunkPos::new(0, 0), &LoadPoint::new(1), &world);
    assert_eq!(sorted(desired), vec![(-1, -1), (1, 0)]);
}

#[test]
fn end_to_end_two_by_two_world() {
    let mut world = WorldStorage::from_chunk_dimensions(2, 2);
    fill(&mut world, Blocks::Dirt);
    let center = camera_pos_to_chunk_pos(0, 0, 8, 8);
    let desired = desired_chunks(center, &LoadPoint::new(1), &world);
    assert_eq!(sorted(desired.clone()), vec![(0, 0), (0, 1), (1, 0), (1, 1)]);
    let mut rendered = RenderedChunks::new();
    let plan = reconcile(&mut rendered, &desired, &world);
    assert!(plan.despawn.is_empty());
    assert_eq!(sorted(plan.spawn), vec![(0, 0), (0, 1), (1, 0), (1, 1)]);
    let codes = chunk_snapshot(&world, ChunkPos::new(1, 1));
    assert_eq!(codes.len(), 4096);
    assert!(codes.iter().all(|&c| c == 2));
}

#[test]
fn reconcile_twice_does_nothing_the_second_time() {
    let world = WorldStorage::from_chunk_dimensions(4, 4);
    let mut rendered = RenderedChunks::new();
    let mut screen = Screen::new();
    let desired = desired_chunks(ChunkPos::new(1, 1), &LoadPoint::new(1), &world);
    assert_eq!(screen.apply(&mut rendered, &world, &desired), (0, 9));
    assert_eq!(rendered.len(), 9);
    let before = screen.log.len();
    assert_eq!(screen.apply(&mut rendered, &world, &desired), (0, 0));
    assert_eq!(screen.log.len(), before);
    assert_eq!(rendered.len(), 9);
    assert_eq!(screen.shown.len(), 9);
}

#[test]
fn shifting_by_one_chunk_swaps_one_column() {
    let world = WorldStorage::from_chunk_dimensions(8, 8);
    let mut rendered = RenderedChunks::new();
    let mut screen = Screen::new();
    let load_point = LoadPoint::new(1);
    let first = desired_chunks(ChunkPos::new(3, 3), &load_point, &world);
    screen.apply(&mut rendered, &world, &first);
    let kept_handle = rendered.get(&ChunkPos::new(3, 3)).unwrap();
    let gone: Vec<(i32, i32, u64)> = (2..=4)
        .map(|y| (2, y, rendered.get(&ChunkPos::new(2, y)).unwrap()))
        .collect();
    let second = desired_chunks(ChunkPos::new(4, 3), &load_point, &world);
    let plan = reconcile(&mut rendered, &second, &world);
    assert_eq!(sorted_handles(plan.despawn), gone);
    assert_eq!(sorted(plan.spawn), vec![(5, 2), (5, 3), (5, 4)]);
    assert_eq!(
        sorted(rendered.positions()),
        vec![(3, 2), (3, 3), (3, 4), (4, 2), (4, 3), (4, 4)]
    );
    assert_eq!(rendered.get(&ChunkPos::new(3, 3)), Some(kept_handle));
}

#[test]
fn despawns_come_before_spawns() {
    let world = WorldStorage::from_chunk_dimensions(8, 8);
    let mut rendered = RenderedChunks::new();
    let mut screen = Screen::new();
    let load_point = LoadPoint::new(0);
    let first = desired_chunks(ChunkPos::new(0, 0), &load_point, &world);
    screen.apply(&mut rendered, &world, &first);
    let second = desired_chunks(ChunkPos::new(1, 0), &load_point, &world);
    screen.apply(&mut rendered, &world, &second);
    assert_eq!(screen.log, vec!["spawn 0 0", "despawn 0 0", "spawn 1 0"]);
}

#[test]
fn despawn_and_spawn_lists_separately() {
    let world = WorldStorage::from_chunk_dimensions(2, 1);
    let mut rendered = RenderedChunks::new();
    rendered.insert(ChunkPos::new(0, 0), 1);
    rendered.insert(ChunkPos::new(9, 9), 2);
    let desired = vec![ChunkPos::new(0, 0), ChunkPos::new(1, 0), ChunkPos::new(1, 0), ChunkPos::new(5, 5)];
    assert_eq!(sorted(spawn_chunks(&rendered, &desired, &world)), vec![(1, 0)]);
    assert_eq!(rendered.len(), 2);
    let released = despawn_chunks(&mut rendered, &desired);
    assert_eq!(sorted_handles(released), vec![(9, 9, 2)]);
    assert_eq!(sorted(rendered.positions()), vec![(0, 0)]);
    assert_eq!(rendered.get(&ChunkPos::new(0, 0)), Some(1));
}

#[test]
fn wanted_chunk_missing_from_world_is_skipped() {
    let mut world = WorldStorage::sparse();
    assert!(world.set_tile(0, 0, Blocks::Dirt));
    let mut rendered = RenderedChunks::new();
    let desired = vec![ChunkPos::new(0, 0), ChunkPos::new(1, 0)];
    let plan = reconcile(&mut rendered, &desired, &world);
    assert!(plan.despawn.is_empty());
    assert_eq!(sorted(plan.spawn), vec![(0, 0)]);
    assert_eq!(sorted(plan.skipped), vec![(1, 0)]);
    assert_eq!(sorted(missing_chunks(&rendered, &desired, &world)), vec![(1, 0)]);
    assert!(world.set_tile(64, 0, Blocks::Dirt));
    rendered.insert(ChunkPos::new(0, 0), 1);
    let again = reconcile(&mut rendered, &desired, &world);
    assert!(again.despawn.is_empty());
    assert_eq!(sorted(again.spawn), vec![(1, 0)]);
    assert!(again.skipped.is_empty());
}

#[test]
fn dirty_chunk_is_respawned_with_latest_tiles() {
    let mut world = WorldStorage::from_chunk_dimensions(2, 2);
    let mut rendered = RenderedChunks::new();
    let mut screen = Screen::new();
    let desired = desired_chunks(ChunkPos::new(0, 0), &LoadPoint::new(1), &world);
    screen.apply(&mut rendered, &world, &desired);
    let old_handle = rendered.get(&ChunkPos::new(1, 0)).unwrap();
    assert_eq!(screen.shown[&old_handle].1[3 + 64 * 5], 0);

    assert!(world.set_tile(67, 5, Blocks::Stone));
    let released = dirty_rendered_chunk(&mut rendered, &ChunkPos::new(1, 0));
    assert_eq!(released, Some(old_handle));
    screen.release(old_handle);
    assert!(!rendered.contains(&ChunkPos::new(1, 0)));
    assert_eq!(rendered.len(), 3);

    assert_eq!(screen.apply(&mut rendered, &world, &desired), (0, 1));
    let new_handle = rendered.get(&ChunkPos::new(1, 0)).unwrap();
    assert_ne!(new_handle, old_handle);
    let (pos, codes) = &screen.shown[&new_handle];
    assert_eq!(*pos, ChunkPos::new(1, 0));
    assert_eq!(codes[3 + 64 * 5], 3);
    assert_eq!(codes.iter().filter(|&&c| c != 0).count(), 1);
    let tail: Vec<&str> = screen.log.iter().rev().take(2).map(|s| s.as_str()).collect();
    assert_eq!(tail, vec!["spawn 1 0", "despawn 1 0"]);
}

#[test]
fn dirtying_a_chunk_that_is_not_shown_does_nothing() {
    let mut rendered = RenderedChunks::new();
    rendered.insert(ChunkPos::new(0, 0), 5);
    assert_eq!(dirty_rendered_chunk(&mut rendered, &ChunkPos::new(1, 1)), None);
    assert_eq!(rendered.len(), 1);
    assert_eq!(rendered.get(&ChunkPos::new(0, 0)), Some(5));
}

#[test]
fn despawn_all_empties_the_table() {
    let mut rendered = RenderedChunks::new();
    rendered.insert(ChunkPos::new(0, 0), 5);
    rendered.insert(ChunkPos::new(-2, 3), 6);
    rendered.insert(ChunkPos::new(4, 4), 7);
    let released = despawn_all(&mut rendered);
    assert_eq!(sorted_handles(released), vec![(-2, 3, 6), (0, 0, 5), (4, 4, 7)]);
    assert_eq!(rendered.len(), 0);
    assert!(rendered.positions().is_empty());
    assert!(despawn_all(&mut rendered).is_empty());
}

#[test]
fn snapshot_of_absent_chunk_is_air() {
    let world = WorldStorage::from_chunk_dimensions(1, 1);
    let codes = chunk_snapshot(&world, ChunkPos::new(3, 3));
    assert_eq!(codes.len(), 4096);
    assert!(codes.iter().all(|&c| c == 0));
}

#[test]
fn collidable_tiles_are_the_solid_tiles_of_a_shown_chunk() {
    let mut world = WorldStorage::from_chunk_dimensions(2, 1);
    assert!(world.set_tile(64, 0, Blocks::Stone));
    assert!(world.set_tile(70, 2, Blocks::Dirt));
    assert!(world.set_tile(1, 1, Blocks::Grass));
    let mut rendered = RenderedChunks::new();
    assert!(make_coll(&rendered, &world, ChunkPos::new(1, 0)).is_empty());
    rendered.insert(ChunkPos::new(1, 0), 1);
    rendered.insert(ChunkPos::new(5, 5), 2);
    assert_eq!(
        make_coll(&rendered, &world, ChunkPos::new(1, 0)),
        vec![BlockPos::new(0, 0), BlockPos::new(6, 2)]
    );
    assert!(make_coll(&rendered, &world, ChunkPos::new(0, 0)).is_empty());
    assert!(make_coll(&rendered, &world, ChunkPos::new(5, 5)).is_empty());
}

#[test]
fn instructions_list_releases_first() {
    let world = WorldStorage::from_chunk_dimensions(3, 1);
    let mut rendered = RenderedChunks::default();
    assert_eq!(rendered.len(), 0);
    rendered.insert(ChunkPos::new(0, 0), 11);
    let desired = vec![ChunkPos::new(1, 0), ChunkPos::new(2, 0)];
    let plan = reconcile(&mut rendered, &desired, &world);
    let list = plan.instructions();
    assert_eq!(list.len(), 3);
    assert_eq!(list[0], Instruction::Despawn(ChunkHandle { pos: ChunkPos::new(0, 0), handle: 11 }));
    assert_eq!(list[1], Instruction::Spawn(plan.spawn[0]));
    assert_eq!(list[2], Instruction::Spawn(plan.spawn[1]));
    assert_eq!(sorted(plan.spawn.clone()), vec![(1, 0), (2, 0)]);
}

#[test]
fn dirty_chunks_are_taken_down_in_one_go() {
    let mut rendered = RenderedChunks::new();
    rendered.insert(ChunkPos::new(0, 0), 1);
    rendered.insert(ChunkPos::new(1, 0), 2);
    rendered.insert(ChunkPos::new(2, 0), 3);
    let dirty = vec![ChunkPos::new(2, 0), ChunkPos::new(7, 7), ChunkPos::new(0, 0), ChunkPos::new(2, 0)];
    let released = despawn_dirty_chunks(&mut rendered, &dirty);
    assert_eq!(sorted_handles(released), vec![(0, 0, 1), (2, 0, 3)]);
    assert_eq!(sorted(rendered.positions()), vec![(1, 0)]);
    assert_eq!(rendered.get(&ChunkPos::new(1, 0)), Some(2));
    assert!(despawn_dirty_chunks(&mut rendered, &Vec::new()).is_empty());
    assert_eq!(rendered.len(), 1);
}

#[test]
fn huge_radius_wants_the_whole_bounded_world() {
    let world = WorldStorage::from_chunk_dimensions(2, 2);
    let desired = desired_chunks(ChunkPos::new(i32::MIN, i32::MAX), &LoadPoint::new(u32::MAX), &world);
    assert_eq!(sorted(desired), vec![(0, 0), (0, 1), (1, 0), (1, 1)]);
    let none = desired_chunks(ChunkPos::new(i32::MIN, 0), &LoadPoint::new(5), &world);
    assert!(none.is_empty());
    let empty = WorldStorage::from_chunk_dimensions(0, 5);
    assert!(desired_chunks(ChunkPos::new(0, 0), &LoadPoint::new(3), &empty).is_empty());
}

#[test]
fn streaming_pass_follows_the_load_point() {
    let world = WorldStorage::from_chunk_dimensions(5, 1);
    let mut rendered = RenderedChunks::new();
    let load_point = LoadPoint::new(1);
    let first = stream_around(&mut rendered, ChunkPos::new(0, 0), &load_point, &world);
    assert!(first.despawn.is_empty());
    assert!(first.skipped.is_empty());
    assert_eq!(sorted(first.spawn.clone()), vec![(0, 0), (1, 0)]);
    for (i, pos) in first.spawn.iter().enumerate() {
        rendered.insert(*pos, i as u64);
    }
    let second = stream_around(&mut rendered, ChunkPos::new(2, 0), &load_point, &world);
    assert_eq!(second.despawn.len(), 1);
    assert_eq!(second.despawn[0].pos, ChunkPos::new(0, 0));
    assert_eq!(sorted(second.spawn), vec![(2, 0), (3, 0)]);
    assert_eq!(sorted(rendered.positions()), vec![(1, 0)]);
}
