//! Chunk streaming: which chunks are shown, and what has to change when the
//! load point moves or a shown chunk is edited.
//!
//! The presentation layer shows a chunk when asked and hands back a handle, and
//! takes a chunk down when given that handle. This module keeps the table of
//! shown chunks and decides; it never draws. One pass of reconciliation takes
//! out of the table what left the wanted set and reports it for release, then
//! lists what is wanted and not shown. The caller releases first, then shows
//! each listed chunk and records its handle with [`RenderedChunks::insert`].

use vstd::prelude::*;
use crate::blocks::Blocks;
use crate::blocks::BLOCK_KINDS;
use crate::position::CHUNK_AREA;
use crate::chunk::spec_filled;
use crate::chunk::spec_tile_at;
use crate::position::BlockPos;
use crate::position::floor_div;
use crate::position::spec_floor_div;
use crate::position::ChunkPos;
use crate::position::CHUNK_SIZE;
use crate::storage::WorldStorage;
use crate::table::table_entries;
use crate::table::table_get;
use crate::table::table_insert;
use crate::table::table_keys;
use crate::table::table_new;
use crate::table::table_remove;
use crate::table::ChunkTable;

verus! {

/// How far around a point chunks are kept shown, in chunks along each axis.
#[derive(Clone, Copy, Debug)]
pub struct LoadPoint {
    radius: u32,
}

impl LoadPoint {
    pub closed spec fn spec_radius(&self) -> u32 {
        self.radius
    }

    pub fn new(radius: u32) -> (point: Self)
        ensures
            point.spec_radius() == radius,
    {
        Self { radius }
    }

    pub fn radius(&self) -> (radius: u32)
        ensures
            radius == self.spec_radius(),
    {
        self.radius
    }
}

/// A shown chunk: its position and the handle that the presentation layer gave for it.
#[derive(Clone, Copy, PartialEq, Eq, Structural, Debug)]
pub struct ChunkHandle {
    pub pos: ChunkPos,
    pub handle: u64,
}

/// The chunks that are shown. Its view maps the position of each shown chunk
/// to its handle.
pub struct RenderedChunks {
    loaded: ChunkTable,
}

impl View for RenderedChunks {
    type V = Map<ChunkPos, u64>;

    closed spec fn view(&self) -> Map<ChunkPos, u64> {
        Map::new(
            |c: ChunkPos| table_entries(self.loaded).contains_key(c.spec_key()),
            |c: ChunkPos| table_entries(self.loaded)[c.spec_key()],
        )
    }
}

/// What one pass of reconciliation asks of the presentation layer: first to
/// release every entry of `despawn`, then to show every chunk of `spawn`. The
/// chunks of `skipped` are wanted but the world does not hold them: nothing is
/// asked for them, and the next pass looks again.
#[derive(Debug)]
pub struct Reconciliation {
    pub despawn: Vec<ChunkHandle>,
    pub spawn: Vec<ChunkPos>,
    pub skipped: Vec<ChunkPos>,
}

/// One thing asked of the presentation layer.
#[derive(Clone, Copy, PartialEq, Eq, Structural, Debug)]
pub enum Instruction {
    /// Release the shown chunk with this handle.
    Despawn(ChunkHandle),
    /// Show the chunk at this position.
    Spawn(ChunkPos),
}

impl Reconciliation {
    /// The instructions of a pass in the order in which they are to be carried
    /// out: every release before every show.
    pub open spec fn spec_instructions(&self) -> Seq<Instruction> {
        Seq::new(
            self.despawn@.len() + self.spawn@.len(),
            |i: int|
                if i < self.despawn@.len() {
                    Instruction::Despawn(self.despawn@[i])
                } else {
                    Instruction::Spawn(self.spawn@[i - self.despawn@.len()])
                },
        )
    }

    /// The instructions of a pass in the order in which they are to be carried
    /// out: the releases, as listed, then the shows, as listed.
    pub fn instructions(&self) -> (list: Vec<Instruction>)
        ensures
            list@ == self.spec_instructions(),
            list@.len() == self.despawn@.len() + self.spawn@.len(),
            forall|i: int|
                0 <= i < self.despawn@.len() ==> #[trigger] list@[i] == Instruction::Despawn(
                    self.despawn@[i],
                ),
            forall|i: int|
                0 <= i < self.spawn@.len() ==> #[trigger] list@[self.despawn@.len() + i]
                    == Instruction::Spawn(self.spawn@[i]),
    {
        let mut list: Vec<Instruction> = Vec::new();
        let mut i: usize = 0;
        while i < self.despawn.len()
            invariant
                i <= self.despawn@.len(),
                list@.len() == i,
                forall|k: int| 0 <= k < i ==> #[trigger] list@[k] == Instruction::Despawn(self.despawn@[k]),
            decreases self.despawn@.len() - i,
        {
            list.push(Instruction::Despawn(self.despawn[i]));
            i += 1;
        }
        let mut j: usize = 0;
        while j < self.spawn.len()
            invariant
                j <= self.spawn@.len(),
                list@.len() == self.despawn@.len() + j,
                forall|k: int|
                    0 <= k < self.despawn@.len() ==> #[trigger] list@[k] == Instruction::Despawn(
                        self.despawn@[k],
                    ),
                forall|k: int|
                    0 <= k < j ==> #[trigger] list@[self.despawn@.len() + k] == Instruction::Spawn(
                        self.spawn@[k],
                    ),
            decreases self.spawn@.len() - j,
        {
            list.push(Instruction::Spawn(self.spawn[j]));
            j += 1;
        }
        assert forall|k: int| 0 <= k < list@.len() implies list@[k] == self.spec_instructions()[k] by {
            if k >= self.despawn@.len() {
                let m = k - self.despawn@.len();
                assert(list@[self.despawn@.len() + m] == Instruction::Spawn(self.spawn@[m]));
            }
        }
        assert(list@ =~= self.spec_instructions());
        list
    }
}

/// The square of chunk positions within `radius` chunks of `center` along each axis.
pub open spec fn spec_window(center: ChunkPos, radius: u32, chunk: ChunkPos) -> bool {
    &&& center.x - radius <= chunk.x <= center.x + radius
    &&& center.y - radius <= chunk.y <= center.y + radius
}

/// The wanted set: the window around `center`, less what lies outside the world.
pub open spec fn spec_desired(center: ChunkPos, radius: u32, world: WorldStorage) -> Set<ChunkPos> {
    Set::new(|c: ChunkPos| spec_window(center, radius, c) && world.spec_chunk_in_bounds(c))
}

/// The shown chunks that stay shown: those in the wanted set.
pub open spec fn spec_kept(active: Map<ChunkPos, u64>, desired: Set<ChunkPos>) -> Map<ChunkPos, u64> {
    active.restrict(desired)
}

/// The shown chunks that are taken down: those outside the wanted set.
pub open spec fn spec_despawned(active: Map<ChunkPos, u64>, desired: Set<ChunkPos>) -> Map<
    ChunkPos,
    u64,
> {
    active.remove_keys(desired)
}

/// The chunks that are newly shown: wanted, not shown, and present in the world.
pub open spec fn spec_spawned(
    active: Map<ChunkPos, u64>,
    desired: Set<ChunkPos>,
    world: Map<ChunkPos, Seq<u32>>,
) -> Set<ChunkPos> {
    Set::new(|c: ChunkPos| desired.contains(c) && !active.contains_key(c) && world.contains_key(c))
}

/// The chunks that a pass skips: wanted, not shown, and absent from the world.
pub open spec fn spec_missing(
    active: Map<ChunkPos, u64>,
    desired: Set<ChunkPos>,
    world: Map<ChunkPos, Seq<u32>>,
) -> Set<ChunkPos> {
    Set::new(|c: ChunkPos| desired.contains(c) && !active.contains_key(c) && !world.contains_key(c))
}

/// Whether `entry` is one of the shown chunks that are taken down.
pub open spec fn spec_is_despawned(
    active: Map<ChunkPos, u64>,
    desired: Set<ChunkPos>,
    entry: ChunkHandle,
) -> bool {
    spec_despawned(active, desired).contains_key(entry.pos) && active[entry.pos] == entry.handle
}

/// Adding an element to a sequence adds it to what the sequence contains, and nothing else.
pub proof fn lemma_push_contains<T>(s: Seq<T>, e: T)
    ensures
        forall|x: T| #[trigger] s.push(e).contains(x) <==> s.contains(x) || x == e,
{
    assert forall|x: T| #[trigger] s.push(e).contains(x) <==> s.contains(x) || x == e by {
        if s.contains(x) {
            let i = choose|i: int| 0 <= i < s.len() && s[i] == x;
            assert(s.push(e)[i] == x);
        }
        if x == e {
            assert(s.push(e)[s.len() as int] == x);
        }
    }
}

/// Adding a new element to a sequence without duplicates leaves it without duplicates.
pub proof fn lemma_push_no_duplicates<T>(s: Seq<T>, e: T)
    requires
        s.no_duplicates(),
        !s.contains(e),
    ensures
        s.push(e).no_duplicates(),
{
}

/// Whether a list of chunk positions holds a given one.
pub fn contains_pos(list: &Vec<ChunkPos>, pos: ChunkPos) -> (found: bool)
    ensures
        found == list@.contains(pos),
{
    let mut i: usize = 0;
    while i < list.len()
        invariant
            i <= list.len(),
            forall|k: int| 0 <= k < i ==> list@[k] != pos,
        decreases list.len() - i,
    {
        if list[i] == pos {
            return true;
        }
        i += 1;
    }
    false
}

impl Default for RenderedChunks {
    /// A table in which no chunk is shown.
    fn default() -> (rendered: Self)
        ensures
            rendered@ == Map::<ChunkPos, u64>::empty(),
    {
        RenderedChunks::new()
    }
}

impl RenderedChunks {
    /// A table in which no chunk is shown.
    pub fn new() -> (rendered: Self)
        ensures
            rendered@ == Map::<ChunkPos, u64>::empty(),
    {
        let rendered = Self { loaded: table_new() };
        assert(rendered@ =~= Map::<ChunkPos, u64>::empty());
        rendered
    }

    /// The handle of a shown chunk, or nothing where the chunk is not shown.
    pub fn get(&self, pos: &ChunkPos) -> (handle: Option<u64>)
        ensures
            self@.contains_key(*pos) ==> handle == Some(self@[*pos]),
            !self@.contains_key(*pos) ==> handle.is_none(),
    {
        table_get(&self.loaded, pos.key())
    }

    /// Whether a chunk is shown.
    pub fn contains(&self, pos: &ChunkPos) -> (shown: bool)
        ensures
            shown == self@.contains_key(*pos),
    {
        table_get(&self.loaded, pos.key()).is_some()
    }

    /// Records that a chunk is now shown under `handle`. Gives back the handle
    /// that was recorded for it before, if any.
    pub fn insert(&mut self, pos: ChunkPos, handle: u64) -> (previous: Option<u64>)
        ensures
            final(self)@ == old(self)@.insert(pos, handle),
            old(self)@.contains_key(pos) ==> previous == Some(old(self)@[pos]),
            !old(self)@.contains_key(pos) ==> previous.is_none(),
    {
        let previous = table_insert(&mut self.loaded, pos.key(), handle);
        assert(self@ =~= old(self)@.insert(pos, handle));
        previous
    }

    /// Takes a chunk out of the table and gives back its handle, if it was shown.
    pub fn remove(&mut self, pos: &ChunkPos) -> (removed: Option<u64>)
        ensures
            final(self)@ == old(self)@.remove(*pos),
            old(self)@.contains_key(*pos) ==> removed == Some(old(self)@[*pos]),
            !old(self)@.contains_key(*pos) ==> removed.is_none(),
    {
        let removed = table_remove(&mut self.loaded, pos.key());
        assert(self@ =~= old(self)@.remove(*pos));
        removed
    }

    /// The positions of the shown chunks, each once, in no particular order.
    pub fn positions(&self) -> (positions: Vec<ChunkPos>)
        ensures
            positions@.no_duplicates(),
            forall|c: ChunkPos| #[trigger] positions@.contains(c) <==> self@.contains_key(c),
    {
        let keys = table_keys(&self.loaded);
        let mut positions: Vec<ChunkPos> = Vec::new();
        let mut i: usize = 0;
        while i < keys.len()
            invariant
                i <= keys.len(),
                keys@.no_duplicates(),
                positions@.len() == i,
                forall|k: int| 0 <= k < i ==> (#[trigger] positions@[k]).spec_key() == keys@[k],
            decreases keys.len() - i,
        {
            positions.push(ChunkPos::from_key(keys[i]));
            i += 1;
        }
        proof {
            assert forall|c: ChunkPos| #[trigger] positions@.contains(c) <==> self@.contains_key(c) by {
                if self@.contains_key(c) {
                    assert(keys@.contains(c.spec_key()));
                    let k = choose|k: int| 0 <= k < keys@.len() && keys@[k] == c.spec_key();
                    assert(positions@[k].spec_key() == c.spec_key());
                    assert(positions@[k] == c);
                }
                if positions@.contains(c) {
                    let k = choose|k: int| 0 <= k < positions@.len() && positions@[k] == c;
                    assert(keys@[k] == c.spec_key());
                    assert(keys@.contains(c.spec_key()));
                }
            }
        }
        positions
    }

    /// The number of shown chunks.
    pub fn len(&self) -> (len: usize)
        ensures
            self@.dom().finite(),
            len == self@.dom().len(),
    {
        let positions = self.positions();
        proof {
            positions@.unique_seq_to_set();
            assert(positions@.to_set() =~= self@.dom());
        }
        positions.len()
    }
}


/// Whether `pos` stands among the first `count` elements of `list`.
pub open spec fn spec_seen(list: Seq<ChunkPos>, count: int, pos: ChunkPos) -> bool {
    exists|j: int| 0 <= j < count && #[trigger] list[j] == pos
}

proof fn lemma_seen_step(list: Seq<ChunkPos>, count: int)
    requires
        0 <= count < list.len(),
    ensures
        forall|c: ChunkPos| #[trigger]
            spec_seen(list, count + 1, c) <==> spec_seen(list, count, c) || list[count] == c,
        list.no_duplicates() ==> !spec_seen(list, count, list[count]),
{
    assert forall|c: ChunkPos| #[trigger]
        spec_seen(list, count + 1, c) <==> spec_seen(list, count, c) || list[count] == c by {
        if spec_seen(list, count, c) {
            let j = choose|j: int| 0 <= j < count && #[trigger] list[j] == c;
            assert(0 <= j < count + 1 && list[j] == c);
        }
        if list[count] == c {
            assert(0 <= count < count + 1 && list[count] == c);
        }
    }
}

proof fn lemma_seen_all(list: Seq<ChunkPos>)
    ensures
        forall|c: ChunkPos| #[trigger] spec_seen(list, list.len() as int, c) <==> list.contains(c),
        forall|c: ChunkPos| !#[trigger] spec_seen(list, 0, c),
{
}

/// The chunk that holds the camera, from the camera's position and the size
/// of a tile, both in pixels: the floor quotient of the position by the size
/// of a chunk in pixels.
pub fn camera_pos_to_chunk_pos(camera_x: i32, camera_y: i32, tile_width: i32, tile_height: i32) -> (pos:
    ChunkPos)
    requires
        0 < tile_width,
        0 < tile_height,
        CHUNK_SIZE * tile_width <= i32::MAX,
        CHUNK_SIZE * tile_height <= i32::MAX,
    ensures
        pos.x == spec_floor_div(camera_x as int, CHUNK_SIZE * tile_width),
        pos.y == spec_floor_div(camera_y as int, CHUNK_SIZE * tile_height),
{
    let chunk_width: i32 = 64 * tile_width;
    let chunk_height: i32 = 64 * tile_height;
    ChunkPos { x: floor_div(camera_x, chunk_width), y: floor_div(camera_y, chunk_height) }
}

/// The wanted set around `center`: every chunk of the world within the load
/// point's radius along each axis, each once.
pub fn desired_chunks(center: ChunkPos, load_point: &LoadPoint, world: &WorldStorage) -> (desired: Vec<
    ChunkPos,
>)
    ensures
        desired@.no_duplicates(),
        desired@.to_set() == spec_desired(center, load_point.spec_radius(), *world),
        forall|c: ChunkPos| #[trigger]
            desired@.contains(c) <==> spec_window(center, load_point.spec_radius(), c)
                && world.spec_chunk_in_bounds(c),
{
    let radius: i64 = load_point.radius() as i64;
    let bounded = world.is_bounded();
    // The window, cut down to where chunks of this world can lie.
    let floor_x: i64 = if bounded { 0 } else { i32::MIN as i64 };
    let floor_y: i64 = floor_x;
    let ceiling_x: i64 = if bounded && (world.width_in_chunks() as i64) <= i32::MAX as i64 {
        world.width_in_chunks() as i64 - 1
    } else {
        i32::MAX as i64
    };
    let ceiling_y: i64 = if bounded && (world.height_in_chunks() as i64) <= i32::MAX as i64 {
        world.height_in_chunks() as i64 - 1
    } else {
        i32::MAX as i64
    };
    let low_x: i64 = if center.x as i64 - radius < floor_x { floor_x } else { center.x as i64 - radius };
    let low_y: i64 = if center.y as i64 - radius < floor_y { floor_y } else { center.y as i64 - radius };
    let high_x: i64 = if center.x as i64 + radius > ceiling_x { ceiling_x } else { center.x as i64 + radius };
    let high_y: i64 = if center.y as i64 + radius > ceiling_y { ceiling_y } else { center.y as i64 + radius };
    let mut desired: Vec<ChunkPos> = Vec::new();
    if low_x > high_x || low_y > high_y {
        assert(desired@.to_set() =~= spec_desired(center, load_point.spec_radius(), *world));
        return desired;
    }
    let ghost r = load_point.spec_radius();
    let mut y: i64 = low_y;
    while y <= high_y
        invariant
            low_y <= y <= high_y + 1,
            i32::MIN <= low_x <= high_x <= i32::MAX,
            i32::MIN <= low_y <= high_y <= i32::MAX,
            r == load_point.spec_radius(),
            center.x - r <= low_x && high_x <= center.x + r,
            center.y - r <= low_y && high_y <= center.y + r,
            forall|c: ChunkPos|
                spec_window(center, r, c) && #[trigger] world.spec_chunk_in_bounds(c) ==> low_x <= c.x
                    <= high_x && low_y <= c.y <= high_y,
            desired@.no_duplicates(),
            forall|c: ChunkPos| #[trigger]
                desired@.contains(c) <==> spec_window(center, r, c) && world.spec_chunk_in_bounds(c)
                    && c.y < y,
        decreases high_y + 1 - y,
    {
        let mut x: i64 = low_x;
        while x <= high_x
            invariant
                low_x <= x <= high_x + 1,
                low_y <= y <= high_y,
                i32::MIN <= low_x <= high_x <= i32::MAX,
                i32::MIN <= low_y <= high_y <= i32::MAX,
                r == load_point.spec_radius(),
                center.x - r <= low_x && high_x <= center.x + r,
                center.y - r <= low_y && high_y <= center.y + r,
                forall|c: ChunkPos|
                    spec_window(center, r, c) && #[trigger] world.spec_chunk_in_bounds(c) ==> low_x
                        <= c.x <= high_x && low_y <= c.y <= high_y,
                desired@.no_duplicates(),
                forall|c: ChunkPos| #[trigger]
                    desired@.contains(c) <==> spec_window(center, r, c) && world.spec_chunk_in_bounds(c)
                        && (c.y < y || (c.y == y && c.x < x)),
            decreases high_x + 1 - x,
        {
            let pos = ChunkPos { x: x as i32, y: y as i32 };
            if world.chunk_in_bounds(pos) {
                proof {
                    lemma_push_contains(desired@, pos);
                    lemma_push_no_duplicates(desired@, pos);
                }
                desired.push(pos);
            }
            x += 1;
        }
        y += 1;
    }
    assert(desired@.to_set() =~= spec_desired(center, load_point.spec_radius(), *world));
    desired
}

/// One pass of streaming for a load point at `center`: reconciles the table
/// with the wanted set around it.
pub fn stream_around(
    rendered: &mut RenderedChunks,
    center: ChunkPos,
    load_point: &LoadPoint,
    world: &WorldStorage,
) -> (plan: Reconciliation)
    requires
        world.wf(),
    ensures
        final(rendered)@ == spec_kept(
            old(rendered)@,
            spec_desired(center, load_point.spec_radius(), *world),
        ),
        plan.despawn@.no_duplicates(),
        forall|e: ChunkHandle| #[trigger]
            plan.despawn@.contains(e) <==> spec_is_despawned(
                old(rendered)@,
                spec_desired(center, load_point.spec_radius(), *world),
                e,
            ),
        plan.spawn@.no_duplicates(),
        plan.spawn@.to_set() == spec_spawned(
            old(rendered)@,
            spec_desired(center, load_point.spec_radius(), *world),
            world@,
        ),
        plan.skipped@.len() == 0,
{
    let desired = desired_chunks(center, load_point, world);
    let plan = reconcile(rendered, &desired, world);
    proof {
        lemma_wanted_is_held(*world, center, load_point.spec_radius(), old(rendered)@);
        assert(plan.skipped@.to_set() =~= Set::<ChunkPos>::empty());
        if plan.skipped@.len() > 0 {
            assert(plan.skipped@.to_set().contains(plan.skipped@[0]));
        }
    }
    plan
}

/// Takes out of the table every shown chunk that `list` holds, where `listed`
/// is set, or that it does not hold, where `listed` is not set, and lists what
/// it took out.
fn release(rendered: &mut RenderedChunks, list: &Vec<ChunkPos>, listed: bool) -> (released: Vec<
    ChunkHandle,
>)
    ensures
        forall|c: ChunkPos| #[trigger]
            final(rendered)@.contains_key(c) <==> old(rendered)@.contains_key(c) && list@.contains(c)
                != listed,
        forall|c: ChunkPos| #[trigger]
            final(rendered)@.contains_key(c) ==> final(rendered)@[c] == old(rendered)@[c],
        released@.no_duplicates(),
        forall|e: ChunkHandle| #[trigger]
            released@.contains(e) <==> old(rendered)@.contains_key(e.pos) && old(rendered)@[e.pos]
                == e.handle && list@.contains(e.pos) == listed,
{
    let ghost before = rendered@;
    let shown = rendered.positions();
    let mut released: Vec<ChunkHandle> = Vec::new();
    let mut i: usize = 0;
    proof {
        lemma_seen_all(shown@);
    }
    while i < shown.len()
        invariant
            i <= shown.len(),
            shown@.no_duplicates(),
            forall|c: ChunkPos| #[trigger] shown@.contains(c) <==> before.contains_key(c),
            forall|c: ChunkPos| #[trigger]
                rendered@.contains_key(c) <==> before.contains_key(c) && (list@.contains(c) != listed
                    || !spec_seen(shown@, i as int, c)),
            forall|c: ChunkPos| #[trigger]
                rendered@.contains_key(c) ==> rendered@[c] == before[c],
            released@.no_duplicates(),
            forall|e: ChunkHandle| #[trigger]
                released@.contains(e) <==> before.contains_key(e.pos) && before[e.pos] == e.handle
                    && list@.contains(e.pos) == listed && spec_seen(shown@, i as int, e.pos),
        decreases shown.len() - i,
    {
        let pos = shown[i];
        proof {
            lemma_seen_step(shown@, i as int);
            assert(shown@.contains(pos));
        }
        if contains_pos(list, pos) == listed {
            let removed = rendered.remove(&pos);
            match removed {
                Some(handle) => {
                    let entry = ChunkHandle { pos, handle };
                    proof {
                        lemma_push_contains(released@, entry);
                        assert(!spec_seen(shown@, i as int, entry.pos));
                        lemma_push_no_duplicates(released@, entry);
                    }
                    released.push(entry);
                },
                None => {},
            }
        }
        i += 1;
    }
    proof {
        lemma_seen_all(shown@);
    }
    released
}

/// Takes down every shown chunk that is not wanted: removes it from the table
/// and lists it, with its handle, for release. Wanted chunks stay as they are.
pub fn despawn_chunks(rendered: &mut RenderedChunks, desired: &Vec<ChunkPos>) -> (released: Vec<
    ChunkHandle,
>)
    ensures
        final(rendered)@ == spec_kept(old(rendered)@, desired@.to_set()),
        released@.no_duplicates(),
        forall|e: ChunkHandle| #[trigger]
            released@.contains(e) <==> spec_is_despawned(old(rendered)@, desired@.to_set(), e),
{
    let released = release(rendered, desired, false);
    assert(rendered@ =~= spec_kept(old(rendered)@, desired@.to_set()));
    released
}

/// Takes down every shown chunk among those marked as out of date: removes it
/// from the table and lists it, with its handle, for release. The next pass of
/// reconciliation lists those that are still wanted to be shown again.
pub fn despawn_dirty_chunks(rendered: &mut RenderedChunks, dirty: &Vec<ChunkPos>) -> (released: Vec<
    ChunkHandle,
>)
    ensures
        final(rendered)@ == old(rendered)@.remove_keys(dirty@.to_set()),
        released@.no_duplicates(),
        forall|e: ChunkHandle| #[trigger]
            released@.contains(e) <==> old(rendered)@.contains_key(e.pos) && old(rendered)@[e.pos]
                == e.handle && dirty@.contains(e.pos),
{
    let released = release(rendered, dirty, true);
    assert(rendered@ =~= old(rendered)@.remove_keys(dirty@.to_set()));
    released
}

/// Lists, each once, the wanted chunks that are not shown and that the world
/// holds, where `present` is set, or does not hold, where it is not set.
fn wanted_not_shown(
    rendered: &RenderedChunks,
    desired: &Vec<ChunkPos>,
    world: &WorldStorage,
    present: bool,
) -> (list: Vec<ChunkPos>)
    requires
        world.wf(),
    ensures
        list@.no_duplicates(),
        forall|c: ChunkPos| #[trigger]
            list@.contains(c) <==> desired@.contains(c) && !rendered@.contains_key(c)
                && world@.contains_key(c) == present,
{
    let mut list: Vec<ChunkPos> = Vec::new();
    let mut i: usize = 0;
    proof {
        lemma_seen_all(desired@);
    }
    while i < desired.len()
        invariant
            i <= desired.len(),
            world.wf(),
            list@.no_duplicates(),
            forall|c: ChunkPos| #[trigger]
                list@.contains(c) <==> spec_seen(desired@, i as int, c) && !rendered@.contains_key(c)
                    && world@.contains_key(c) == present,
        decreases desired.len() - i,
    {
        let pos = desired[i];
        proof {
            lemma_seen_step(desired@, i as int);
        }
        if !rendered.contains(&pos) && world.get_chunk(pos).is_some() == present && !contains_pos(
            &list,
            pos,
        ) {
            proof {
                lemma_push_contains(list@, pos);
                lemma_push_no_duplicates(list@, pos);
            }
            list.push(pos);
        }
        i += 1;
    }
    proof {
        lemma_seen_all(desired@);
    }
    list
}

/// Lists the chunks to show: those that are wanted, not shown, and present in
/// the world, each once. A wanted chunk that the world does not hold is left
/// out, and comes up again in the next pass.
pub fn spawn_chunks(rendered: &RenderedChunks, desired: &Vec<ChunkPos>, world: &WorldStorage) -> (spawn:
    Vec<ChunkPos>)
    requires
        world.wf(),
    ensures
        spawn@.no_duplicates(),
        spawn@.to_set() == spec_spawned(rendered@, desired@.to_set(), world@),
        forall|c: ChunkPos| #[trigger]
            spawn@.contains(c) <==> desired@.contains(c) && !rendered@.contains_key(c)
                && world@.contains_key(c),
{
    let spawn = wanted_not_shown(rendered, desired, world, true);
    assert(spawn@.to_set() =~= spec_spawned(rendered@, desired@.to_set(), world@));
    spawn
}

/// Lists the wanted chunks that cannot be shown because the world does not
/// hold them, each once: what a pass skips, for the caller to report.
pub fn missing_chunks(rendered: &RenderedChunks, desired: &Vec<ChunkPos>, world: &WorldStorage) -> (missing:
    Vec<ChunkPos>)
    requires
        world.wf(),
    ensures
        missing@.no_duplicates(),
        missing@.to_set() == spec_missing(rendered@, desired@.to_set(), world@),
        forall|c: ChunkPos| #[trigger]
            missing@.contains(c) <==> desired@.contains(c) && !rendered@.contains_key(c)
                && !world@.contains_key(c),
{
    let missing = wanted_not_shown(rendered, desired, world, false);
    assert(missing@.to_set() =~= spec_missing(rendered@, desired@.to_set(), world@));
    missing
}

/// One pass of reconciliation: brings the table in line with the wanted set.
/// Unwanted chunks leave the table and are listed for release; wanted chunks
/// that are not shown are listed to be shown, or as skipped where the world
/// does not hold them. Nothing else changes.
pub fn reconcile(rendered: &mut RenderedChunks, desired: &Vec<ChunkPos>, world: &WorldStorage) -> (plan:
    Reconciliation)
    requires
        world.wf(),
    ensures
        final(rendered)@ == spec_kept(old(rendered)@, desired@.to_set()),
        plan.despawn@.no_duplicates(),
        forall|e: ChunkHandle| #[trigger]
            plan.despawn@.contains(e) <==> spec_is_despawned(old(rendered)@, desired@.to_set(), e),
        plan.spawn@.no_duplicates(),
        plan.spawn@.to_set() == spec_spawned(old(rendered)@, desired@.to_set(), world@),
        plan.skipped@.no_duplicates(),
        plan.skipped@.to_set() == spec_missing(old(rendered)@, desired@.to_set(), world@),
{
    let despawn = despawn_chunks(rendered, desired);
    let spawn = spawn_chunks(rendered, desired, world);
    let skipped = missing_chunks(rendered, desired, world);
    assert(spawn@.to_set() =~= spec_spawned(old(rendered)@, desired@.to_set(), world@));
    assert(skipped@.to_set() =~= spec_missing(old(rendered)@, desired@.to_set(), world@));
    Reconciliation { despawn, spawn, skipped }
}

/// Marks a shown chunk as out of date: it leaves the table at once, and its
/// handle comes back for release. The next pass of reconciliation lists it to be
/// shown again. A chunk that is not shown is left alone.
pub fn dirty_rendered_chunk(rendered: &mut RenderedChunks, chunk_pos: &ChunkPos) -> (released: Option<
    u64,
>)
    ensures
        final(rendered)@ == old(rendered)@.remove(*chunk_pos),
        old(rendered)@.contains_key(*chunk_pos) ==> released == Some(old(rendered)@[*chunk_pos]),
        !old(rendered)@.contains_key(*chunk_pos) ==> released.is_none() && final(rendered)@ == old(
            rendered,
        )@,
{
    let released = rendered.remove(chunk_pos);
    proof {
        if !old(rendered)@.contains_key(*chunk_pos) {
            assert(rendered@ =~= old(rendered)@);
        }
    }
    released
}

/// Empties the table and lists every chunk that was shown, with its handle,
/// for release.
pub fn despawn_all(rendered: &mut RenderedChunks) -> (released: Vec<ChunkHandle>)
    ensures
        final(rendered)@ == Map::<ChunkPos, u64>::empty(),
        released@.no_duplicates(),
        forall|e: ChunkHandle| #[trigger]
            released@.contains(e) <==> old(rendered)@.contains_key(e.pos) && old(rendered)@[e.pos]
                == e.handle,
{
    let nothing: Vec<ChunkPos> = Vec::new();
    let released = despawn_chunks(rendered, &nothing);
    proof {
        assert(nothing@.to_set() =~= Set::<ChunkPos>::empty());
        assert(rendered@ =~= Map::<ChunkPos, u64>::empty());
    }
    released
}

/// The tile codes that the presentation layer is given for a chunk, in
/// row-major order: the chunk's tiles, or air throughout where the world holds
/// no such chunk. Every code is the code of a tile kind.
pub fn chunk_snapshot(world: &WorldStorage, chunk_pos: ChunkPos) -> (codes: Vec<u32>)
    requires
        world.wf(),
    ensures
        world@.contains_key(chunk_pos) ==> codes@ == world@[chunk_pos],
        !world@.contains_key(chunk_pos) ==> codes@ == spec_filled(Blocks::Air),
        codes@.len() == CHUNK_AREA,
        forall|i: int| 0 <= i < codes@.len() ==> #[trigger] codes@[i] < BLOCK_KINDS,
{
    match world.get_chunk(chunk_pos) {
        Some(chunk) => chunk.codes(),
        None => crate::chunk::Chunk::create(Blocks::Air).codes(),
    }
}

/// Whether a tile of a chunk stops what moves: every tile but air does.
pub open spec fn spec_solid(codes: Seq<u32>, local: BlockPos) -> bool {
    local.spec_is_relative_chunk_pos() && spec_tile_at(codes, local) != Blocks::Air
}

/// The tiles of a shown chunk that have to collide: the local position of
/// every tile of the chunk that is not air, each once, row by row from the
/// bottom and from left to right within a row. Nothing where the chunk is not
/// shown or the world does not hold it.
pub fn make_coll(rendered: &RenderedChunks, world: &WorldStorage, chunk_pos: ChunkPos) -> (solid: Vec<
    BlockPos,
>)
    requires
        world.wf(),
    ensures
        solid@.no_duplicates(),
        forall|p: BlockPos| #[trigger]
            solid@.contains(p) <==> rendered@.contains_key(chunk_pos) && world@.contains_key(chunk_pos)
                && spec_solid(world@[chunk_pos], p),
        forall|i: int, j: int|
            0 <= i < j < solid@.len() ==> (#[trigger] solid@[i]).spec_linearize() < (
            #[trigger] solid@[j]).spec_linearize(),
{
    let mut solid: Vec<BlockPos> = Vec::new();
    if !rendered.contains(&chunk_pos) {
        return solid;
    }
    let chunk = match world.get_chunk(chunk_pos) {
        Some(chunk) => chunk,
        None => {
            return solid;
        },
    };
    let mut y: u32 = 0;
    while y < CHUNK_SIZE
        invariant
            chunk.wf(),
            chunk@ == world@[chunk_pos],
            y <= CHUNK_SIZE,
            solid@.no_duplicates(),
            forall|p: BlockPos| #[trigger]
                solid@.contains(p) <==> spec_solid(chunk@, p) && p.y < y,
            forall|i: int, j: int|
                0 <= i < j < solid@.len() ==> (#[trigger] solid@[i]).spec_linearize() < (
                #[trigger] solid@[j]).spec_linearize(),
        decreases CHUNK_SIZE - y,
    {
        let mut x: u32 = 0;
        while x < CHUNK_SIZE
            invariant
                chunk.wf(),
                chunk@ == world@[chunk_pos],
                y < CHUNK_SIZE,
                x <= CHUNK_SIZE,
                solid@.no_duplicates(),
                forall|p: BlockPos| #[trigger]
                    solid@.contains(p) <==> spec_solid(chunk@, p) && (p.y < y || (p.y == y && p.x
                        < x)),
                forall|i: int, j: int|
                    0 <= i < j < solid@.len() ==> (#[trigger] solid@[i]).spec_linearize() < (
                    #[trigger] solid@[j]).spec_linearize(),
            decreases CHUNK_SIZE - x,
        {
            let local = BlockPos { x, y };
            match chunk.get_local(local) {
                Ok(tile) => {
                    if tile != Blocks::Air {
                        proof {
                            lemma_push_contains(solid@, local);
                            lemma_push_no_duplicates(solid@, local);
                            assert forall|i: int| 0 <= i < solid@.len() implies (#[trigger] solid@[i]).spec_linearize()
                                < local.spec_linearize() by {
                                assert(solid@.contains(solid@[i]));
                            }
                        }
                        solid.push(local);
                    }
                },
                Err(_) => {},
            }
            x += 1;
        }
        y += 1;
    }
    solid
}

/// The world holds every chunk of a wanted set, so a pass for a wanted set
/// skips nothing.
pub proof fn lemma_wanted_is_held(
    world: WorldStorage,
    center: ChunkPos,
    radius: u32,
    active: Map<ChunkPos, u64>,
)
    requires
        world.wf(),
    ensures
        forall|c: ChunkPos| #[trigger]
            spec_desired(center, radius, world).contains(c) ==> world@.contains_key(c),
        spec_missing(active, spec_desired(center, radius, world), world@) == Set::<ChunkPos>::empty(),
{
    assert forall|c: ChunkPos| #[trigger]
        spec_desired(center, radius, world).contains(c) implies world@.contains_key(c) by {
        assert(world.spec_chunk_in_bounds(c));
    }
    assert(spec_missing(active, spec_desired(center, radius, world), world@) =~= Set::<
        ChunkPos,
    >::empty());
}

/// Reconciliation is idempotent. A pass leaves nothing in the table that a
/// second pass with the same wanted set would take down; and once every chunk
/// that the first pass listed has been shown and recorded, the second pass
/// lists nothing to show either, and keeps the whole table.
pub proof fn lemma_reconcile_idempotent(
    active: Map<ChunkPos, u64>,
    desired: Set<ChunkPos>,
    world: Map<ChunkPos, Seq<u32>>,
    after: Map<ChunkPos, u64>,
)
    requires
        forall|c: ChunkPos| #[trigger]
            after.contains_key(c) <==> spec_kept(active, desired).contains_key(c) || spec_spawned(
                active,
                desired,
                world,
            ).contains(c),
    ensures
        spec_despawned(spec_kept(active, desired), desired) == Map::<ChunkPos, u64>::empty(),
        spec_despawned(after, desired) == Map::<ChunkPos, u64>::empty(),
        spec_spawned(after, desired, world) == Set::<ChunkPos>::empty(),
        spec_kept(after, desired) == after,
{
    assert(spec_despawned(spec_kept(active, desired), desired) =~= Map::<ChunkPos, u64>::empty());
    assert(spec_despawned(after, desired) =~= Map::<ChunkPos, u64>::empty());
    assert(spec_spawned(after, desired, world) =~= Set::<ChunkPos>::empty());
    assert(spec_kept(after, desired) =~= after);
}

/// Moving the load point. Where the table shows exactly the wanted set around
/// `from`, a pass for the wanted set around `to` takes down exactly the chunks
/// that are wanted around `from` and not around `to`, lists to be shown exactly
/// those wanted around `to` and not around `from`, and leaves every chunk
/// wanted around both in the table under its handle, neither taken down nor listed.
pub proof fn lemma_window_shift(
    world: WorldStorage,
    radius: u32,
    from: ChunkPos,
    to: ChunkPos,
    active: Map<ChunkPos, u64>,
)
    requires
        world.wf(),
        active.dom() == spec_desired(from, radius, world),
    ensures
        spec_despawned(active, spec_desired(to, radius, world)).dom() == spec_desired(
            from,
            radius,
            world,
        ).difference(spec_desired(to, radius, world)),
        spec_spawned(active, spec_desired(to, radius, world), world@) == spec_desired(
            to,
            radius,
            world,
        ).difference(spec_desired(from, radius, world)),
        forall|c: ChunkPos|
            spec_desired(from, radius, world).contains(c) && spec_desired(to, radius, world).contains(c)
                ==> {
                &&& #[trigger] spec_kept(active, spec_desired(to, radius, world)).contains_key(c)
                &&& spec_kept(active, spec_desired(to, radius, world))[c] == active[c]
                &&& !spec_despawned(active, spec_desired(to, radius, world)).contains_key(c)
                &&& !spec_spawned(active, spec_desired(to, radius, world), world@).contains(c)
            },
{
    let old_set = spec_desired(from, radius, world);
    let new_set = spec_desired(to, radius, world);
    assert forall|c: ChunkPos| new_set.contains(c) implies world@.contains_key(c) by {
        assert(world.spec_chunk_in_bounds(c));
    }
    assert forall|c: ChunkPos| active.contains_key(c) <==> old_set.contains(c) by {
        assert(active.dom().contains(c) <==> old_set.contains(c));
    }
    assert(spec_despawned(active, new_set).dom() =~= old_set.difference(new_set));
    assert(spec_spawned(active, new_set, world@) =~= new_set.difference(old_set));
}

/// Whether `chunk` lies on the edge of the window around `from` that falls
/// behind when the load point steps to the neighbouring chunk `to`.
pub open spec fn spec_trailing_edge(from: ChunkPos, to: ChunkPos, radius: u32, chunk: ChunkPos) -> bool {
    ||| to.x > from.x && chunk.x == from.x - radius
    ||| to.x < from.x && chunk.x == from.x + radius
    ||| to.y > from.y && chunk.y == from.y - radius
    ||| to.y < from.y && chunk.y == from.y + radius
}

/// Whether `chunk` lies on the edge of the window around `to` that comes into
/// range when the load point steps there from the neighbouring chunk `from`.
pub open spec fn spec_leading_edge(from: ChunkPos, to: ChunkPos, radius: u32, chunk: ChunkPos) -> bool {
    ||| to.x > from.x && chunk.x == to.x + radius
    ||| to.x < from.x && chunk.x == to.x - radius
    ||| to.y > from.y && chunk.y == to.y + radius
    ||| to.y < from.y && chunk.y == to.y - radius
}

/// Moving the load point by one chunk along one axis. Where the table shows
/// exactly the wanted set around `from`, the pass for the neighbouring chunk
/// `to` takes down exactly the shown chunks on the edge that falls behind, and
/// lists to be shown exactly the wanted chunks on the edge that comes into range.
pub proof fn lemma_shift_one_chunk(
    world: WorldStorage,
    radius: u32,
    from: ChunkPos,
    to: ChunkPos,
    active: Map<ChunkPos, u64>,
)
    requires
        world.wf(),
        active.dom() == spec_desired(from, radius, world),
        (to.y == from.y && (to.x == from.x + 1 || to.x == from.x - 1)) || (to.x == from.x && (to.y
            == from.y + 1 || to.y == from.y - 1)),
    ensures
        forall|c: ChunkPos| #[trigger]
            spec_despawned(active, spec_desired(to, radius, world)).contains_key(c) <==> active.contains_key(
                c,
            ) && spec_trailing_edge(from, to, radius, c),
        forall|c: ChunkPos| #[trigger]
            spec_spawned(active, spec_desired(to, radius, world), world@).contains(c) <==> spec_desired(
                to,
                radius,
                world,
            ).contains(c) && spec_leading_edge(from, to, radius, c),
{
    lemma_window_shift(world, radius, from, to, active);
    lemma_wanted_is_held(world, to, radius, active);
    let old_set = spec_desired(from, radius, world);
    assert forall|c: ChunkPos| active.contains_key(c) <==> old_set.contains(c) by {
        assert(active.dom().contains(c) <==> old_set.contains(c));
    }
}

/// Editing a shown chunk. After a shown, wanted chunk that the world holds is
/// marked as out of date, the next pass lists it to be shown again, and is
/// otherwise the pass it would have been.
pub proof fn lemma_dirty_then_reconcile(
    active: Map<ChunkPos, u64>,
    desired: Set<ChunkPos>,
    world: Map<ChunkPos, Seq<u32>>,
    pos: ChunkPos,
)
    requires
        active.contains_key(pos),
        desired.contains(pos),
        world.contains_key(pos),
    ensures
        spec_spawned(active.remove(pos), desired, world) == spec_spawned(active, desired, world).insert(
            pos,
        ),
        spec_despawned(active.remove(pos), desired) == spec_despawned(active, desired),
        spec_kept(active.remove(pos), desired) == spec_kept(active, desired).remove(pos),
{
    assert(spec_spawned(active.remove(pos), desired, world) =~= spec_spawned(
        active,
        desired,
        world,
    ).insert(pos));
    assert(spec_despawned(active.remove(pos), desired) =~= spec_despawned(active, desired));
    assert(spec_kept(active.remove(pos), desired) =~= spec_kept(active, desired).remove(pos));
}

} // verus!
