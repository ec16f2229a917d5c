//! The world grid: a sparse map from chunk positions to chunks of tiles.
//!
//! A grid is made in one of two modes. A bounded grid declares a rectangle of
//! chunks and holds a chunk for each of its positions from the start; nothing
//! outside the rectangle ever comes to exist. A sparse grid starts empty and
//! makes a chunk when a tile is first written into it.

use std::collections::HashMap;
use vstd::prelude::*;
use crate::blocks::Blocks;
use crate::blocks::BLOCK_KINDS;
use crate::chunk::spec_filled;
use crate::chunk::spec_tile_at;
use crate::chunk::Chunk;
use crate::position::ChunkPos;
use crate::position::GlobalTilePos;
use crate::position::CHUNK_AREA;
use crate::position::CHUNK_SIZE;

verus! {

broadcast use vstd::std_specs::hash::group_hash_axioms;

/// The tile that a grid holds at a world position, if the chunk there exists.
pub open spec fn spec_tile_in(chunks: Map<ChunkPos, Seq<u32>>, x: i32, y: i32) -> Option<Blocks> {
    let tile = GlobalTilePos { x, y };
    let chunk = ChunkPos::spec_from_tile_pos(tile);
    if chunks.contains_key(chunk) {
        Some(spec_tile_at(chunks[chunk], tile.spec_to_local()))
    } else {
        None
    }
}

/// The code that a layer holds at a world position, if the chunk there exists.
pub open spec fn spec_code_in(chunks: Map<ChunkPos, Seq<u32>>, x: i32, y: i32) -> Option<u32> {
    let tile = GlobalTilePos { x, y };
    let chunk = ChunkPos::spec_from_tile_pos(tile);
    if chunks.contains_key(chunk) {
        Some(chunks[chunk][tile.spec_to_local().spec_linearize()])
    } else {
        None
    }
}

/// A layer after a code is written at a world position: the chunk there, or a
/// chunk of zeros where none exists yet, with that one code replaced.
pub open spec fn spec_put_code(chunks: Map<ChunkPos, Seq<u32>>, x: i32, y: i32, code: u32) -> Map<
    ChunkPos,
    Seq<u32>,
> {
    let pos = GlobalTilePos { x, y };
    let chunk = ChunkPos::spec_from_tile_pos(pos);
    let base = if chunks.contains_key(chunk) {
        chunks[chunk]
    } else {
        spec_filled(Blocks::Air)
    };
    chunks.insert(chunk, base.update(pos.spec_to_local().spec_linearize(), code))
}

/// The grid after a tile is written at a world position: the chunk there, or a
/// chunk of air where none exists yet, with that one tile replaced.
pub open spec fn spec_put_tile(chunks: Map<ChunkPos, Seq<u32>>, x: i32, y: i32, tile: Blocks) -> Map<
    ChunkPos,
    Seq<u32>,
> {
    spec_put_code(chunks, x, y, tile.spec_code())
}

/// Whether every code that a layer of tiles holds is the code of a tile kind.
pub open spec fn spec_codes_valid(layer: Map<ChunkPos, Seq<u32>>) -> bool {
    forall|c: ChunkPos, i: int|
        layer.contains_key(c) && 0 <= i < layer[c].len() ==> #[trigger] layer[c][i] < BLOCK_KINDS
}

/// A layer of chunks as it is stored, seen by chunk position.
spec fn spec_layer(stored: Map<u64, Chunk>) -> Map<ChunkPos, Seq<u32>> {
    Map::new(
        |c: ChunkPos| stored.contains_key(c.spec_key()),
        |c: ChunkPos| stored[c.spec_key()]@,
    )
}

/// Whether a layer holds a full square of codes in every chunk and, in a
/// bounded grid, exactly the chunks of the declared rectangle.
pub open spec fn spec_layer_wf(
    layer: Map<ChunkPos, Seq<u32>>,
    bounded: bool,
    width: u32,
    height: u32,
) -> bool {
    &&& forall|c: ChunkPos| #[trigger] layer.contains_key(c) ==> layer[c].len() == CHUNK_AREA
    &&& bounded ==> forall|c: ChunkPos| #[trigger]
        layer.contains_key(c) <==> 0 <= c.x < width && 0 <= c.y < height
}

/// Writes a code into a stored layer; in a bounded grid only where the chunk exists.
fn put_code(stored: &mut HashMap<u64, Chunk>, bounded: bool, x: i32, y: i32, code: u32) -> (written:
    bool)
    requires
        forall|c: ChunkPos| #[trigger]
            spec_layer(old(stored)@).contains_key(c) ==> spec_layer(old(stored)@)[c].len() == CHUNK_AREA,
    ensures
        written == (!bounded || spec_layer(old(stored)@).contains_key(
            ChunkPos::spec_from_tile_pos(GlobalTilePos { x, y }),
        )),
        written ==> spec_layer(final(stored)@) == spec_put_code(spec_layer(old(stored)@), x, y, code),
        !written ==> spec_layer(final(stored)@) == spec_layer(old(stored)@),
        forall|c: ChunkPos| #[trigger]
            spec_layer(final(stored)@).contains_key(c) ==> spec_layer(final(stored)@)[c].len()
                == CHUNK_AREA,
{
    let pos = GlobalTilePos { x, y };
    let chunk_pos = pos.to_chunk();
    let local = pos.to_local();
    let key = chunk_pos.key();
    let ghost before = stored@;
    let ghost layer = spec_layer(before);
    assert(layer.contains_key(chunk_pos) == before.contains_key(key));
    let mut chunk = match stored.remove(&key) {
        Some(chunk) => {
            assert(chunk@ == layer[chunk_pos]);
            chunk
        },
        None => {
            if bounded {
                assert(stored@ =~= before);
                return false;
            }
            Chunk::create(Blocks::Air)
        },
    };
    let _ = chunk.set_code(local, code);
    stored.insert(key, chunk);
    proof {
        let target = spec_put_code(layer, x, y, code);
        let after = spec_layer(stored@);
        assert(stored@ =~= before.insert(key, chunk));
        assert forall|c: ChunkPos| #[trigger] after.contains_key(c) == target.contains_key(c) by {
            assert(c.spec_key() == key <==> c == chunk_pos);
        }
        assert forall|c: ChunkPos| #[trigger] after.contains_key(c) implies after[c] == target[c] by {
            assert(c.spec_key() == key <==> c == chunk_pos);
            if c != chunk_pos {
                assert(layer.contains_key(c));
            }
        }
        assert(after =~= target);
        assert forall|c: ChunkPos| #[trigger] after.contains_key(c) implies after[c].len()
            == CHUNK_AREA by {
            if c != chunk_pos {
                assert(layer.contains_key(c));
            }
        }
    }
    true
}

/// Reads a code from a stored layer.
fn read_code(stored: &HashMap<u64, Chunk>, x: i32, y: i32) -> (code: Option<u32>)
    requires
        forall|c: ChunkPos| #[trigger]
            spec_layer(stored@).contains_key(c) ==> spec_layer(stored@)[c].len() == CHUNK_AREA,
    ensures
        code == spec_code_in(spec_layer(stored@), x, y),
{
    let pos = GlobalTilePos { x, y };
    let chunk_pos = pos.to_chunk();
    match stored.get(&chunk_pos.key()) {
        Some(chunk) => {
            assert(spec_layer(stored@).contains_key(chunk_pos));
            match chunk.get_code(pos.to_local()) {
                Ok(code) => Some(code),
                Err(_) => None,
            }
        },
        None => None,
    }
}

/// The tiles of a world, chunk by chunk, and behind them a layer of walls. Its
/// view maps each chunk position that exists to the tile codes of that chunk.
#[derive(Debug)]
pub struct WorldStorage {
    chunks: HashMap<u64, Chunk>,
    walls: HashMap<u64, Chunk>,
    bounded: bool,
    width: u32,
    height: u32,
    spawn_point: GlobalTilePos,
}

impl View for WorldStorage {
    type V = Map<ChunkPos, Seq<u32>>;

    closed spec fn view(&self) -> Map<ChunkPos, Seq<u32>> {
        spec_layer(self.chunks@)
    }
}

#[allow(dead_code)]
impl WorldStorage {
    /// Whether the grid was made with a declared extent.
    pub closed spec fn spec_bounded(&self) -> bool {
        self.bounded
    }

    /// The declared width in chunks; zero for a sparse grid.
    pub closed spec fn spec_width_chunks(&self) -> u32 {
        self.width
    }

    /// The declared height in chunks; zero for a sparse grid.
    pub closed spec fn spec_height_chunks(&self) -> u32 {
        self.height
    }

    pub closed spec fn spec_spawn_point(&self) -> GlobalTilePos {
        self.spawn_point
    }

    /// The wall layer: the wall codes of each chunk of walls that exists.
    pub closed spec fn spec_walls(&self) -> Map<ChunkPos, Seq<u32>> {
        spec_layer(self.walls@)
    }

    /// Whether a chunk position lies in the declared rectangle.
    pub open spec fn spec_in_extent(&self, chunk: ChunkPos) -> bool {
        0 <= chunk.x < self.spec_width_chunks() && 0 <= chunk.y < self.spec_height_chunks()
    }

    /// Every chunk holds a full square of tiles, each stored as the code of a
    /// tile kind; a bounded grid holds exactly
    /// the chunks of its rectangle, whose tiles all have `i32` coordinates; a
    /// sparse grid declares no extent.
    pub open spec fn wf(&self) -> bool {
        &&& forall|c: ChunkPos| #[trigger] self@.contains_key(c) ==> self@[c].len() == CHUNK_AREA
        &&& spec_codes_valid(self@)
        &&& self.spec_bounded() ==> forall|c: ChunkPos| #[trigger]
            self@.contains_key(c) <==> self.spec_in_extent(c)
        &&& spec_layer_wf(
            self.spec_walls(),
            self.spec_bounded(),
            self.spec_width_chunks(),
            self.spec_height_chunks(),
        )
        &&& self.spec_width_chunks() * CHUNK_SIZE <= i32::MAX
        &&& self.spec_height_chunks() * CHUNK_SIZE <= i32::MAX
        &&& !self.spec_bounded() ==> self.spec_width_chunks() == 0 && self.spec_height_chunks() == 0
    }

    /// Whether a chunk position belongs to the world: in a bounded grid, whether
    /// it lies in the declared rectangle; in a sparse grid, whether the chunk exists.
    pub open spec fn spec_chunk_in_bounds(&self, chunk: ChunkPos) -> bool {
        if self.spec_bounded() {
            self.spec_in_extent(chunk)
        } else {
            self@.contains_key(chunk)
        }
    }

    /// Whether the chunk of a world position belongs to the world.
    pub open spec fn spec_in_bounds(&self, x: i32, y: i32) -> bool {
        self.spec_chunk_in_bounds(ChunkPos::spec_from_tile_pos(GlobalTilePos { x, y }))
    }

    /// Whether a write at a world position takes effect: always in a sparse
    /// grid; in a bounded grid where the chunk exists.
    pub open spec fn spec_writable(&self, x: i32, y: i32) -> bool {
        !self.spec_bounded() || self@.contains_key(
            ChunkPos::spec_from_tile_pos(GlobalTilePos { x, y }),
        )
    }

    /// The declared width in tiles.
    pub open spec fn spec_width(&self) -> int {
        self.spec_width_chunks() * CHUNK_SIZE
    }

    /// The declared height in tiles.
    pub open spec fn spec_height(&self) -> int {
        self.spec_height_chunks() * CHUNK_SIZE
    }

    /// The tile at a world position given by unbounded integers; nothing where
    /// the position has no `i32` coordinates or no chunk exists there.
    pub open spec fn spec_tile(&self, x: int, y: int) -> Option<Blocks> {
        if i32::MIN <= x <= i32::MAX && i32::MIN <= y <= i32::MAX {
            spec_tile_in(self@, x as i32, y as i32)
        } else {
            None
        }
    }

    /// The wall code at a world position given by unbounded integers; nothing
    /// where the position has no `i32` coordinates or no chunk of walls exists there.
    pub open spec fn spec_wall(&self, x: int, y: int) -> Option<u32> {
        if i32::MIN <= x <= i32::MAX && i32::MIN <= y <= i32::MAX {
            spec_code_in(self.spec_walls(), x as i32, y as i32)
        } else {
            None
        }
    }

    /// Whether two grids have the same mode, extent, spawn point, chunk
    /// positions and walls.
    pub open spec fn spec_same_shape(&self, other: &WorldStorage) -> bool {
        &&& self.spec_bounded() == other.spec_bounded()
        &&& self.spec_width_chunks() == other.spec_width_chunks()
        &&& self.spec_height_chunks() == other.spec_height_chunks()
        &&& self.spec_spawn_point() == other.spec_spawn_point()
        &&& self@.dom() == other@.dom()
        &&& self.spec_walls() == other.spec_walls()
    }

    /// A bounded grid `width` tiles wide and `height` tiles high, every tile
    /// air, every wall zero, spawn point at the origin. A bounded grid is a
    /// rectangle of whole chunks, so both have to be multiples of the chunk
    /// size; and every tile needs `i32` coordinates.
    pub fn from_dimensions(width: usize, height: usize) -> (world: Self)
        requires
            width % (CHUNK_SIZE as usize) == 0,
            height % (CHUNK_SIZE as usize) == 0,
            width <= i32::MAX,
            height <= i32::MAX,
        ensures
            world.wf(),
            world.spec_bounded(),
            world.spec_width() == width,
            world.spec_height() == height,
            world.spec_width_chunks() == width / (CHUNK_SIZE as usize),
            world.spec_height_chunks() == height / (CHUNK_SIZE as usize),
            world.spec_spawn_point() == (GlobalTilePos { x: 0, y: 0 }),
            forall|x: int, y: int| #[trigger]
                world.spec_tile(x, y) == if 0 <= x < width && 0 <= y < height {
                    Some(Blocks::Air)
                } else {
                    None
                },
            forall|x: int, y: int| #[trigger]
                world.spec_wall(x, y) == if 0 <= x < width && 0 <= y < height {
                    Some(0u32)
                } else {
                    None
                },
    {
        let world = Self::from_chunk_dimensions(
            (width / CHUNK_SIZE as usize) as u32,
            (height / CHUNK_SIZE as usize) as u32,
        );
        proof {
            assert forall|x: int, y: int| #[trigger]
                world.spec_tile(x, y) == if 0 <= x < width && 0 <= y < height {
                    Some(Blocks::Air)
                } else {
                    None
                } by {
                world.lemma_extent_exists(x, y);
                if 0 <= x < width && 0 <= y < height {
                    let pos = GlobalTilePos { x: x as i32, y: y as i32 };
                    crate::position::lemma_local_in_chunk(pos);
                }
            }
            assert forall|x: int, y: int| #[trigger]
                world.spec_wall(x, y) == if 0 <= x < width && 0 <= y < height {
                    Some(0u32)
                } else {
                    None
                } by {
                world.lemma_walls_extent(x, y);
                if 0 <= x < width && 0 <= y < height {
                    let pos = GlobalTilePos { x: x as i32, y: y as i32 };
                    crate::position::lemma_local_in_chunk(pos);
                }
            }
        }
        world
    }

    /// A bounded grid of `width` by `height` chunks, every tile air, every
    /// wall zero, spawn point at the origin.
    pub fn from_chunk_dimensions(width: u32, height: u32) -> (world: Self)
        requires
            width * CHUNK_SIZE <= i32::MAX,
            height * CHUNK_SIZE <= i32::MAX,
        ensures
            world.wf(),
            world.spec_bounded(),
            world.spec_width_chunks() == width,
            world.spec_height_chunks() == height,
            world.spec_spawn_point() == (GlobalTilePos { x: 0, y: 0 }),
            forall|c: ChunkPos| #[trigger]
                world@.contains_key(c) <==> 0 <= c.x < width && 0 <= c.y < height,
            forall|c: ChunkPos| #[trigger]
                world@.contains_key(c) ==> world@[c] == spec_filled(Blocks::Air),
            forall|c: ChunkPos| #[trigger]
                world.spec_walls().contains_key(c) ==> world.spec_walls()[c] == spec_filled(Blocks::Air),
    {
        let mut chunks: HashMap<u64, Chunk> = HashMap::new();
        let mut walls: HashMap<u64, Chunk> = HashMap::new();
        let mut cy: u32 = 0;
        while cy < height
            invariant
                cy <= height,
                width * CHUNK_SIZE <= i32::MAX,
                height * CHUNK_SIZE <= i32::MAX,
                forall|c: ChunkPos| #[trigger]
                    chunks@.contains_key(c.spec_key()) <==> 0 <= c.x < width && 0 <= c.y < cy,
                forall|c: ChunkPos| #[trigger]
                    chunks@.contains_key(c.spec_key()) ==> chunks@[c.spec_key()]@ == spec_filled(
                        Blocks::Air,
                    ),
                forall|c: ChunkPos| #[trigger]
                    walls@.contains_key(c.spec_key()) <==> 0 <= c.x < width && 0 <= c.y < cy,
                forall|c: ChunkPos| #[trigger]
                    walls@.contains_key(c.spec_key()) ==> walls@[c.spec_key()]@ == spec_filled(
                        Blocks::Air,
                    ),
            decreases height - cy,
        {
            let mut cx: u32 = 0;
            while cx < width
                invariant
                    cx <= width,
                    cy < height,
                    width * CHUNK_SIZE <= i32::MAX,
                    height * CHUNK_SIZE <= i32::MAX,
                    forall|c: ChunkPos| #[trigger]
                        chunks@.contains_key(c.spec_key()) <==> (0 <= c.x < width && 0 <= c.y < cy)
                            || (c.y == cy && 0 <= c.x < cx),
                    forall|c: ChunkPos| #[trigger]
                        chunks@.contains_key(c.spec_key()) ==> chunks@[c.spec_key()]@
                            == spec_filled(Blocks::Air),
                    forall|c: ChunkPos| #[trigger]
                        walls@.contains_key(c.spec_key()) <==> (0 <= c.x < width && 0 <= c.y < cy)
                            || (c.y == cy && 0 <= c.x < cx),
                    forall|c: ChunkPos| #[trigger]
                        walls@.contains_key(c.spec_key()) ==> walls@[c.spec_key()]@
                            == spec_filled(Blocks::Air),
                decreases width - cx,
            {
                let pos = ChunkPos { x: cx as i32, y: cy as i32 };
                chunks.insert(pos.key(), Chunk::create(Blocks::Air));
                walls.insert(pos.key(), Chunk::create(Blocks::Air));
                cx += 1;
            }
            cy += 1;
        }
        Self { chunks, walls, bounded: true, width, height, spawn_point: GlobalTilePos { x: 0, y: 0 } }
    }

    /// A sparse grid without any chunk, spawn point at the origin.
    pub fn sparse() -> (world: Self)
        ensures
            world.wf(),
            !world.spec_bounded(),
            world@ == Map::<ChunkPos, Seq<u32>>::empty(),
            world.spec_walls() == Map::<ChunkPos, Seq<u32>>::empty(),
            world.spec_spawn_point() == (GlobalTilePos { x: 0, y: 0 }),
    {
        let world = Self {
            chunks: HashMap::new(),
            walls: HashMap::new(),
            bounded: false,
            width: 0,
            height: 0,
            spawn_point: GlobalTilePos { x: 0, y: 0 },
        };
        assert(world@ =~= Map::<ChunkPos, Seq<u32>>::empty());
        assert(world.spec_walls() =~= Map::<ChunkPos, Seq<u32>>::empty());
        world
    }

    pub fn is_bounded(&self) -> (bounded: bool)
        ensures
            bounded == self.spec_bounded(),
    {
        self.bounded
    }

    /// The declared height in tiles.
    #[inline]
    pub fn get_height(&self) -> (height: usize)
        requires
            self.wf(),
        ensures
            height == self.spec_height_chunks() * CHUNK_SIZE,
    {
        (self.height * CHUNK_SIZE) as usize
    }

    /// The declared width in tiles.
    #[inline]
    pub fn get_width(&self) -> (width: usize)
        requires
            self.wf(),
        ensures
            width == self.spec_width_chunks() * CHUNK_SIZE,
    {
        (self.width * CHUNK_SIZE) as usize
    }

    /// The declared height in chunks.
    pub fn height_in_chunks(&self) -> (height: u32)
        ensures
            height == self.spec_height_chunks(),
    {
        self.height
    }

    /// The declared width in chunks.
    pub fn width_in_chunks(&self) -> (width: u32)
        ensures
            width == self.spec_width_chunks(),
    {
        self.width
    }

    pub fn get_spawn_point(&self) -> (point: GlobalTilePos)
        ensures
            point == self.spec_spawn_point(),
    {
        self.spawn_point
    }

    pub fn set_spawn_point(&mut self, x: i32, y: i32)
        ensures
            final(self).spec_spawn_point() == (GlobalTilePos { x, y }),
            final(self)@ == old(self)@,
            final(self).spec_walls() == old(self).spec_walls(),
            final(self).spec_bounded() == old(self).spec_bounded(),
            final(self).spec_width_chunks() == old(self).spec_width_chunks(),
            final(self).spec_height_chunks() == old(self).spec_height_chunks(),
    {
        self.spawn_point = GlobalTilePos { x, y };
    }

    /// Whether a chunk position belongs to the world.
    pub fn chunk_in_bounds(&self, chunk: ChunkPos) -> (inside: bool)
        ensures
            inside == self.spec_chunk_in_bounds(chunk),
    {
        if self.bounded {
            0 <= chunk.x && (chunk.x as i64) < self.width as i64 && 0 <= chunk.y && (chunk.y as i64)
                < self.height as i64
        } else {
            self.chunks.contains_key(&chunk.key())
        }
    }

    /// Whether the chunk of a world position belongs to the world.
    #[inline]
    pub fn in_bounds(&self, x: i32, y: i32) -> (inside: bool)
        ensures
            inside == self.spec_in_bounds(x, y),
    {
        self.chunk_in_bounds(GlobalTilePos { x, y }.to_chunk())
    }

    /// The chunk at a chunk position, if it exists.
    pub fn get_chunk(&self, chunk: ChunkPos) -> (found: Option<&Chunk>)
        requires
            self.wf(),
        ensures
            found.is_some() <==> self@.contains_key(chunk),
            found.is_some() ==> found.unwrap()@ == self@[chunk] && found.unwrap().wf(),
    {
        let found = self.chunks.get(&chunk.key());
        proof {
            if found.is_some() {
                assert(self@.contains_key(chunk));
            }
        }
        found
    }

    /// The tile at a world position, or nothing where no chunk exists there.
    #[inline]
    pub fn get_tile(&self, x: i32, y: i32) -> (tile: Option<Blocks>)
        requires
            self.wf(),
        ensures
            tile == spec_tile_in(self@, x, y),
    {
        let pos = GlobalTilePos { x, y };
        match self.get_chunk(pos.to_chunk()) {
            Some(chunk) => {
                match chunk.get_local(pos.to_local()) {
                    Ok(tile) => Some(tile),
                    Err(_) => None,
                }
            },
            None => None,
        }
    }

    /// Writes a tile at a world position and says whether it was written. A
    /// sparse grid first makes the chunk, of air, where it does not exist; a
    /// bounded grid leaves a position without a chunk alone.
    #[inline]
    pub fn set_tile(&mut self, x: i32, y: i32, tile: Blocks) -> (written: bool)
        requires
            old(self).wf(),
        ensures
            final(self).wf(),
            written == old(self).spec_writable(x, y),
            written ==> final(self)@ == spec_put_tile(old(self)@, x, y, tile),
            !written ==> final(self)@ == old(self)@,
            final(self).spec_walls() == old(self).spec_walls(),
            final(self).spec_bounded() == old(self).spec_bounded(),
            final(self).spec_width_chunks() == old(self).spec_width_chunks(),
            final(self).spec_height_chunks() == old(self).spec_height_chunks(),
            final(self).spec_spawn_point() == old(self).spec_spawn_point(),
    {
        let written = put_code(&mut self.chunks, self.bounded, x, y, tile.code());
        proof {
            let chunk = ChunkPos::spec_from_tile_pos(GlobalTilePos { x, y });
            assert forall|c: ChunkPos| #[trigger]
                self@.contains_key(c) <==> old(self)@.contains_key(c) || (written && c == chunk) by {}
        }
        written
    }

    /// The wall code at a world position, or nothing where no chunk of walls
    /// exists there.
    #[inline]
    pub fn get_wall(&self, x: i32, y: i32) -> (wall: Option<u32>)
        requires
            self.wf(),
        ensures
            wall == spec_code_in(self.spec_walls(), x, y),
    {
        read_code(&self.walls, x, y)
    }

    /// Writes a wall code at a world position and says whether it was written,
    /// under the rule of [`WorldStorage::set_tile`]. The tiles stay as they are.
    #[inline]
    pub fn set_wall(&mut self, x: i32, y: i32, wall: u32) -> (written: bool)
        requires
            old(self).wf(),
        ensures
            final(self).wf(),
            written == (!old(self).spec_bounded() || old(self).spec_walls().contains_key(
                ChunkPos::spec_from_tile_pos(GlobalTilePos { x, y }),
            )),
            written ==> final(self).spec_walls() == spec_put_code(old(self).spec_walls(), x, y, wall),
            !written ==> final(self).spec_walls() == old(self).spec_walls(),
            final(self)@ == old(self)@,
            final(self).spec_bounded() == old(self).spec_bounded(),
            final(self).spec_width_chunks() == old(self).spec_width_chunks(),
            final(self).spec_height_chunks() == old(self).spec_height_chunks(),
            final(self).spec_spawn_point() == old(self).spec_spawn_point(),
    {
        let written = put_code(&mut self.walls, self.bounded, x, y, wall);
        proof {
            let chunk = ChunkPos::spec_from_tile_pos(GlobalTilePos { x, y });
            assert forall|c: ChunkPos| #[trigger]
                self.spec_walls().contains_key(c) <==> old(self).spec_walls().contains_key(c) || (written
                    && c == chunk) by {}
            assert(self@ == old(self)@);
        }
        written
    }

    /// The wall code at a row-major index of the declared extent. The index
    /// has to lie within the extent.
    #[inline]
    pub fn get_wall_idx(&self, idx: usize) -> (wall: u32)
        requires
            self.wf(),
            idx < self.spec_width() * self.spec_height(),
        ensures
            Some(wall) == self.spec_wall(
                idx as int % self.spec_width(),
                idx as int / self.spec_width(),
            ),
    {
        proof {
            self.lemma_index_in_extent(idx as int);
            self.lemma_walls_extent(idx as int % self.spec_width(), idx as int / self.spec_width());
        }
        let pos = self.delinearize(idx);
        match self.get_wall(pos.0 as i32, pos.1 as i32) {
            Some(wall) => wall,
            None => 0,
        }
    }

    /// Writes a wall code at a row-major index of the declared extent. The
    /// index has to lie within the extent. Every other wall, and every tile,
    /// stays as it is.
    #[inline]
    pub fn set_wall_idx(&mut self, idx: usize, wall: u32)
        requires
            old(self).wf(),
            idx < old(self).spec_width() * old(self).spec_height(),
        ensures
            final(self).wf(),
            final(self).spec_walls() == spec_put_code(
                old(self).spec_walls(),
                (idx as int % old(self).spec_width()) as i32,
                (idx as int / old(self).spec_width()) as i32,
                wall,
            ),
            forall|x: int, y: int| #[trigger]
                final(self).spec_wall(x, y) == if x == idx as int % old(self).spec_width() && y
                    == idx as int / old(self).spec_width() {
                    Some(wall)
                } else {
                    old(self).spec_wall(x, y)
                },
            final(self)@ == old(self)@,
            final(self).spec_bounded() == old(self).spec_bounded(),
            final(self).spec_width_chunks() == old(self).spec_width_chunks(),
            final(self).spec_height_chunks() == old(self).spec_height_chunks(),
            final(self).spec_spawn_point() == old(self).spec_spawn_point(),
    {
        proof {
            self.lemma_index_in_extent(idx as int);
            let x = idx as int % self.spec_width();
            let y = idx as int / self.spec_width();
            self.lemma_walls_extent(x, y);
            lemma_put_code(self.spec_walls(), x as i32, y as i32, wall);
        }
        let pos = self.delinearize(idx);
        let written = self.set_wall(pos.0 as i32, pos.1 as i32, wall);
        assert(written);
    }

    /// The place of a tile in a row-major numbering of the declared extent.
    #[inline]
    pub fn linearize(&self, x: usize, y: usize) -> (idx: usize)
        requires
            self.wf(),
            x + self.spec_width() * y <= usize::MAX,
        ensures
            idx == x + self.spec_width() * y,
    {
        let width = self.get_width();
        assert(width * y <= usize::MAX) by (nonlinear_arith)
            requires
                x + width * y <= usize::MAX,
                x >= 0,
        ;
        x + width * y
    }

    /// The tile position that a row-major index stands for, column first.
    #[inline]
    pub fn delinearize(&self, idx: usize) -> (pos: (usize, usize))
        requires
            self.wf(),
            self.spec_width() > 0,
        ensures
            pos.0 == idx as int % self.spec_width(),
            pos.1 == idx as int / self.spec_width(),
            pos.0 < self.spec_width(),
            pos.0 + self.spec_width() * pos.1 == idx,
    {
        let width = self.get_width();
        proof {
            vstd::arithmetic::div_mod::lemma_fundamental_div_mod(idx as int, width as int);
            vstd::arithmetic::div_mod::lemma_mod_bound(idx as int, width as int);
        }
        (idx % width, idx / width)
    }

    /// The tile at a world position of the non-negative quadrant.
    #[inline]
    pub fn get_tile_usize(&self, x: usize, y: usize) -> (tile: Option<Blocks>)
        requires
            self.wf(),
        ensures
            tile == self.spec_tile(x as int, y as int),
    {
        if x <= i32::MAX as usize && y <= i32::MAX as usize {
            self.get_tile(x as i32, y as i32)
        } else {
            None
        }
    }

    /// The tile at a row-major index of the declared extent. The index has to
    /// lie within the extent.
    #[inline]
    pub fn get_tile_idx(&self, idx: usize) -> (tile: Blocks)
        requires
            self.wf(),
            idx < self.spec_width() * self.spec_height(),
        ensures
            Some(tile) == self.spec_tile(idx as int % self.spec_width(), idx as int / self.spec_width()),
    {
        proof {
            self.lemma_index_in_extent(idx as int);
            self.lemma_extent_exists(idx as int % self.spec_width(), idx as int / self.spec_width());
        }
        let pos = self.delinearize(idx);
        match self.get_tile_usize(pos.0, pos.1) {
            Some(tile) => tile,
            None => Blocks::Air,
        }
    }

    /// Writes a tile at a world position of the non-negative quadrant, as
    /// [`WorldStorage::set_tile`] does; a position beyond the `i32` coordinates is
    /// left alone.
    #[inline]
    pub fn set_tile_usize(&mut self, x: usize, y: usize, tile: Blocks) -> (written: bool)
        requires
            old(self).wf(),
        ensures
            final(self).wf(),
            written == (x <= i32::MAX && y <= i32::MAX && old(self).spec_writable(x as i32, y as i32)),
            written ==> final(self)@ == spec_put_tile(old(self)@, x as i32, y as i32, tile),
            !written ==> final(self)@ == old(self)@,
            final(self).spec_walls() == old(self).spec_walls(),
            final(self).spec_bounded() == old(self).spec_bounded(),
            final(self).spec_width_chunks() == old(self).spec_width_chunks(),
            final(self).spec_height_chunks() == old(self).spec_height_chunks(),
            final(self).spec_spawn_point() == old(self).spec_spawn_point(),
    {
        if x <= i32::MAX as usize && y <= i32::MAX as usize {
            self.set_tile(x as i32, y as i32, tile)
        } else {
            false
        }
    }

    /// Writes a tile at a row-major index of the declared extent. The index
    /// has to lie within the extent. Every other position keeps its tile.
    #[inline]
    pub fn set_tile_idx(&mut self, idx: usize, tile: Blocks)
        requires
            old(self).wf(),
            idx < old(self).spec_width() * old(self).spec_height(),
        ensures
            final(self).wf(),
            final(self).spec_same_shape(old(self)),
            forall|x: int, y: int| #[trigger]
                final(self).spec_tile(x, y) == if x == idx as int % old(self).spec_width() && y
                    == idx as int / old(self).spec_width() {
                    Some(tile)
                } else {
                    old(self).spec_tile(x, y)
                },
    {
        proof {
            self.lemma_index_in_extent(idx as int);
        }
        let pos = self.delinearize(idx);
        self.place(pos.0, pos.1, tile);
    }

    /// Writes a tile at a position of the declared extent. Every other position
    /// keeps its tile.
    pub fn place(&mut self, x: usize, y: usize, tile: Blocks)
        requires
            old(self).wf(),
            x < old(self).spec_width(),
            y < old(self).spec_height(),
        ensures
            final(self).wf(),
            final(self).spec_same_shape(old(self)),
            final(self)@ == spec_put_tile(old(self)@, x as i32, y as i32, tile),
            forall|ox: int, oy: int| #[trigger]
                final(self).spec_tile(ox, oy) == if ox == x && oy == y {
                    Some(tile)
                } else {
                    old(self).spec_tile(ox, oy)
                },
    {
        proof {
            old(self).lemma_extent_exists(x as int, y as int);
            lemma_put_tile(old(self)@, x as i32, y as i32, tile);
        }
        let written = self.set_tile_usize(x, y, tile);
        assert(written);
        assert(self@.dom() =~= old(self)@.dom());
    }

    /// The index of a position whose column lies within the declared width
    /// stands for that position again.
    pub proof fn lemma_linearize_round_trip(&self, x: int, y: int)
        requires
            0 <= x < self.spec_width(),
            0 <= y,
        ensures
            (x + self.spec_width() * y) % self.spec_width() == x,
            (x + self.spec_width() * y) / self.spec_width() == y,
    {
        let w = self.spec_width();
        assert(x + w * y == y * w + x) by (nonlinear_arith);
        vstd::arithmetic::div_mod::lemma_fundamental_div_mod_converse(x + w * y, w, y, x);
    }

    /// A row-major index below the number of tiles stands for a position of
    /// the declared extent, and linearizing that position gives the index back.
    pub proof fn lemma_index_in_extent(&self, idx: int)
        requires
            self.wf(),
            0 <= idx < self.spec_width() * self.spec_height(),
        ensures
            self.spec_bounded(),
            0 < self.spec_width(),
            0 <= idx % self.spec_width() < self.spec_width(),
            0 <= idx / self.spec_width() < self.spec_height(),
            idx % self.spec_width() + self.spec_width() * (idx / self.spec_width()) == idx,
    {
        let w = self.spec_width();
        let h = self.spec_height();
        assert(w > 0) by (nonlinear_arith)
            requires
                0 <= idx < w * h,
                w >= 0,
        ;
        vstd::arithmetic::div_mod::lemma_fundamental_div_mod(idx, w);
        vstd::arithmetic::div_mod::lemma_mod_bound(idx, w);
        let q = idx / w;
        let r = idx % w;
        assert(0 <= q < h) by (nonlinear_arith)
            requires
                idx == w * q + r,
                0 <= r < w,
                0 <= idx < w * h,
                w > 0,
        ;
    }

    /// In a bounded grid the chunk of every position of the declared extent
    /// exists, and no chunk of a position outside it.
    pub proof fn lemma_extent_exists(&self, x: int, y: int)
        requires
            self.wf(),
            self.spec_bounded(),
        ensures
            0 <= x < self.spec_width() && 0 <= y < self.spec_height() <==> self.spec_tile(x, y).is_some(),
            0 <= x < self.spec_width() && 0 <= y < self.spec_height() ==> self@.contains_key(
                ChunkPos::spec_from_tile_pos(GlobalTilePos { x: x as i32, y: y as i32 }),
            ),
    {
        if i32::MIN <= x <= i32::MAX && i32::MIN <= y <= i32::MAX {
            let pos = GlobalTilePos { x: x as i32, y: y as i32 };
            let chunk = ChunkPos::spec_from_tile_pos(pos);
            crate::position::lemma_decompose_round_trip(pos);
            crate::position::lemma_local_in_chunk(pos);
            assert(self@.contains_key(chunk) <==> self.spec_in_extent(chunk));
            assert(chunk.x * CHUNK_SIZE <= x < chunk.x * CHUNK_SIZE + CHUNK_SIZE);
            assert(chunk.y * CHUNK_SIZE <= y < chunk.y * CHUNK_SIZE + CHUNK_SIZE);
        }
    }

    /// In a bounded grid the chunk of walls of every position of the declared
    /// extent exists, and no chunk of walls of a position outside it.
    pub proof fn lemma_walls_extent(&self, x: int, y: int)
        requires
            self.wf(),
            self.spec_bounded(),
        ensures
            0 <= x < self.spec_width() && 0 <= y < self.spec_height() <==> self.spec_wall(x, y).is_some(),
            0 <= x < self.spec_width() && 0 <= y < self.spec_height() ==> self.spec_walls().contains_key(
                ChunkPos::spec_from_tile_pos(GlobalTilePos { x: x as i32, y: y as i32 }),
            ),
    {
        if i32::MIN <= x <= i32::MAX && i32::MIN <= y <= i32::MAX {
            let pos = GlobalTilePos { x: x as i32, y: y as i32 };
            let chunk = ChunkPos::spec_from_tile_pos(pos);
            crate::position::lemma_decompose_round_trip(pos);
            crate::position::lemma_local_in_chunk(pos);
            assert(chunk.x * CHUNK_SIZE <= x < chunk.x * CHUNK_SIZE + CHUNK_SIZE);
            assert(chunk.y * CHUNK_SIZE <= y < chunk.y * CHUNK_SIZE + CHUNK_SIZE);
            assert(self.spec_walls().contains_key(chunk) <==> 0 <= chunk.x < self.spec_width_chunks()
                && 0 <= chunk.y < self.spec_height_chunks());
        }
    }
}

/// Writing a tile into an existing chunk changes the tile at that position and
/// no other tile, and brings no chunk into being.
pub proof fn lemma_put_tile(chunks: Map<ChunkPos, Seq<u32>>, x: i32, y: i32, tile: Blocks)
    requires
        chunks.contains_key(ChunkPos::spec_from_tile_pos(GlobalTilePos { x, y })),
        chunks[ChunkPos::spec_from_tile_pos(GlobalTilePos { x, y })].len() == CHUNK_AREA,
    ensures
        spec_put_tile(chunks, x, y, tile).dom() == chunks.dom(),
        forall|ox: i32, oy: i32| #[trigger]
            spec_tile_in(spec_put_tile(chunks, x, y, tile), ox, oy) == if ox == x && oy == y {
                Some(tile)
            } else {
                spec_tile_in(chunks, ox, oy)
            },
{
    let pos = GlobalTilePos { x, y };
    crate::position::lemma_local_in_chunk(pos);
    crate::position::lemma_decompose_round_trip(pos);
    crate::blocks::lemma_code_round_trip(tile, 0);
    assert(spec_put_tile(chunks, x, y, tile).dom() =~= chunks.dom());
    assert forall|ox: i32, oy: i32| #[trigger]
        spec_tile_in(spec_put_tile(chunks, x, y, tile), ox, oy) == if ox == x && oy == y {
            Some(tile)
        } else {
            spec_tile_in(chunks, ox, oy)
        } by {
        let other = GlobalTilePos { x: ox, y: oy };
        crate::position::lemma_local_in_chunk(other);
        crate::position::lemma_decompose_round_trip(other);
    }
}

/// Writing a code into an existing chunk of a layer changes the code at that
/// position and no other, and brings no chunk into being.
pub proof fn lemma_put_code(chunks: Map<ChunkPos, Seq<u32>>, x: i32, y: i32, code: u32)
    requires
        chunks.contains_key(ChunkPos::spec_from_tile_pos(GlobalTilePos { x, y })),
        chunks[ChunkPos::spec_from_tile_pos(GlobalTilePos { x, y })].len() == CHUNK_AREA,
    ensures
        spec_put_code(chunks, x, y, code).dom() == chunks.dom(),
        forall|ox: i32, oy: i32| #[trigger]
            spec_code_in(spec_put_code(chunks, x, y, code), ox, oy) == if ox == x && oy == y {
                Some(code)
            } else {
                spec_code_in(chunks, ox, oy)
            },
{
    let pos = GlobalTilePos { x, y };
    crate::position::lemma_local_in_chunk(pos);
    crate::position::lemma_decompose_round_trip(pos);
    assert(spec_put_code(chunks, x, y, code).dom() =~= chunks.dom());
    assert forall|ox: i32, oy: i32| #[trigger]
        spec_code_in(spec_put_code(chunks, x, y, code), ox, oy) == if ox == x && oy == y {
            Some(code)
        } else {
            spec_code_in(chunks, ox, oy)
        } by {
        let other = GlobalTilePos { x: ox, y: oy };
        crate::position::lemma_local_in_chunk(other);
        crate::position::lemma_decompose_round_trip(other);
    }
}

/// A tile written at a position where writes take effect is the tile read
/// there afterwards.
pub proof fn lemma_set_then_get(world: WorldStorage, x: i32, y: i32, tile: Blocks)
    requires
        world.wf(),
        world.spec_writable(x, y),
    ensures
        spec_tile_in(spec_put_tile(world@, x, y, tile), x, y) == Some(tile),
{
    let pos = GlobalTilePos { x, y };
    crate::position::lemma_local_in_chunk(pos);
    crate::blocks::lemma_code_round_trip(tile, 0);
}

/// A write leaves every other position of an existing chunk as it was, and
/// every position of every other chunk.
pub proof fn lemma_set_keeps_others(world: WorldStorage, x: i32, y: i32, tile: Blocks, ox: i32, oy: i32)
    requires
        world.wf(),
        (ox, oy) != (x, y),
        world@.contains_key(ChunkPos::spec_from_tile_pos(GlobalTilePos { x: ox, y: oy })),
    ensures
        spec_tile_in(spec_put_tile(world@, x, y, tile), ox, oy) == spec_tile_in(world@, ox, oy),
{
    let pos = GlobalTilePos { x, y };
    let other = GlobalTilePos { x: ox, y: oy };
    crate::position::lemma_local_in_chunk(pos);
    crate::position::lemma_local_in_chunk(other);
    crate::position::lemma_decompose_round_trip(pos);
    crate::position::lemma_decompose_round_trip(other);
}

} // verus!
