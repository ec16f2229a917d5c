//! The three coordinate systems of the world and the conversions between them.
//!
//! A world position counts tiles from the world's origin and may be negative.
//! A chunk position counts chunks. A block position counts tiles without sign:
//! it is local to a chunk when both of its components are below the chunk size.
//! Chunk and local position are the floor quotient and remainder of the world
//! position by the chunk size, so the decomposition is the same on both sides
//! of the origin.

use vstd::prelude::*;
use vstd::arithmetic::div_mod::lemma_fundamental_div_mod;
use vstd::arithmetic::div_mod::lemma_fundamental_div_mod_converse;
use vstd::arithmetic::div_mod::lemma_mod_bound;

verus! {

/// The side of a chunk, in tiles.
pub const CHUNK_SIZE: u32 = 64;

/// The side of a tile, in pixels.
pub const TILE_SIZE: u32 = 8;

/// The number of tiles in a chunk.
pub const CHUNK_AREA: usize = 4096;

/// The floor quotient of `value` by a positive `size`.
pub open spec fn spec_floor_div(value: int, size: int) -> int {
    value / size
}

/// What is left of `value` above the last multiple of a positive `size`.
pub open spec fn spec_floor_mod(value: int, size: int) -> int {
    value % size
}

/// Divides rounding towards negative infinity.
pub fn floor_div(value: i32, size: i32) -> (quotient: i32)
    requires
        size > 0,
    ensures
        quotient == spec_floor_div(value as int, size as int),
        quotient * size <= value < quotient * size + size,
{
    proof {
        lemma_fundamental_div_mod(value as int, size as int);
        lemma_mod_bound(value as int, size as int);
        lemma_quotient_in_range(value as int, size as int);
        let q = value as int / size as int;
        assert(q * size == size * q) by (nonlinear_arith);
    }
    match value.checked_div_euclid(size) {
        Some(quotient) => quotient,
        None => 0,
    }
}

/// The remainder that goes with [`floor_div`]: never negative, below `size`.
pub fn floor_mod(value: i32, size: i32) -> (rest: i32)
    requires
        size > 0,
    ensures
        rest == spec_floor_mod(value as int, size as int),
        0 <= rest < size,
{
    proof {
        lemma_mod_bound(value as int, size as int);
    }
    match value.checked_rem_euclid(size) {
        Some(rest) => rest,
        None => 0,
    }
}

/// A floor quotient by a positive divisor is no further from zero than the dividend.
pub proof fn lemma_quotient_in_range(value: int, size: int)
    requires
        size > 0,
    ensures
        value >= 0 ==> 0 <= value / size <= value,
        value < 0 ==> value <= value / size < 0,
{
    lemma_fundamental_div_mod(value, size);
    lemma_mod_bound(value, size);
    let q = value / size;
    let r = value % size;
    assert(value == size * q + r);
    if value >= 0 {
        assert(q >= 0) by (nonlinear_arith)
            requires
                value == size * q + r,
                0 <= r < size,
                value >= 0,
                size > 0,
        ;
        assert(q <= value) by (nonlinear_arith)
            requires
                value == size * q + r,
                0 <= r < size,
                q >= 0,
                size > 0,
        ;
    } else {
        assert(q < 0) by (nonlinear_arith)
            requires
                value == size * q + r,
                0 <= r < size,
                value < 0,
                size > 0,
        ;
        assert(q >= value) by (nonlinear_arith)
            requires
                value == size * q + r,
                0 <= r < size,
                q < 0,
                size > 0,
        ;
    }
}

/// A position in tiles without sign: a tile within a chunk, or a tile of the
/// world's non-negative quadrant.
#[derive(Clone, Copy, PartialEq, Eq, Structural, Debug, Hash)]
pub struct BlockPos {
    pub x: u32,
    pub y: u32,
}

/// The position of a chunk, in chunks.
#[derive(Clone, Copy, PartialEq, Eq, Structural, Debug, Hash)]
pub struct ChunkPos {
    pub x: i32,
    pub y: i32,
}

/// The position of a tile in the world, in tiles.
#[derive(Clone, Copy, PartialEq, Eq, Structural, Debug, Hash)]
pub struct GlobalTilePos {
    pub x: i32,
    pub y: i32,
}

impl BlockPos {
    pub fn new(x: u32, y: u32) -> (pos: Self)
        ensures
            pos == (BlockPos { x, y }),
    {
        Self { x, y }
    }

    /// The tile that holds a point given in pixels.
    pub fn from_world_pos(x: u32, y: u32) -> (pos: Self)
        ensures
            pos.x == x / TILE_SIZE,
            pos.y == y / TILE_SIZE,
    {
        Self { x: x / TILE_SIZE, y: y / TILE_SIZE }
    }

    /// Whether this position lies within one chunk.
    pub open spec fn spec_is_relative_chunk_pos(self) -> bool {
        self.x < CHUNK_SIZE && self.y < CHUNK_SIZE
    }

    /// The place of this position in a chunk's row-major tile array.
    pub open spec fn spec_linearize(self) -> int {
        self.x + CHUNK_SIZE * self.y
    }

    pub fn is_relative_chunk_pos(&self) -> (relative: bool)
        ensures
            relative == self.spec_is_relative_chunk_pos(),
    {
        self.x < CHUNK_SIZE && self.y < CHUNK_SIZE
    }

    pub fn linearize(&self) -> (idx: usize)
        requires
            self.spec_linearize() <= usize::MAX,
        ensures
            idx == self.spec_linearize(),
            self.spec_is_relative_chunk_pos() ==> idx < CHUNK_AREA,
    {
        let row: u64 = CHUNK_SIZE as u64 * self.y as u64;
        (self.x as u64 + row) as usize
    }

    pub fn x(&self) -> (x: u32)
        ensures
            x == self.x,
    {
        self.x
    }

    pub fn y(&self) -> (y: u32)
        ensures
            y == self.y,
    {
        self.y
    }
}

impl ChunkPos {
    pub fn new(x: i32, y: i32) -> (pos: Self)
        ensures
            pos == (ChunkPos { x, y }),
    {
        Self { x, y }
    }

    /// The chunk that holds a world position: the floor quotient by the chunk size.
    pub open spec fn spec_from_tile_pos(tile: GlobalTilePos) -> ChunkPos {
        ChunkPos {
            x: spec_floor_div(tile.x as int, CHUNK_SIZE as int) as i32,
            y: spec_floor_div(tile.y as int, CHUNK_SIZE as int) as i32,
        }
    }

    /// The chunk that holds a point given in pixels.
    pub fn from_world_pos(x: u32, y: u32) -> (pos: Self)
        ensures
            pos.x == (x / TILE_SIZE) / CHUNK_SIZE,
            pos.y == (y / TILE_SIZE) / CHUNK_SIZE,
    {
        let block_pos = BlockPos::from_world_pos(x, y);
        Self::from_block_pos(block_pos)
    }

    /// The chunk that holds a tile of the non-negative quadrant.
    pub fn from_block_pos(block_pos: BlockPos) -> (pos: Self)
        ensures
            pos.x == block_pos.x / CHUNK_SIZE,
            pos.y == block_pos.y / CHUNK_SIZE,
    {
        Self { x: (block_pos.x() / CHUNK_SIZE) as i32, y: (block_pos.y() / CHUNK_SIZE) as i32 }
    }

    /// The chunk that holds a world position, also left of or below the origin.
    pub fn from_tile_pos(tile: GlobalTilePos) -> (pos: Self)
        ensures
            pos == Self::spec_from_tile_pos(tile),
            pos.x == spec_floor_div(tile.x as int, CHUNK_SIZE as int),
            pos.y == spec_floor_div(tile.y as int, CHUNK_SIZE as int),
    {
        Self { x: floor_div(tile.x, CHUNK_SIZE as i32), y: floor_div(tile.y, CHUNK_SIZE as i32) }
    }

    /// The number that stands for this chunk position where a table is keyed by
    /// one integer: the two components, each counted from the least `i32`, side by side.
    pub open spec fn spec_key(self) -> u64 {
        ((self.x - i32::MIN) * 0x1_0000_0000 + (self.y - i32::MIN)) as u64
    }

    /// The chunk position that a key stands for.
    pub open spec fn spec_from_key(key: u64) -> ChunkPos {
        ChunkPos {
            x: (key / 0x1_0000_0000 + i32::MIN) as i32,
            y: (key % 0x1_0000_0000 + i32::MIN) as i32,
        }
    }

    pub fn key(&self) -> (key: u64)
        ensures
            key == self.spec_key(),
            Self::spec_from_key(key) == *self,
    {
        let x: u64 = (self.x as i64 - i32::MIN as i64) as u64;
        let y: u64 = (self.y as i64 - i32::MIN as i64) as u64;
        x * 0x1_0000_0000 + y
    }

    pub fn from_key(key: u64) -> (pos: Self)
        ensures
            pos == Self::spec_from_key(key),
            pos.spec_key() == key,
    {
        let x: i64 = (key / 0x1_0000_0000) as i64 + i32::MIN as i64;
        let y: i64 = (key % 0x1_0000_0000) as i64 + i32::MIN as i64;
        Self { x: x as i32, y: y as i32 }
    }

    /// The chunk `dx` columns and `dy` rows away, where that is still a chunk position.
    pub fn offset(&self, dx: i32, dy: i32) -> (moved: Option<Self>)
        ensures
            moved.is_some() <==> (i32::MIN <= self.x + dx <= i32::MAX && i32::MIN <= self.y + dy
                <= i32::MAX),
            moved.is_some() ==> moved.unwrap().x == self.x + dx && moved.unwrap().y == self.y + dy,
    {
        match (self.x.checked_add(dx), self.y.checked_add(dy)) {
            (Some(x), Some(y)) => Some(Self { x, y }),
            _ => None,
        }
    }

    pub fn x(&self) -> (x: i32)
        ensures
            x == self.x,
    {
        self.x
    }

    pub fn y(&self) -> (y: i32)
        ensures
            y == self.y,
    {
        self.y
    }
}

impl core::ops::Add for ChunkPos {
    type Output = ChunkPos;

    /// The sum, component by component. The sum of each pair of components
    /// has to be an `i32`.
    fn add(self, other: ChunkPos) -> (sum: ChunkPos) {
        ChunkPos { x: self.x + other.x, y: self.y + other.y }
    }
}

impl vstd::std_specs::ops::AddSpecImpl for ChunkPos {
    open spec fn obeys_add_spec() -> bool {
        true
    }

    open spec fn add_req(self, other: ChunkPos) -> bool {
        &&& i32::MIN <= self.x + other.x <= i32::MAX
        &&& i32::MIN <= self.y + other.y <= i32::MAX
    }

    open spec fn add_spec(self, other: ChunkPos) -> ChunkPos {
        ChunkPos { x: (self.x + other.x) as i32, y: (self.y + other.y) as i32 }
    }
}

impl GlobalTilePos {
    pub fn new(x: i32, y: i32) -> (pos: Self)
        ensures
            pos == (GlobalTilePos { x, y }),
    {
        Self { x, y }
    }

    /// The position within its chunk: the floor remainder by the chunk size.
    pub open spec fn spec_to_local(self) -> BlockPos {
        BlockPos {
            x: spec_floor_mod(self.x as int, CHUNK_SIZE as int) as u32,
            y: spec_floor_mod(self.y as int, CHUNK_SIZE as int) as u32,
        }
    }

    /// The world position of the tile at `local` in chunk `chunk`.
    pub open spec fn spec_from_parts(chunk: ChunkPos, local: BlockPos) -> (int, int) {
        (chunk.x * CHUNK_SIZE + local.x, chunk.y * CHUNK_SIZE + local.y)
    }

    /// The chunk that holds this position.
    pub fn to_chunk(&self) -> (chunk: ChunkPos)
        ensures
            chunk == ChunkPos::spec_from_tile_pos(*self),
    {
        ChunkPos::from_tile_pos(*self)
    }

    /// The position within the chunk that holds this position.
    pub fn to_local(&self) -> (local: BlockPos)
        ensures
            local == self.spec_to_local(),
            local.spec_is_relative_chunk_pos(),
            local.x == spec_floor_mod(self.x as int, CHUNK_SIZE as int),
            local.y == spec_floor_mod(self.y as int, CHUNK_SIZE as int),
    {
        BlockPos {
            x: floor_mod(self.x, CHUNK_SIZE as i32) as u32,
            y: floor_mod(self.y, CHUNK_SIZE as i32) as u32,
        }
    }

    /// The world position of the tile at `local` in chunk `chunk`, where the
    /// world's coordinates reach it.
    pub fn from_parts(chunk: ChunkPos, local: BlockPos) -> (tile: Option<Self>)
        ensures
            tile.is_some() <==> (i32::MIN <= Self::spec_from_parts(chunk, local).0 <= i32::MAX
                && i32::MIN <= Self::spec_from_parts(chunk, local).1 <= i32::MAX),
            tile.is_some() ==> tile.unwrap().x == Self::spec_from_parts(chunk, local).0
                && tile.unwrap().y == Self::spec_from_parts(chunk, local).1,
    {
        let size: i64 = 64;
        assert(size == CHUNK_SIZE);
        let x: i64 = chunk.x as i64 * size + local.x as i64;
        let y: i64 = chunk.y as i64 * size + local.y as i64;
        if x <= i32::MAX as i64 && y <= i32::MAX as i64 && x >= i32::MIN as i64 && y >= i32::MIN as i64 {
            Some(Self { x: x as i32, y: y as i32 })
        } else {
            None
        }
    }
}

/// Chunk position times chunk size plus local position is the world position
/// again, on both sides of the origin.
pub proof fn lemma_decompose_round_trip(tile: GlobalTilePos)
    ensures
        GlobalTilePos::spec_from_parts(ChunkPos::spec_from_tile_pos(tile), tile.spec_to_local())
            == (tile.x as int, tile.y as int),
        ChunkPos::spec_from_tile_pos(tile).x * CHUNK_SIZE + tile.spec_to_local().x == tile.x,
        ChunkPos::spec_from_tile_pos(tile).y * CHUNK_SIZE + tile.spec_to_local().y == tile.y,
{
    lemma_local_in_chunk(tile);
    lemma_quotient_in_range(tile.x as int, CHUNK_SIZE as int);
    lemma_quotient_in_range(tile.y as int, CHUNK_SIZE as int);
    lemma_fundamental_div_mod(tile.x as int, CHUNK_SIZE as int);
    lemma_fundamental_div_mod(tile.y as int, CHUNK_SIZE as int);
}

/// The local position of every world position, negative ones too, lies within
/// one chunk.
pub proof fn lemma_local_in_chunk(tile: GlobalTilePos)
    ensures
        tile.spec_to_local().spec_is_relative_chunk_pos(),
        0 <= tile.spec_to_local().x < CHUNK_SIZE,
        0 <= tile.spec_to_local().y < CHUNK_SIZE,
        tile.spec_to_local().x == spec_floor_mod(tile.x as int, CHUNK_SIZE as int),
        tile.spec_to_local().y == spec_floor_mod(tile.y as int, CHUNK_SIZE as int),
{
    lemma_mod_bound(tile.x as int, CHUNK_SIZE as int);
    lemma_mod_bound(tile.y as int, CHUNK_SIZE as int);
}

/// A chunk position and a local position within one chunk are the
/// decomposition of the world position they add up to, and of no other.
pub proof fn lemma_decompose_unique(tile: GlobalTilePos, chunk: ChunkPos, local: BlockPos)
    requires
        local.spec_is_relative_chunk_pos(),
        chunk.x * CHUNK_SIZE + local.x == tile.x,
        chunk.y * CHUNK_SIZE + local.y == tile.y,
    ensures
        ChunkPos::spec_from_tile_pos(tile) == chunk,
        tile.spec_to_local() == local,
{
    lemma_fundamental_div_mod_converse(tile.x as int, CHUNK_SIZE as int, chunk.x as int, local.x as int);
    lemma_fundamental_div_mod_converse(tile.y as int, CHUNK_SIZE as int, chunk.y as int, local.y as int);
}

} // verus!
