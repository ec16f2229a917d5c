//! The tile store of one chunk: a square of tile codes with checked access.

use vstd::prelude::*;
use crate::blocks::Blocks;
use crate::position::BlockPos;
use crate::position::CHUNK_AREA;
use crate::position::CHUNK_SIZE;

verus! {

/// Why an access to a chunk's tiles was refused.
#[derive(Clone, Copy, PartialEq, Eq, Structural, Debug)]
pub enum ChunkError {
    /// The position does not lie within one chunk.
    OutOfBounds,
}

/// The tiles of one chunk, as codes in row-major order: the tile at local
/// position `(x, y)` stands at index `x + CHUNK_SIZE * y`.
#[derive(Debug)]
pub struct Chunk {
    tiles: Vec<u32>,
}

impl View for Chunk {
    type V = Seq<u32>;

    closed spec fn view(&self) -> Seq<u32> {
        self.tiles@
    }
}

/// The tile codes of a chunk that holds `fill` everywhere.
pub open spec fn spec_filled(fill: Blocks) -> Seq<u32> {
    Seq::new(CHUNK_AREA as nat, |i: int| fill.spec_code())
}

/// The tile that a sequence of tile codes holds at a local position.
pub open spec fn spec_tile_at(codes: Seq<u32>, local: BlockPos) -> Blocks {
    Blocks::spec_from(codes[local.spec_linearize()])
}

impl Chunk {
    /// A chunk holds one code for each of its tiles.
    pub open spec fn wf(&self) -> bool {
        self@.len() == CHUNK_AREA
    }

    /// A chunk that holds `fill` in every tile.
    pub fn create(fill: Blocks) -> (chunk: Self)
        ensures
            chunk.wf(),
            chunk@ == spec_filled(fill),
    {
        let code = fill.code();
        let mut tiles: Vec<u32> = Vec::new();
        while tiles.len() < CHUNK_AREA
            invariant
                tiles@.len() <= CHUNK_AREA,
                forall|i: int| 0 <= i < tiles@.len() ==> tiles@[i] == code,
            decreases CHUNK_AREA - tiles@.len(),
        {
            tiles.push(code);
        }
        assert(tiles@ =~= spec_filled(fill));
        Self { tiles }
    }

    /// The tile at a local position; refused when the position lies outside the chunk.
    pub fn get_local(&self, local: BlockPos) -> (tile: Result<Blocks, ChunkError>)
        requires
            self.wf(),
        ensures
            local.spec_is_relative_chunk_pos() ==> tile == Ok::<Blocks, ChunkError>(
                spec_tile_at(self@, local),
            ),
            !local.spec_is_relative_chunk_pos() ==> tile == Err::<Blocks, ChunkError>(
                ChunkError::OutOfBounds,
            ),
    {
        match self.get_code(local) {
            Ok(code) => Ok(Blocks::from(code)),
            Err(refused) => Err(refused),
        }
    }

    /// The code stored at a local position, undecoded; refused when the position
    /// lies outside the chunk.
    pub fn get_code(&self, local: BlockPos) -> (code: Result<u32, ChunkError>)
        requires
            self.wf(),
        ensures
            local.spec_is_relative_chunk_pos() ==> code == Ok::<u32, ChunkError>(
                self@[local.spec_linearize()],
            ),
            !local.spec_is_relative_chunk_pos() ==> code == Err::<u32, ChunkError>(
                ChunkError::OutOfBounds,
            ),
    {
        if !local.is_relative_chunk_pos() {
            return Err(ChunkError::OutOfBounds);
        }
        let idx = local.linearize();
        Ok(self.tiles[idx])
    }

    /// Stores a code at a local position and changes nothing else; refused, with
    /// the chunk unchanged, when the position lies outside the chunk.
    pub fn set_code(&mut self, local: BlockPos, code: u32) -> (done: Result<(), ChunkError>)
        requires
            old(self).wf(),
        ensures
            final(self).wf(),
            local.spec_is_relative_chunk_pos() ==> done == Ok::<(), ChunkError>(()) && final(self)@
                == old(self)@.update(local.spec_linearize(), code),
            !local.spec_is_relative_chunk_pos() ==> done == Err::<(), ChunkError>(
                ChunkError::OutOfBounds,
            ) && final(self)@ == old(self)@,
    {
        if !local.is_relative_chunk_pos() {
            return Err(ChunkError::OutOfBounds);
        }
        let idx = local.linearize();
        self.tiles.set(idx, code);
        Ok(())
    }

    /// Puts a tile at a local position and changes nothing else; refused, with
    /// the chunk unchanged, when the position lies outside the chunk.
    pub fn set_local(&mut self, local: BlockPos, tile: Blocks) -> (done: Result<(), ChunkError>)
        requires
            old(self).wf(),
        ensures
            final(self).wf(),
            local.spec_is_relative_chunk_pos() ==> done == Ok::<(), ChunkError>(()) && final(self)@
                == old(self)@.update(local.spec_linearize(), tile.spec_code()),
            !local.spec_is_relative_chunk_pos() ==> done == Err::<(), ChunkError>(
                ChunkError::OutOfBounds,
            ) && final(self)@ == old(self)@,
    {
        self.set_code(local, tile.code())
    }

    /// A copy of the chunk's tile codes, in row-major order.
    pub fn codes(&self) -> (codes: Vec<u32>)
        requires
            self.wf(),
        ensures
            codes@ == self@,
    {
        let mut codes: Vec<u32> = Vec::new();
        let mut i: usize = 0;
        while i < CHUNK_AREA
            invariant
                self.wf(),
                i <= CHUNK_AREA,
                codes@.len() == i,
                forall|k: int| 0 <= k < i ==> codes@[k] == self@[k],
            decreases CHUNK_AREA - i,
        {
            codes.push(self.tiles[i]);
            i += 1;
        }
        assert(codes@ =~= self@);
        codes
    }
}

/// A tile put into a chunk is the tile found there afterwards, and every other
/// local position keeps its tile.
pub proof fn lemma_chunk_set_get(codes: Seq<u32>, local: BlockPos, tile: Blocks, other: BlockPos)
    requires
        codes.len() == CHUNK_AREA,
        local.spec_is_relative_chunk_pos(),
        other.spec_is_relative_chunk_pos(),
    ensures
        spec_tile_at(codes.update(local.spec_linearize(), tile.spec_code()), local) == tile,
        other != local ==> spec_tile_at(
            codes.update(local.spec_linearize(), tile.spec_code()),
            other,
        ) == spec_tile_at(codes, other),
{
}

} // verus!
