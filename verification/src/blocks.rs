//! The tile catalogue: the kinds of tile and their numeric codes.

use vstd::prelude::*;

verus! {

/// The kinds of tile that one cell of the world can hold.
///
/// Each kind has a stable code, counted from zero in the order of declaration.
#[derive(Clone, Copy, PartialEq, Eq, Structural, Debug, Hash)]
#[allow(dead_code)]
pub enum Blocks {
    Air,
    Grass,
    Dirt,
    Stone,
    Border,
}

/// The number of tile kinds; the valid codes are those below it.
pub const BLOCK_KINDS: u32 = 5;

impl Blocks {
    /// The code of a tile kind.
    pub open spec fn spec_code(self) -> u32 {
        match self {
            Blocks::Air => 0,
            Blocks::Grass => 1,
            Blocks::Dirt => 2,
            Blocks::Stone => 3,
            Blocks::Border => 4,
        }
    }

    /// The tile kind that a code stands for; every unknown code stands for air.
    pub open spec fn spec_from(block: u32) -> Blocks {
        if block == 1 {
            Blocks::Grass
        } else if block == 2 {
            Blocks::Dirt
        } else if block == 3 {
            Blocks::Stone
        } else if block == 4 {
            Blocks::Border
        } else {
            Blocks::Air
        }
    }

    /// Decodes a tile code. Total: a code that names no kind decodes to air.
    pub fn from(block: u32) -> (tile: Self)
        ensures
            tile == Self::spec_from(block),
    {
        match block {
            0 => Self::Air,
            1 => Self::Grass,
            2 => Self::Dirt,
            3 => Self::Stone,
            4 => Self::Border,
            _ => Self::Air,
        }
    }

    /// Encodes a tile kind as its code.
    pub fn code(self) -> (code: u32)
        ensures
            code == self.spec_code(),
            code < BLOCK_KINDS,
    {
        match self {
            Blocks::Air => 0,
            Blocks::Grass => 1,
            Blocks::Dirt => 2,
            Blocks::Stone => 3,
            Blocks::Border => 4,
        }
    }
}

/// Decoding the code of a tile kind gives that kind back, and every code below
/// the number of kinds is the code of the kind it decodes to.
pub proof fn lemma_code_round_trip(tile: Blocks, code: u32)
    ensures
        Blocks::spec_from(tile.spec_code()) == tile,
        tile.spec_code() < BLOCK_KINDS,
        code < BLOCK_KINDS ==> Blocks::spec_from(code).spec_code() == code,
{
}

/// A code that names no tile kind decodes to air.
pub proof fn lemma_unknown_code_is_air(code: u32)
    requires
        code >= BLOCK_KINDS,
    ensures
        Blocks::spec_from(code) == Blocks::Air,
{
}

} // verus!
