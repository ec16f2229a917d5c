//! The bedrock pass: a solid bottom row with a thinning, random crust of four
//! rows above it.

use rand::rngs::ThreadRng;
use vstd::prelude::*;
use crate::blocks::Blocks;
use crate::generation::dice::roll;
use crate::storage::WorldStorage;

verus! {

/// The number of rows that the bedrock pass may write.
pub const BEDROCK_ROWS: usize = 5;

/// What a column holds at height `y` after the pass, given the tile before and
/// the four tosses for the rows above the bottom one.
pub open spec fn spec_column_tile(
    before: Option<Blocks>,
    y: int,
    second: bool,
    third: bool,
    fourth: bool,
    fifth: bool,
) -> Option<Blocks> {
    if y == 0 || (y == 1 && second) || (y == 2 && third) || (y == 3 && fourth) || (y == 4 && fifth) {
        Some(Blocks::Dirt)
    } else {
        before
    }
}

/// Lays the bedrock of one column: the bottom tile always, each of the four
/// tiles above it where its toss came up.
pub fn lay_column(world: &mut WorldStorage, x: usize, second: bool, third: bool, fourth: bool, fifth: bool)
    requires
        old(world).wf(),
        x < old(world).spec_width(),
        0 < old(world).spec_height(),
    ensures
        final(world).wf(),
        final(world).spec_same_shape(old(world)),
        forall|ox: int, oy: int| #[trigger]
            final(world).spec_tile(ox, oy) == if ox == x {
                spec_column_tile(old(world).spec_tile(ox, oy), oy, second, third, fourth, fifth)
            } else {
                old(world).spec_tile(ox, oy)
            },
{
    world.place(x, 0, Blocks::Dirt);
    if second {
        world.place(x, 1, Blocks::Dirt);
    }
    if third {
        world.place(x, 2, Blocks::Dirt);
    }
    if fourth {
        world.place(x, 3, Blocks::Dirt);
    }
    if fifth {
        world.place(x, 4, Blocks::Dirt);
    }
}

/// Lays bedrock under the whole world. In every column the bottom tile
/// becomes dirt; the four tiles above it become dirt with a chance of four,
/// three, two and one in five. Whatever the tosses, no other tile changes.
pub fn generate(rng: &mut ThreadRng, world: &mut WorldStorage)
    requires
        old(world).wf(),
    ensures
        final(world).wf(),
        final(world).spec_same_shape(old(world)),
        forall|x: int, y: int|
            0 <= x < old(world).spec_width() && 0 < old(world).spec_height() && y == 0
                ==> #[trigger] final(world).spec_tile(x, y) == Some(Blocks::Dirt),
        forall|x: int, y: int| #[trigger]
            final(world).spec_tile(x, y) == Some(Blocks::Dirt) || final(world).spec_tile(x, y) == old(world).spec_tile(x, y),
        forall|x: int, y: int|
            !(0 <= x < old(world).spec_width() && 0 <= y < BEDROCK_ROWS) ==> #[trigger] final(world).spec_tile(x, y) == old(world).spec_tile(x, y),
{
    let width = world.get_width();
    let height = world.get_height();
    if height == 0 {
        return ;
    }
    let ghost before = *world;
    let mut x: usize = 0;
    while x < width
        invariant
            world.wf(),
            world.spec_same_shape(&before),
            width == before.spec_width(),
            0 < before.spec_height(),
            x <= width,
            forall|ox: int, oy: int|
                0 <= ox < x && oy == 0 ==> #[trigger] world.spec_tile(ox, oy) == Some(Blocks::Dirt),
            forall|ox: int, oy: int| #[trigger]
                world.spec_tile(ox, oy) == Some(Blocks::Dirt) || world.spec_tile(ox, oy)
                    == before.spec_tile(ox, oy),
            forall|ox: int, oy: int|
                !(0 <= ox < x && 0 <= oy < BEDROCK_ROWS) ==> #[trigger] world.spec_tile(ox, oy)
                    == before.spec_tile(ox, oy),
        decreases width - x,
    {
        let second = roll(rng, 4, 5);
        let third = roll(rng, 3, 5);
        let fourth = roll(rng, 2, 5);
        let fifth = roll(rng, 1, 5);
        lay_column(world, x, second, third, fourth, fifth);
        x += 1;
    }
}

} // verus!
