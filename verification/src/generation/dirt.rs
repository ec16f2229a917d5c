//! The dirt pass: the lowest rows of the world, each tile dirt or air by the
//! toss of a coin.

use rand::rngs::ThreadRng;
use vstd::prelude::*;
use crate::blocks::Blocks;
use crate::generation::dice::flip;
use crate::storage::WorldStorage;

verus! {

/// The number of rows that the dirt pass writes.
pub const DIRT_ROWS: usize = 5;

/// The tile that a toss stands for: dirt for heads, air for tails.
pub open spec fn spec_scattered(coin: bool) -> Blocks {
    if coin {
        Blocks::Dirt
    } else {
        Blocks::Air
    }
}

/// The tile that a toss stands for.
pub fn scattered(coin: bool) -> (tile: Blocks)
    ensures
        tile == spec_scattered(coin),
{
    if coin {
        Blocks::Dirt
    } else {
        Blocks::Air
    }
}

/// Fills the lowest rows of the world with dirt and air, one toss for each
/// tile. Whatever the tosses, every tile of these rows ends as dirt or as air,
/// and no other tile changes.
pub fn generate(world: &mut WorldStorage, rng: &mut ThreadRng)
    requires
        old(world).wf(),
    ensures
        final(world).wf(),
        final(world).spec_same_shape(old(world)),
        forall|x: int, y: int|
            0 <= x < old(world).spec_width() && 0 <= y < DIRT_ROWS && y < old(world).spec_height()
                ==> #[trigger] final(world).spec_tile(x, y) == Some(Blocks::Dirt) || final(world).spec_tile(x, y) == Some(Blocks::Air),
        forall|x: int, y: int|
            !(0 <= x < old(world).spec_width() && 0 <= y < DIRT_ROWS && y < old(world).spec_height())
                ==> #[trigger] final(world).spec_tile(x, y) == old(world).spec_tile(x, y),
{
    let width = world.get_width();
    let height = world.get_height();
    if height == 0 {
        return ;
    }
    let ghost before = *world;
    let mut y: usize = 0;
    while y < DIRT_ROWS
        invariant
            world.wf(),
            world.spec_same_shape(&before),
            width == before.spec_width(),
            height == before.spec_height(),
            height > 0,
            y <= DIRT_ROWS,
            forall|ox: int, oy: int|
                0 <= ox < width && 0 <= oy < y ==> #[trigger] world.spec_tile(ox, oy) == Some(
                    Blocks::Dirt,
                ) || world.spec_tile(ox, oy) == Some(Blocks::Air),
            forall|ox: int, oy: int|
                !(0 <= ox < width && 0 <= oy < y) ==> #[trigger] world.spec_tile(ox, oy)
                    == before.spec_tile(ox, oy),
        decreases DIRT_ROWS - y,
    {
        let mut x: usize = 0;
        while x < width
            invariant
                world.wf(),
                world.spec_same_shape(&before),
                width == before.spec_width(),
                height == before.spec_height(),
                height > 0,
                y < DIRT_ROWS,
                x <= width,
                forall|ox: int, oy: int|
                    0 <= ox < width && (0 <= oy < y || (oy == y && ox < x)) ==> #[trigger] world.spec_tile(
                        ox,
                        oy,
                    ) == Some(Blocks::Dirt) || world.spec_tile(ox, oy) == Some(Blocks::Air),
                forall|ox: int, oy: int|
                    !(0 <= ox < width && (0 <= oy < y || (oy == y && ox < x)))
                        ==> #[trigger] world.spec_tile(ox, oy) == before.spec_tile(ox, oy),
            decreases width - x,
        {
            let coin = flip(rng);
            world.place(x, y, scattered(coin));
            x += 1;
        }
        y += 1;
    }
}

} // verus!
