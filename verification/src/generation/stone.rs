//! The stone pass: below a given height each column turns to stone, with a
//! crust at the top in which stone and dirt mix at random.

use rand::rngs::ThreadRng;
use vstd::prelude::*;
use crate::blocks::Blocks;
use crate::generation::dice::roll;
use crate::storage::WorldStorage;

verus! {

/// The thickness of the crust in which stone and dirt mix.
pub const STONE_THRESHOLD: usize = 5;

/// The height up to which the pass fills column `x`: the height given for the
/// column, cut off at the top of the world; zero where none is given.
pub open spec fn spec_stone_top(heights: Seq<usize>, x: int, height: int) -> int {
    if 0 <= x < heights.len() {
        if heights[x] <= height {
            heights[x] as int
        } else {
            height
        }
    } else {
        0
    }
}

/// The tile at height `y` of a column filled up to `top`: stone below the
/// crust; in the crust dirt or stone by the toss.
pub open spec fn spec_band_tile(y: int, top: int, coin: bool) -> Blocks {
    if y + STONE_THRESHOLD < top {
        Blocks::Stone
    } else if coin {
        Blocks::Dirt
    } else {
        Blocks::Stone
    }
}

/// The tile at height `y` of a column filled up to `top`, given the toss for it.
pub fn band_tile(y: usize, top: usize, coin: bool) -> (tile: Blocks)
    requires
        y < top,
    ensures
        tile == spec_band_tile(y as int, top as int, coin),
{
    if top - y > STONE_THRESHOLD {
        Blocks::Stone
    } else if coin {
        Blocks::Dirt
    } else {
        Blocks::Stone
    }
}

/// Fills one column from `top` down to the bottom.
fn fill_column(rng: &mut ThreadRng, world: &mut WorldStorage, x: usize, top: usize)
    requires
        old(world).wf(),
        x < old(world).spec_width(),
        top <= old(world).spec_height(),
    ensures
        final(world).wf(),
        final(world).spec_same_shape(old(world)),
        forall|ox: int, oy: int|
            ox == x && 0 <= oy < top ==> #[trigger] final(world).spec_tile(ox, oy) == Some(
                spec_band_tile(oy, top as int, true),
            ) || final(world).spec_tile(ox, oy) == Some(spec_band_tile(oy, top as int, false)),
        forall|ox: int, oy: int|
            !(ox == x && 0 <= oy < top) ==> #[trigger] final(world).spec_tile(ox, oy) == old(
                world
            ).spec_tile(ox, oy),
{
    let ghost before = *world;
    let mut y: usize = top;
    while y > 0
        invariant
            world.wf(),
            world.spec_same_shape(&before),
            x < before.spec_width(),
            top <= before.spec_height(),
            y <= top,
            forall|ox: int, oy: int|
                ox == x && y <= oy < top ==> #[trigger] world.spec_tile(ox, oy) == Some(
                    spec_band_tile(oy, top as int, true),
                ) || world.spec_tile(ox, oy) == Some(spec_band_tile(oy, top as int, false)),
            forall|ox: int, oy: int|
                !(ox == x && y <= oy < top) ==> #[trigger] world.spec_tile(ox, oy) == before.spec_tile(
                    ox,
                    oy,
                ),
        decreases y,
    {
        y -= 1;
        let coin = if top - y > STONE_THRESHOLD {
            false
        } else {
            roll(rng, 1, 2)
        };
        world.place(x, y, band_tile(y, top, coin));
    }
}

/// Turns the world to stone below the given heights, one height for each
/// column. A column is filled from its height, cut off at the top of the world,
/// down to the bottom: stone below the crust and, in the crust, dirt or stone
/// with even chances. A column without a height, and every tile at or above
/// its column's height, stays as it is.
pub fn generate(rng: &mut ThreadRng, world: &mut WorldStorage, heights: &Vec<usize>)
    requires
        old(world).wf(),
    ensures
        final(world).wf(),
        final(world).spec_same_shape(old(world)),
        forall|x: int, y: int|
            0 <= x < old(world).spec_width() && 0 <= y < spec_stone_top(
                heights@,
                x,
                old(world).spec_height(),
            ) ==> #[trigger] final(world).spec_tile(x, y) == Some(
                spec_band_tile(y, spec_stone_top(heights@, x, old(world).spec_height()), true),
            ) || final(world).spec_tile(x, y) == Some(
                spec_band_tile(y, spec_stone_top(heights@, x, old(world).spec_height()), false),
            ),
        forall|x: int, y: int|
            !(0 <= x < old(world).spec_width() && 0 <= y < spec_stone_top(
                heights@,
                x,
                old(world).spec_height(),
            )) ==> #[trigger] final(world).spec_tile(x, y) == old(world).spec_tile(x, y),
{
    let width = world.get_width();
    let height = world.get_height();
    let ghost before = *world;
    let mut x: usize = 0;
    while x < width
        invariant
            world.wf(),
            world.spec_same_shape(&before),
            width == before.spec_width(),
            height == before.spec_height(),
            x <= width,
            forall|ox: int, oy: int|
                0 <= ox < x && 0 <= oy < spec_stone_top(heights@, ox, height as int)
                    ==> #[trigger] world.spec_tile(ox, oy) == Some(
                    spec_band_tile(oy, spec_stone_top(heights@, ox, height as int), true),
                ) || world.spec_tile(ox, oy) == Some(
                    spec_band_tile(oy, spec_stone_top(heights@, ox, height as int), false),
                ),
            forall|ox: int, oy: int|
                !(0 <= ox < x && 0 <= oy < spec_stone_top(heights@, ox, height as int))
                    ==> #[trigger] world.spec_tile(ox, oy) == before.spec_tile(ox, oy),
        decreases width - x,
    {
        let top = if x < heights.len() {
            if heights[x] <= height {
                heights[x]
            } else {
                height
            }
        } else {
            0
        };
        fill_column(rng, world, x, top);
        x += 1;
    }
}

} // verus!
