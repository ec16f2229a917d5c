//! The surface pass: each column gets a grass tile at a given height and air
//! above it.

use vstd::prelude::*;
use crate::blocks::Blocks;
use crate::storage::WorldStorage;

verus! {

/// What column `x` holds at height `y` after the pass, given the tile before:
/// grass at the column's height, air above it, the old tile below it, and the
/// old tile throughout where no height is given for the column.
pub open spec fn spec_shaped(before: Option<Blocks>, heights: Seq<usize>, x: int, y: int) -> Option<
    Blocks,
> {
    if 0 <= x < heights.len() && y == heights[x] {
        Some(Blocks::Grass)
    } else if 0 <= x < heights.len() && y > heights[x] {
        Some(Blocks::Air)
    } else {
        before
    }
}

/// Shapes one column: grass at `top`, air from there to the top of the world.
fn shape_column(world: &mut WorldStorage, x: usize, top: usize)
    requires
        old(world).wf(),
        x < old(world).spec_width(),
    ensures
        final(world).wf(),
        final(world).spec_same_shape(old(world)),
        forall|ox: int, oy: int| #[trigger]
            final(world).spec_tile(ox, oy) == if ox == x && top <= oy < old(world).spec_height() {
                if oy == top {
                    Some(Blocks::Grass)
                } else {
                    Some(Blocks::Air)
                }
            } else {
                old(world).spec_tile(ox, oy)
            },
{
    let height = world.get_height();
    if top >= height {
        return ;
    }
    let ghost before = *world;
    world.place(x, top, Blocks::Grass);
    let mut y: usize = top + 1;
    while y < height
        invariant
            world.wf(),
            world.spec_same_shape(&before),
            x < before.spec_width(),
            height == before.spec_height(),
            top < y <= height,
            forall|ox: int, oy: int| #[trigger]
                world.spec_tile(ox, oy) == if ox == x && top <= oy < y {
                    if oy == top {
                        Some(Blocks::Grass)
                    } else {
                        Some(Blocks::Air)
                    }
                } else {
                    before.spec_tile(ox, oy)
                },
        decreases height - y,
    {
        world.place(x, y, Blocks::Air);
        y += 1;
    }
}

/// Shapes the surface of the world from one height for each column: the tile
/// at the column's height becomes grass and every tile above it air. Tiles
/// below the height, and columns without a height, stay as they are.
pub fn generate(world: &mut WorldStorage, heights: &Vec<usize>)
    requires
        old(world).wf(),
    ensures
        final(world).wf(),
        final(world).spec_same_shape(old(world)),
        forall|x: int, y: int| #[trigger]
            final(world).spec_tile(x, y) == if 0 <= x < old(world).spec_width() && 0 <= y < old(
                world
            ).spec_height() {
                spec_shaped(old(world).spec_tile(x, y), heights@, x, y)
            } else {
                old(world).spec_tile(x, y)
            },
{
    let width = world.get_width();
    let ghost before = *world;
    let mut x: usize = 0;
    while x < width
        invariant
            world.wf(),
            world.spec_same_shape(&before),
            width == before.spec_width(),
            x <= width,
            forall|ox: int, oy: int| #[trigger]
                world.spec_tile(ox, oy) == if 0 <= ox < x && 0 <= oy < before.spec_height() {
                    spec_shaped(before.spec_tile(ox, oy), heights@, ox, oy)
                } else {
                    before.spec_tile(ox, oy)
                },
        decreases width - x,
    {
        if x < heights.len() {
            shape_column(world, x, heights[x]);
        }
        x += 1;
    }
}

} // verus!
