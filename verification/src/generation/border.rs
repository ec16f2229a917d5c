//! The border pass: a frame of border tiles along the four edges of the world.

use vstd::prelude::*;
use crate::blocks::Blocks;
use crate::storage::WorldStorage;

verus! {

/// Whether the border pass writes a border tile at a position.
pub open spec fn spec_on_border(world: &WorldStorage, x: int, y: int) -> bool {
    &&& 0 <= x < world.spec_width()
    &&& 0 <= y < world.spec_height()
    &&& (x == 0 || x == world.spec_width() - 1 || y == 0 || y == world.spec_height() - 1)
}

/// Puts border tiles along the four edges of the world: the bottom and the
/// top row, the left and the right column. Every other tile stays as it is.
#[allow(dead_code)]
pub fn generate(world: &mut WorldStorage)
    requires
        old(world).wf(),
    ensures
        final(world).wf(),
        final(world).spec_same_shape(old(world)),
        forall|x: int, y: int| #[trigger]
            final(world).spec_tile(x, y) == if spec_on_border(old(world), x, y) {
                Some(Blocks::Border)
            } else {
                old(world).spec_tile(x, y)
            },
{
    let width = world.get_width();
    let height = world.get_height();
    if width == 0 || height == 0 {
        return ;
    }
    let ghost before = *world;
    let mut x: usize = 0;
    while x < width
        invariant
            world.wf(),
            world.spec_same_shape(&before),
            width == before.spec_width(),
            height == before.spec_height(),
            height > 0,
            x <= width,
            forall|ox: int, oy: int| #[trigger]
                world.spec_tile(ox, oy) == if 0 <= ox < x && (oy == 0 || oy == height - 1) {
                    Some(Blocks::Border)
                } else {
                    before.spec_tile(ox, oy)
                },
        decreases width - x,
    {
        world.place(x, 0, Blocks::Border);
        world.place(x, height - 1, Blocks::Border);
        x += 1;
    }
    let mut y: usize = 0;
    while y < height
        invariant
            world.wf(),
            world.spec_same_shape(&before),
            width == before.spec_width(),
            height == before.spec_height(),
            width > 0,
            y <= height,
            forall|ox: int, oy: int| #[trigger]
                world.spec_tile(ox, oy) == if (0 <= ox < width && (oy == 0 || oy == height - 1)) || ((ox
                    == 0 || ox == width - 1) && 0 <= oy < y) {
                    Some(Blocks::Border)
                } else {
                    before.spec_tile(ox, oy)
                },
        decreases height - y,
    {
        world.place(0, y, Blocks::Border);
        world.place(width - 1, y, Blocks::Border);
        y += 1;
    }
}

} // verus!
