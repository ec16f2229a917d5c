//! The cave pass: stone tiles that a mask marks are hollowed out to air.

use vstd::prelude::*;
use crate::blocks::Blocks;
use crate::storage::WorldStorage;

verus! {

/// Whether a mask marks the tile at `(x, y)` of a world `width` tiles wide.
/// The mask is in row-major order; what lies beyond its end is not marked.
pub open spec fn spec_marked(mask: Seq<bool>, width: int, x: int, y: int) -> bool {
    0 <= x + width * y < mask.len() && mask[x + width * y]
}

/// What a tile becomes in the cave pass: air where it is stone and marked,
/// itself otherwise.
pub open spec fn spec_carved(before: Option<Blocks>, marked: bool) -> Option<Blocks> {
    if before == Some(Blocks::Stone) && marked {
        Some(Blocks::Air)
    } else {
        before
    }
}

/// Whether a mask marks the tile at `(x, y)`.
pub fn marked(mask: &Vec<bool>, width: usize, x: usize, y: usize) -> (hit: bool)
    requires
        width <= i32::MAX,
        x < width,
        y <= i32::MAX,
    ensures
        hit == spec_marked(mask@, width as int, x as int, y as int),
{
    assert(width * y <= 0x7fff_ffff * 0x7fff_ffff) by (nonlinear_arith)
        requires
            0 <= width <= 0x7fff_ffff,
            0 <= y <= 0x7fff_ffff,
    ;
    let idx: u64 = x as u64 + width as u64 * y as u64;
    if idx < mask.len() as u64 {
        mask[idx as usize]
    } else {
        false
    }
}

/// Hollows out caves: every stone tile of the world that the mask marks
/// becomes air. No other tile changes.
pub fn generate(world: &mut WorldStorage, mask: &Vec<bool>)
    requires
        old(world).wf(),
    ensures
        final(world).wf(),
        final(world).spec_same_shape(old(world)),
        forall|x: int, y: int| #[trigger]
            final(world).spec_tile(x, y) == if 0 <= x < old(world).spec_width() && 0 <= y < old(
                world
            ).spec_height() {
                spec_carved(
                    old(world).spec_tile(x, y),
                    spec_marked(mask@, old(world).spec_width(), x, y),
                )
            } else {
                old(world).spec_tile(x, y)
            },
{
    let width = world.get_width();
    let height = world.get_height();
    let ghost before = *world;
    let mut y: usize = 0;
    while y < height
        invariant
            world.wf(),
            world.spec_same_shape(&before),
            width == before.spec_width(),
            height == before.spec_height(),
            y <= height,
            forall|ox: int, oy: int| #[trigger]
                world.spec_tile(ox, oy) == if 0 <= ox < width && 0 <= oy < y {
                    spec_carved(before.spec_tile(ox, oy), spec_marked(mask@, width as int, ox, oy))
                } else {
                    before.spec_tile(ox, oy)
                },
        decreases height - y,
    {
        let mut x: usize = 0;
        while x < width
            invariant
                world.wf(),
                world.spec_same_shape(&before),
                width == before.spec_width(),
                height == before.spec_height(),
                y < height,
                x <= width,
                forall|ox: int, oy: int| #[trigger]
                    world.spec_tile(ox, oy) == if 0 <= ox < width && (0 <= oy < y || (oy == y && ox
                        < x)) {
                        spec_carved(
                            before.spec_tile(ox, oy),
                            spec_marked(mask@, width as int, ox, oy),
                        )
                    } else {
                        before.spec_tile(ox, oy)
                    },
            decreases width - x,
        {
            let tile = world.get_tile_usize(x, y);
            if tile == Some(Blocks::Stone) && marked(mask, width, x, y) {
                world.place(x, y, Blocks::Air);
            }
            x += 1;
        }
        y += 1;
    }
}

} // verus!
