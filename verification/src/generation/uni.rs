//! The whole terrain in one go: dirt throughout, then the surface, the stone
//! and the cave pass.

use rand::rngs::ThreadRng;
use vstd::prelude::*;
use crate::blocks::Blocks;
use crate::generation::caves;
use crate::generation::caves::spec_carved;
use crate::generation::caves::spec_marked;
use crate::generation::stone;
use crate::generation::stone::spec_band_tile;
use crate::generation::stone::spec_stone_top;
use crate::generation::surface;
use crate::generation::surface::spec_shaped;
use crate::storage::WorldStorage;

verus! {

/// Fills the whole declared extent with one kind of tile.
pub fn fill(world: &mut WorldStorage, tile: Blocks)
    requires
        old(world).wf(),
    ensures
        final(world).wf(),
        final(world).spec_same_shape(old(world)),
        forall|x: int, y: int| #[trigger]
            final(world).spec_tile(x, y) == if 0 <= x < old(world).spec_width() && 0 <= y < old(
                world
            ).spec_height() {
                Some(tile)
            } else {
                old(world).spec_tile(x, y)
            },
{
    let width = world.get_width();
    let height = world.get_height();
    let ghost before = *world;
    let mut y: usize = 0;
    while y < height
        invariant
            world.wf(),
            world.spec_same_shape(&before),
            width == before.spec_width(),
            height == before.spec_height(),
            y <= height,
            forall|ox: int, oy: int| #[trigger]
                world.spec_tile(ox, oy) == if 0 <= ox < width && 0 <= oy < y {
                    Some(tile)
                } else {
                    before.spec_tile(ox, oy)
                },
        decreases height - y,
    {
        let mut x: usize = 0;
        while x < width
            invariant
                world.wf(),
                world.spec_same_shape(&before),
                width == before.spec_width(),
                height == before.spec_height(),
                y < height,
                x <= width,
                forall|ox: int, oy: int| #[trigger]
                    world.spec_tile(ox, oy) == if 0 <= ox < width && (0 <= oy < y || (oy == y && ox
                        < x)) {
                        Some(tile)
                    } else {
                        before.spec_tile(ox, oy)
                    },
            decreases width - x,
        {
            world.place(x, y, tile);
            x += 1;
        }
        y += 1;
    }
}

/// The tile at `(x, y)` after the whole terrain is generated, given the toss
/// that the stone pass made for it: dirt, shaped by the surface heights,
/// overlaid by the stone band, hollowed out by the cave mask.
pub open spec fn spec_terrain_tile(
    surface: Seq<usize>,
    stone: Seq<usize>,
    caves: Seq<bool>,
    width: int,
    height: int,
    x: int,
    y: int,
    coin: bool,
) -> Option<Blocks> {
    let shaped = spec_shaped(Some(Blocks::Dirt), surface, x, y);
    let banded = if y < spec_stone_top(stone, x, height) {
        Some(spec_band_tile(y, spec_stone_top(stone, x, height), coin))
    } else {
        shaped
    };
    spec_carved(banded, spec_marked(caves, width, x, y))
}

/// Generates the whole terrain of a world: fills it with dirt, shapes the
/// surface from `surface`, lays stone below `stone`, and hollows out the caves
/// that `caves` marks. Every tile of the world ends as one of the two tiles
/// that the toss of the stone pass leaves open; nothing outside the declared
/// extent changes.
pub fn generate(
    rng: &mut ThreadRng,
    world: &mut WorldStorage,
    surface: &Vec<usize>,
    stone: &Vec<usize>,
    caves: &Vec<bool>,
)
    requires
        old(world).wf(),
    ensures
        final(world).wf(),
        final(world).spec_same_shape(old(world)),
        forall|x: int, y: int|
            0 <= x < old(world).spec_width() && 0 <= y < old(world).spec_height()
                ==> #[trigger] final(world).spec_tile(x, y) == spec_terrain_tile(
                surface@,
                stone@,
                caves@,
                old(world).spec_width(),
                old(world).spec_height(),
                x,
                y,
                true,
            ) || final(world).spec_tile(x, y) == spec_terrain_tile(
                surface@,
                stone@,
                caves@,
                old(world).spec_width(),
                old(world).spec_height(),
                x,
                y,
                false,
            ),
        forall|x: int, y: int|
            !(0 <= x < old(world).spec_width() && 0 <= y < old(world).spec_height())
                ==> #[trigger] final(world).spec_tile(x, y) == old(world).spec_tile(x, y),
{
    fill(world, Blocks::Dirt);
    let ghost filled = *world;
    surface::generate(world, surface);
    let ghost shaped = *world;
    stone::generate(rng, world, stone);
    let ghost banded = *world;
    caves::generate(world, caves);
    proof {
        assert forall|x: int, y: int|
            0 <= x < old(world).spec_width() && 0 <= y < old(world).spec_height() implies #[trigger] world.spec_tile(
            x,
            y,
        ) == spec_terrain_tile(
            surface@,
            stone@,
            caves@,
            old(world).spec_width(),
            old(world).spec_height(),
            x,
            y,
            true,
        ) || world.spec_tile(x, y) == spec_terrain_tile(
            surface@,
            stone@,
            caves@,
            old(world).spec_width(),
            old(world).spec_height(),
            x,
            y,
            false,
        ) by {
            assert(filled.spec_tile(x, y) == Some(Blocks::Dirt));
            assert(shaped.spec_tile(x, y) == spec_shaped(Some(Blocks::Dirt), surface@, x, y));
            let top = spec_stone_top(stone@, x, old(world).spec_height());
            assert(world.spec_tile(x, y) == spec_carved(
                banded.spec_tile(x, y),
                spec_marked(caves@, old(world).spec_width(), x, y),
            ));
            if 0 <= y < top {
                assert(banded.spec_tile(x, y) == Some(spec_band_tile(y, top, true))
                    || banded.spec_tile(x, y) == Some(spec_band_tile(y, top, false)));
            } else {
                assert(banded.spec_tile(x, y) == shaped.spec_tile(x, y));
            }
        }
        assert forall|x: int, y: int|
            !(0 <= x < old(world).spec_width() && 0 <= y < old(
                world
            ).spec_height()) implies #[trigger] world.spec_tile(x, y) == old(world).spec_tile(x, y) by {
            assert(filled.spec_tile(x, y) == old(world).spec_tile(x, y));
            assert(shaped.spec_tile(x, y) == filled.spec_tile(x, y));
            assert(banded.spec_tile(x, y) == shaped.spec_tile(x, y));
        }
    }
}

} // verus!
