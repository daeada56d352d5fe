//! Simulation core of a small tile-based strategy prototype: a procedurally
//! generated tile world, a quadtree spatial index over it, and autonomous
//! miner agents that wander and harvest resources.
//!
//! All world coordinates are integers in milli-units: one grid sprite is
//! 64_000 milli-units wide, so fractional screen positions stay exact.

use vstd::prelude::*;

pub mod geom;
pub mod miners;
pub mod quadtree;
mod rng;
pub mod selection;
pub mod shade;
pub mod tiles;

verus! {

/// Texture identifier of the miner sprite.
pub const SPRITE_MINER: u32 = 0;

/// Texture identifier of the water sprite (not walkable).
pub const SPRITE_WATER: u32 = 1;

/// Texture identifier of the grass sprite.
pub const SPRITE_GRASS: u32 = 2;

/// Texture identifier of the clay sprite.
pub const SPRITE_CLAY: u32 = 3;

/// Texture identifier of the stone sprite (high terrain, not walkable).
pub const SPRITE_STONE: u32 = 4;

/// Texture identifier of the tree sprite (a wood-bearing resource).
pub const SPRITE_TREE: u32 = 5;

/// Texture identifier of the wood sprite (the carryable byproduct of a tree).
pub const SPRITE_WOOD: u32 = 6;

/// Resource kind carried by a tree tile.
pub const RESOURCE_WOOD: u8 = 1;

/// Every world coordinate the simulation handles stays within this bound
/// (in milli-units), which keeps all distance arithmetic inside i64/u64.
pub const COORD_LIMIT: i64 = 1_000_000_000;

/// One drawable sprite of the per-frame snapshot: a position, a texture
/// identifier, and the selection highlight flag. The presentation layer
/// turns these into whatever its vertex format needs.
#[derive(Clone, Copy, PartialEq, Eq, Structural, Debug)]
pub struct Instance {
    pub translate: geom::Pos,
    pub tex_id: u32,
    pub is_selected: bool,
}

/// The instance a tile is drawn as.
pub open spec fn instance_of(t: tiles::Tile) -> Instance {
    Instance { translate: t.position, tex_id: t.tex_id, is_selected: t.is_selected }
}

/// Writes the drawable snapshot of `tiles` into `instances` starting at
/// `start_idx`, leaving every other slot untouched.
pub fn fill_instances(instances: &mut Vec<Instance>, start_idx: usize, tiles: &Vec<tiles::Tile>)
    requires
        start_idx + tiles@.len() <= old(instances)@.len(),
    ensures
        final(instances)@.len() == old(instances)@.len(),
        forall|i: int|
            0 <= i < tiles@.len() ==> final(instances)@[start_idx + i] == instance_of(
                #[trigger] tiles@[i],
            ),
        forall|j: int|
            0 <= j < old(instances)@.len() && !(start_idx <= j < start_idx + tiles@.len())
                ==> final(instances)@[j] == old(instances)@[j],
{
    let mut i: usize = 0;
    while i < tiles.len()
        invariant
            i <= tiles@.len(),
            start_idx + tiles@.len() <= instances@.len(),
            instances@.len() == old(instances)@.len(),
            forall|j: int|
                0 <= j < i ==> instances@[start_idx + j] == instance_of(#[trigger] tiles@[j]),
            forall|j: int|
                0 <= j < old(instances)@.len() && !(start_idx <= j < start_idx + i)
                    ==> instances@[j] == old(instances)@[j],
        decreases tiles@.len() - i,
    {
        let cap = instances.len();
        proof {
            assert(start_idx + i < cap);
        }
        let t = &tiles[i];
        instances[start_idx + i] = Instance {
            translate: t.position,
            tex_id: t.tex_id,
            is_selected: t.is_selected,
        };
        i = i + 1;
    }
}

} // verus!
