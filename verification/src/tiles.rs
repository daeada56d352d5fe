//! The tile world: generates tiles from a heightmap, classifies them as
//! walkable or resource-bearing, and keeps a quadtree spatial index in
//! sync with tile membership.
//!
//! Positions are in milli-units: one sprite is `SPRITE_SIZE` wide. A
//! heightmap sample for grid cell `(x, y)` lives at index `x * size_y + y`
//! of the sample vector. Every randomized decision enters as an explicit
//! draw (a uniform number below a fixed weight total), so generation is a
//! function of the heightmap and the draws.

use vstd::prelude::*;

use crate::RESOURCE_WOOD;
use crate::SPRITE_CLAY;
use crate::SPRITE_GRASS;
use crate::SPRITE_STONE;
use crate::SPRITE_TREE;
use crate::SPRITE_WATER;
use crate::geom::Pos;
use crate::geom::dist_sq;
use crate::geom::dist_sq_spec;
use crate::quadtree::QuadTree;
use crate::rng::rand_below;
use crate::selection::Selection;

verus! {

/// Width of one sprite in milli-units.
pub const SPRITE_SIZE: i64 = 64_000;

/// Horizontal half-sprite step of the isometric projection.
pub const STEP_X: i64 = 32_000;

/// Vertical quarter-ish step of the isometric projection.
pub const STEP_Y: i64 = 17_000;

/// Number of terrain bands the heightmap range is divided into.
pub const MAX_LAYERS: u8 = 5;

/// A ground draw below this yields grass, at or above it clay.
pub const GRASS_WEIGHT: usize = 20;

/// Ground draws are uniform below this total (grass 20, clay 3).
pub const GROUND_TOTAL: usize = 23;

/// A resource draw equal to this value places a tree; the other 20
/// outcomes place nothing.
pub const TREE_DRAW: usize = 20;

/// Resource draws are uniform below this total.
pub const RESOURCE_TOTAL: usize = 21;

/// Resource count a fresh resource tile starts with.
pub const START_RESOURCE_COUNT: u8 = 5;

/// Upper bound on each grid dimension, keeping every world coordinate
/// within `COORD_LIMIT`.
pub const MAX_GRID: usize = 10_000;

/// A unit cell of the world: position, visual kind, selection flag and
/// optional resource state. Identity is the index into the world's tile
/// sequence.
#[derive(Clone, Copy, PartialEq, Debug)]
pub struct Tile {
    pub position: Pos,
    pub tex_id: u32,
    pub is_selected: bool,
    pub resource_id: Option<u8>,
    pub resource_count: u8,
    pub can_be_carried: bool,
}

impl Tile {
    /// The position is bounded and the resource count is zero whenever
    /// the resource kind is absent.
    pub open spec fn wf(self) -> bool {
        &&& self.position.bounded()
        &&& self.resource_id is None ==> self.resource_count == 0
    }

    /// A fresh, unselected tile; a resource kind starts with the fixed
    /// initial resource count.
    pub fn new(position: Pos, tex_id: u32, resource_id: Option<u8>) -> (t: Tile)
        requires
            position.bounded(),
        ensures
            t == (Tile {
                position,
                tex_id,
                resource_id,
                resource_count: if resource_id is Some {
                    START_RESOURCE_COUNT
                } else {
                    0
                },
                can_be_carried: false,
                is_selected: false,
            }),
            t.wf(),
    {
        let resource_count: u8 = match resource_id {
            Some(_) => START_RESOURCE_COUNT,
            None => 0,
        };
        Tile { position, tex_id, resource_id, resource_count, can_be_carried: false, is_selected: false }
    }
}

/// The smallest sample of the heightmap (255 for an empty map).
pub open spec fn lo_of(s: Seq<u8>) -> u8
    decreases s.len(),
{
    if s.len() == 0 {
        255
    } else {
        let m = lo_of(s.drop_last());
        if s.last() < m {
            s.last()
        } else {
            m
        }
    }
}

/// The largest sample of the heightmap (0 for an empty map).
pub open spec fn hi_of(s: Seq<u8>) -> u8
    decreases s.len(),
{
    if s.len() == 0 {
        0
    } else {
        let m = hi_of(s.drop_last());
        if s.last() > m {
            s.last()
        } else {
            m
        }
    }
}

/// Height of one terrain band: the sample range divided into
/// `MAX_LAYERS` bands (zero for a flat map).
pub open spec fn layer_step_of(s: Seq<u8>) -> int {
    if hi_of(s) >= lo_of(s) {
        (hi_of(s) - lo_of(s)) / (MAX_LAYERS as int)
    } else {
        0
    }
}

/// Terrain classification of one sample: water below the selected band,
/// stone above twice the selected band, otherwise the weighted ground
/// choice between grass and clay. A flat map (band height zero) always
/// takes the ground path.
pub open spec fn classify_spec(sample: u8, layer_idx: u8, step: int, gdraw: usize) -> u32 {
    if step > 0 && (sample as int) < layer_idx * step {
        SPRITE_WATER
    } else if step > 0 && (sample as int) > 2 * (layer_idx * step) {
        SPRITE_STONE
    } else if gdraw < GRASS_WEIGHT {
        SPRITE_GRASS
    } else {
        SPRITE_CLAY
    }
}

/// World position of grid cell `(x, y)`: the isometric projection used
/// for rendering, exact in milli-units.
pub open spec fn iso_pos(x: int, y: int, size_y: int) -> Pos {
    Pos {
        x: (STEP_X * y - STEP_X * x) as i64,
        y: (STEP_Y * size_y - STEP_Y * x - STEP_Y * y) as i64,
    }
}

/// Visual kind generated for cell `k` of the heightmap.
pub open spec fn cell_tex(samples: Seq<u8>, gdraws: Seq<usize>, layer_idx: u8, k: int) -> u32 {
    classify_spec(samples[k], layer_idx, layer_step_of(samples), gdraws[k])
}

/// A generated visual kind permits walking (it is neither water nor
/// stone, which for generated cells means grass or clay).
pub open spec fn tex_walkable(tex: u32) -> bool {
    tex != SPRITE_WATER && tex != SPRITE_STONE
}

/// Cell `k` rolls a co-located tree: it must be walkable and its
/// resource draw must hit the tree outcome.
pub open spec fn cell_tree(
    samples: Seq<u8>,
    gdraws: Seq<usize>,
    rdraws: Seq<usize>,
    layer_idx: u8,
    k: int,
) -> bool {
    tex_walkable(cell_tex(samples, gdraws, layer_idx, k)) && rdraws[k] == TREE_DRAW
}

/// Number of cells below `upto` that roll a tree; the grid tile of cell
/// `k` therefore sits at sequence index `k + tree_count(.., k)`.
pub open spec fn tree_count(
    samples: Seq<u8>,
    gdraws: Seq<usize>,
    rdraws: Seq<usize>,
    layer_idx: u8,
    upto: int,
) -> int
    decreases upto,
{
    if upto <= 0 {
        0
    } else {
        tree_count(samples, gdraws, rdraws, layer_idx, upto - 1) + if cell_tree(
            samples,
            gdraws,
            rdraws,
            layer_idx,
            upto - 1,
        ) {
            1int
        } else {
            0int
        }
    }
}

/// `tree_count` is non-negative, monotone, and grows by at most one per
/// cell.
pub proof fn lemma_tree_count_mono(
    samples: Seq<u8>,
    gdraws: Seq<usize>,
    rdraws: Seq<usize>,
    layer_idx: u8,
    a: int,
    b: int,
)
    requires
        0 <= a <= b,
    ensures
        0 <= tree_count(samples, gdraws, rdraws, layer_idx, a),
        tree_count(samples, gdraws, rdraws, layer_idx, a) <= tree_count(
            samples,
            gdraws,
            rdraws,
            layer_idx,
            b,
        ),
        tree_count(samples, gdraws, rdraws, layer_idx, b) - tree_count(
            samples,
            gdraws,
            rdraws,
            layer_idx,
            a,
        ) <= b - a,
    decreases b,
{
    if a < b {
        lemma_tree_count_mono(samples, gdraws, rdraws, layer_idx, a, b - 1);
    } else {
        lemma_tree_count_mono_zero(samples, gdraws, rdraws, layer_idx, a);
    }
}

/// `tree_count` of a non-negative prefix is non-negative.
proof fn lemma_tree_count_mono_zero(
    samples: Seq<u8>,
    gdraws: Seq<usize>,
    rdraws: Seq<usize>,
    layer_idx: u8,
    a: int,
)
    requires
        0 <= a,
    ensures
        0 <= tree_count(samples, gdraws, rdraws, layer_idx, a),
    decreases a,
{
    if a > 0 {
        lemma_tree_count_mono_zero(samples, gdraws, rdraws, layer_idx, a - 1);
    }
}

/// One generation insert keeps every tile indexed at its position: the
/// tiles already indexed stay indexed (their leaf either is untouched or
/// gains the new identifier at the end), and the freshly pushed tile is
/// indexed by the insert itself.
proof fn lemma_gen_index_step(
    tree_pre: QuadTree,
    tree_post: QuadTree,
    pos: Pos,
    new_id: usize,
    tiles_pre: Seq<Tile>,
    tiles_post: Seq<Tile>,
)
    requires
        tree_pre.wf(),
        tree_pre.contains_pt(pos),
        tree_pre.inserted(tree_post, pos, new_id),
        new_id as int == tiles_pre.len(),
        tiles_post.len() == tiles_pre.len() + 1,
        tiles_post[new_id as int].position == pos,
        forall|i2: int| 0 <= i2 < tiles_pre.len() ==> tiles_post[i2] == tiles_pre[i2],
        forall|i2: int|
            0 <= i2 < tiles_pre.len() ==> tree_pre.contains_pt(
                (#[trigger] tiles_pre[i2]).position,
            ) && tree_pre.members_at(tiles_pre[i2].position).contains(i2 as usize),
    ensures
        tree_pre.rect_eq(tree_post),
        forall|i2: int|
            0 <= i2 < tiles_post.len() ==> tree_post.contains_pt(
                (#[trigger] tiles_post[i2]).position,
            ) && tree_post.members_at(tiles_post[i2].position).contains(i2 as usize),
{
    crate::quadtree::lemma_find_after_insert(tree_pre, tree_post, pos, new_id);
    assert(tree_pre.rect_eq(tree_post));
    assert forall|i2: int|
        0 <= i2 < tiles_post.len() implies tree_post.contains_pt(
        (#[trigger] tiles_post[i2]).position,
    ) && tree_post.members_at(tiles_post[i2].position).contains(i2 as usize) by {
        if i2 < tiles_pre.len() {
            let q = tiles_pre[i2].position;
            crate::quadtree::lemma_insert_members_at(tree_pre, tree_post, pos, new_id, q);
            let sq = tree_pre.members_at(q);
            let m = choose|m: int| 0 <= m < sq.len() && sq[m] == i2 as usize;
            if tree_post.members_at(q) == sq.push(new_id) {
                assert(sq.push(new_id)[m] == i2 as usize);
            }
        } else {
            let grown = tree_post.members_at(pos);
            assert(grown == tree_pre.members_at(pos).push(new_id));
            assert(grown[grown.len() - 1] == new_id);
        }
    }
}

/// The grid tile generated for cell `k`.
pub open spec fn grid_tile(
    samples: Seq<u8>,
    gdraws: Seq<usize>,
    layer_idx: u8,
    size_y: int,
    k: int,
) -> Tile {
    Tile {
        position: iso_pos(k / size_y, k % size_y, size_y),
        tex_id: cell_tex(samples, gdraws, layer_idx, k),
        is_selected: false,
        resource_id: None,
        resource_count: 0,
        can_be_carried: false,
    }
}

/// The tree tile generated for cell `k` when its resource draw hits.
pub open spec fn tree_tile(size_y: int, k: int) -> Tile {
    Tile {
        position: iso_pos(k / size_y, k % size_y, size_y),
        tex_id: SPRITE_TREE,
        is_selected: false,
        resource_id: Some(RESOURCE_WOOD),
        resource_count: START_RESOURCE_COUNT,
        can_be_carried: false,
    }
}

/// The walkable index sequence after generating the first `upto` cells:
/// the sequence index of every walkable grid tile, in generation order.
pub open spec fn walk_seq(
    samples: Seq<u8>,
    gdraws: Seq<usize>,
    rdraws: Seq<usize>,
    layer_idx: u8,
    upto: int,
) -> Seq<usize>
    decreases upto,
{
    if upto <= 0 {
        Seq::empty()
    } else {
        let prev = walk_seq(samples, gdraws, rdraws, layer_idx, upto - 1);
        if tex_walkable(cell_tex(samples, gdraws, layer_idx, upto - 1)) {
            prev.push(
                (upto - 1 + tree_count(samples, gdraws, rdraws, layer_idx, upto - 1)) as usize,
            )
        } else {
            prev
        }
    }
}

/// Terrain classification of one sample (see `classify_spec`).
fn classify(sample: u8, layer_idx: u8, step: u8, gdraw: usize) -> (tex: u32)
    ensures
        tex == classify_spec(sample, layer_idx, step as int, gdraw),
{
    proof {
        assert((layer_idx as int) * (step as int) <= 65025 && (layer_idx as int) * (step as int)
            >= 0) by (nonlinear_arith)
            requires
                0 <= layer_idx <= 255,
                0 <= step <= 255,
        ;
    }
    let threshold: u32 = (layer_idx as u32) * (step as u32);
    if step > 0 && (sample as u32) < threshold {
        SPRITE_WATER
    } else if step > 0 && (sample as u32) > 2 * threshold {
        SPRITE_STONE
    } else if gdraw < GRASS_WEIGHT {
        SPRITE_GRASS
    } else {
        SPRITE_CLAY
    }
}

/// The tile world: the tile sequence, the walkable subset (indices into
/// the tile sequence, in generation order; its set view serves membership
/// tests), the grid dimensions, and the spatial index.
pub struct Tiles {
    pub tiles: Vec<Tile>,
    pub walkable: Vec<usize>,
    pub width: usize,
    pub height: usize,
    pub tree: QuadTree,
}

impl Tiles {
    /// The spatial index is well-formed and only holds valid tile
    /// identifiers, every tile is well-formed, and every walkable index
    /// points at a tile whose visual kind permits walking.
    pub open spec fn wf(self) -> bool {
        &&& self.tree.wf()
        &&& self.tree.ids_below(self.tiles@.len() as int)
        &&& forall|i: int| 0 <= i < self.tiles@.len() ==> (#[trigger] self.tiles@[i]).wf()
        &&& forall|j: int|
            0 <= j < self.walkable@.len() ==> (#[trigger] self.walkable@[j]) < self.tiles@.len()
        &&& forall|j: int|
            0 <= j < self.walkable@.len() ==> tex_walkable(
                self.tiles@[(#[trigger] self.walkable@[j]) as int].tex_id,
            )
    }

    /// The world `r` is exactly what generation produces from this
    /// heightmap and these draws: the tile count, every grid tile, every
    /// placed tree tile, and the walkable sequence are all determined.
    pub open spec fn generated_from(
        self,
        samples: Seq<u8>,
        gdraws: Seq<usize>,
        rdraws: Seq<usize>,
        layer_idx: u8,
        size_x: int,
        size_y: int,
    ) -> bool {
        let n = size_x * size_y;
        &&& self.width == size_x
        &&& self.height == size_y
        &&& self.tiles@.len() == n + tree_count(samples, gdraws, rdraws, layer_idx, n)
        &&& forall|k: int|
            0 <= k < n ==> self.tiles@[k + #[trigger] tree_count(
                samples,
                gdraws,
                rdraws,
                layer_idx,
                k,
            )] == grid_tile(samples, gdraws, layer_idx, size_y, k)
        &&& forall|k: int|
            0 <= k < n && cell_tree(samples, gdraws, rdraws, layer_idx, k) ==> self.tiles@[k
                + #[trigger] tree_count(samples, gdraws, rdraws, layer_idx, k) + 1] == tree_tile(
                size_y,
                k,
            )
        &&& self.walkable@ == walk_seq(samples, gdraws, rdraws, layer_idx, n)
        &&& forall|k: int|
            0 <= k < n && tex_walkable(cell_tex(samples, gdraws, layer_idx, k))
                ==> self.walkable@.contains(
                (k + #[trigger] tree_count(samples, gdraws, rdraws, layer_idx, k)) as usize,
            )
    }

    /// Every tile of the sequence is inside the spatial index's root
    /// rectangle and indexed there at its current position.
    pub open spec fn indexed_in_tree(self) -> bool {
        forall|i: int|
            0 <= i < self.tiles@.len() ==> self.tree.contains_pt(
                (#[trigger] self.tiles@[i]).position,
            ) && self.tree.members_at(self.tiles@[i].position).contains(i as usize)
    }

    /// Every valid tile identifier occurs exactly once across the
    /// spatial index's leaves, and no other identifier occurs at all.
    pub open spec fn uniquely_indexed(self) -> bool {
        forall|x: usize|
            #[trigger] self.tree.count_of(x) == (if (x as int) < self.tiles@.len() {
                1int
            } else {
                0int
            })
    }

    /// Generates the tile layer for a heightmap, with every random draw
    /// passed in explicitly: one ground draw (below `GROUND_TOTAL`) and
    /// one resource draw (below `RESOURCE_TOTAL`) per grid cell. Each
    /// cell yields one grid tile classified by its luminance band, every
    /// tile is inserted into the spatial index at its position, walkable
    /// tiles are recorded in order, and a walkable cell whose resource
    /// draw hits places a co-located tree tile right after its grid tile.
    pub fn build_layer(
        samples: &Vec<u8>,
        size_x: usize,
        size_y: usize,
        layer_idx: u8,
        gdraws: &Vec<usize>,
        rdraws: &Vec<usize>,
    ) -> (r: Tiles)
        requires
            1 <= size_x <= MAX_GRID,
            1 <= size_y <= MAX_GRID,
            samples@.len() == size_x * size_y,
            gdraws@.len() == size_x * size_y,
            rdraws@.len() == size_x * size_y,
        ensures
            r.wf(),
            r.indexed_in_tree(),
            r.uniquely_indexed(),
            forall|j: int|
                0 <= j < r.walkable@.len() ==> tex_walkable(
                    r.tiles@[(#[trigger] r.walkable@[j]) as int].tex_id,
                ),
            r.generated_from(samples@, gdraws@, rdraws@, layer_idx, size_x as int, size_y as int),
    {
        proof {
            assert(size_x * size_y <= 100_000_000) by (nonlinear_arith)
                requires
                    size_x <= MAX_GRID,
                    size_y <= MAX_GRID,
                    MAX_GRID == 10_000usize,
            ;
        }
        let n: usize = size_x * size_y;
        // Sample range scan.
        let mut lowest: u8 = 255;
        let mut highest: u8 = 0;
        let mut i: usize = 0;
        while i < n
            invariant
                i <= n,
                n == samples@.len(),
                lowest == lo_of(samples@.take(i as int)),
                highest == hi_of(samples@.take(i as int)),
            decreases n - i,
        {
            proof {
                assert(samples@.take(i as int + 1).drop_last() =~= samples@.take(i as int));
                assert(samples@.take(i as int + 1).last() == samples@[i as int]);
            }
            if samples[i] < lowest {
                lowest = samples[i];
            }
            if samples[i] > highest {
                highest = samples[i];
            }
            i = i + 1;
        }
        proof {
            assert(samples@.take(n as int) =~= samples@);
        }
        let step: u8 = if highest >= lowest {
            (highest - lowest) / MAX_LAYERS
        } else {
            0
        };
        // The world rectangle: wide enough for every isometric cell
        // position, so no insertion can fall outside it.
        let region_x: i64 = -(STEP_X * (size_x as i64));
        let region_y: i64 = -(STEP_Y * (size_x as i64));
        let region_w: i64 = STEP_X * (size_x as i64) + STEP_X * (size_y as i64);
        let region_h: i64 = STEP_Y * (size_x as i64) + STEP_Y * (size_y as i64);
        let mut tree = QuadTree::new(region_x, region_y, region_w, region_h, SPRITE_SIZE);
        let mut tiles_v: Vec<Tile> = Vec::new();
        let mut walkable: Vec<usize> = Vec::new();
        let mut k: usize = 0;
        while k < n
            invariant
                k <= n,
                n == size_x * size_y,
                1 <= size_x <= MAX_GRID,
                1 <= size_y <= MAX_GRID,
                n == samples@.len(),
                n == gdraws@.len(),
                n == rdraws@.len(),
                step == layer_step_of(samples@),
                tiles_v@.len() == k + tree_count(samples@, gdraws@, rdraws@, layer_idx, k as int),
                tiles_v@.len() <= 2 * k,
                forall|j: int|
                    0 <= j < k ==> tiles_v@[j + #[trigger] tree_count(
                        samples@,
                        gdraws@,
                        rdraws@,
                        layer_idx,
                        j,
                    )] == grid_tile(samples@, gdraws@, layer_idx, size_y as int, j),
                forall|j: int|
                    0 <= j < k && cell_tree(samples@, gdraws@, rdraws@, layer_idx, j)
                        ==> tiles_v@[j + #[trigger] tree_count(
                        samples@,
                        gdraws@,
                        rdraws@,
                        layer_idx,
                        j,
                    ) + 1] == tree_tile(size_y as int, j),
                walkable@ == walk_seq(samples@, gdraws@, rdraws@, layer_idx, k as int),
                forall|j: int|
                    0 <= j < k && tex_walkable(cell_tex(samples@, gdraws@, layer_idx, j))
                        ==> walkable@.contains(
                        (j + #[trigger] tree_count(samples@, gdraws@, rdraws@, layer_idx, j)) as usize,
                    ),
                forall|i2: int| 0 <= i2 < tiles_v@.len() ==> (#[trigger] tiles_v@[i2]).wf(),
                forall|m: int|
                    0 <= m < walkable@.len() ==> (#[trigger] walkable@[m]) < tiles_v@.len(),
                forall|m: int|
                    0 <= m < walkable@.len() ==> tex_walkable(
                        tiles_v@[(#[trigger] walkable@[m]) as int].tex_id,
                    ),
                tree.wf(),
                tree.ids_below(tiles_v@.len() as int),
                tree.x == -(STEP_X * (size_x as int)) && tree.y == -(STEP_Y * (size_x as int)),
                tree.width == STEP_X * (size_x as int) + STEP_X * (size_y as int),
                tree.height == STEP_Y * (size_x as int) + STEP_Y * (size_y as int),
                forall|i2: int|
                    0 <= i2 < tiles_v@.len() ==> tree.contains_pt(
                        (#[trigger] tiles_v@[i2]).position,
                    ) && tree.members_at(tiles_v@[i2].position).contains(i2 as usize),
                forall|x: usize|
                    #[trigger] tree.count_of(x) == (if (x as int) < tiles_v@.len() {
                        1int
                    } else {
                        0int
                    }),
            decreases n - k,
        {
            let ghost walkable_pre = walkable@;
            let x = k / size_y;
            let y = k % size_y;
            proof {
                assert(k / size_y < size_x && k % size_y < size_y) by (nonlinear_arith)
                    requires
                        0 <= k < size_x * size_y,
                        1 <= size_y,
                ;
            }
            let wx: i64 = STEP_X * (y as i64) - STEP_X * (x as i64);
            let wy: i64 = STEP_Y * (size_y as i64) - STEP_Y * (x as i64) - STEP_Y * (y as i64);
            let pos = Pos { x: wx, y: wy };
            let tex = classify(samples[k], layer_idx, step, gdraws[k]);
            proof {
                assert(tree.contains_pt(pos));
            }
            let last_id = tiles_v.len();
            let ghost tiles_snap = tiles_v@;
            tiles_v.push(Tile::new(pos, tex, None));
            let ghost tree_pre = tree;
            tree.insert(pos, last_id);
            proof {
                crate::quadtree::lemma_insert_in_tree(tree_pre, tree, pos, last_id);
                lemma_gen_index_step(tree_pre, tree, pos, last_id, tiles_snap, tiles_v@);
                assert forall|x: usize|
                    #[trigger] tree.count_of(x) == (if (x as int) < tiles_v@.len() {
                        1int
                    } else {
                        0int
                    }) by {
                    crate::quadtree::lemma_insert_count(tree_pre, tree, pos, last_id, x);
                }
            }
            if tex != SPRITE_STONE && tex != SPRITE_WATER {
                walkable.push(last_id);
                if rdraws[k] == TREE_DRAW {
                    let rid = tiles_v.len();
                    let ghost tiles_snap2 = tiles_v@;
                    tiles_v.push(Tile::new(pos, SPRITE_TREE, Some(RESOURCE_WOOD)));
                    let ghost tree_pre2 = tree;
                    tree.insert(pos, rid);
                    proof {
                        crate::quadtree::lemma_insert_in_tree(tree_pre2, tree, pos, rid);
                        lemma_gen_index_step(tree_pre2, tree, pos, rid, tiles_snap2, tiles_v@);
                        assert forall|x: usize|
                            #[trigger] tree.count_of(x) == (if (x as int) < tiles_v@.len() {
                                1int
                            } else {
                                0int
                            }) by {
                            crate::quadtree::lemma_insert_count(tree_pre2, tree, pos, rid, x);
                        }
                    }
                }
            }
            proof {
                let s = samples@;
                let g = gdraws@;
                let rr = rdraws@;
                let sy = size_y as int;
                let kk = k as int;
                assert forall|j: int| 0 <= j < kk + 1 implies tiles_v@[j + #[trigger] tree_count(
                    s,
                    g,
                    rr,
                    layer_idx,
                    j,
                )] == grid_tile(s, g, layer_idx, sy, j) by {
                    lemma_tree_count_mono(s, g, rr, layer_idx, j, kk + 1);
                    lemma_tree_count_mono(s, g, rr, layer_idx, j, kk);
                    if j == kk {
                        assert(iso_pos(kk / sy, kk % sy, sy) == pos);
                    }
                }
                assert forall|j: int|
                    0 <= j < kk + 1 && cell_tree(s, g, rr, layer_idx, j) implies tiles_v@[j
                    + #[trigger] tree_count(s, g, rr, layer_idx, j) + 1] == tree_tile(sy, j) by {
                    lemma_tree_count_mono(s, g, rr, layer_idx, j, kk + 1);
                    lemma_tree_count_mono(s, g, rr, layer_idx, j, kk);
                    if j == kk {
                        assert(iso_pos(kk / sy, kk % sy, sy) == pos);
                    }
                }
                assert forall|j: int|
                    0 <= j < kk + 1 && tex_walkable(cell_tex(s, g, layer_idx, j))
                    implies walkable@.contains(
                    (j + #[trigger] tree_count(s, g, rr, layer_idx, j)) as usize,
                ) by {
                    lemma_tree_count_mono(s, g, rr, layer_idx, j, kk);
                    let v = (j + tree_count(s, g, rr, layer_idx, j)) as usize;
                    if j < kk {
                        assert(walkable_pre.contains(v));
                        let ix = choose|i2: int|
                            0 <= i2 < walkable_pre.len() && walkable_pre[i2] == v;
                        assert(walkable@[ix] == v);
                    } else {
                        assert(walkable@[walkable@.len() - 1] == v);
                    }
                    assert(walkable@.contains(v));
                }
            }
            k = k + 1;
        }
        Tiles { tiles: tiles_v, walkable, width: size_x, height: size_y, tree }
    }

    /// Generates the tile layer from a heightmap, rolling the ground and
    /// resource draws. Which terrain the weighted choices pick is random;
    /// `build_layer` pins down everything that holds of every outcome.
    pub fn new_layer_from_heightmap(
        samples: &Vec<u8>,
        size_x: usize,
        size_y: usize,
        layer_idx: u8,
    ) -> (r: Tiles)
        requires
            1 <= size_x <= MAX_GRID,
            1 <= size_y <= MAX_GRID,
            samples@.len() == size_x * size_y,
        ensures
            r.wf(),
            r.indexed_in_tree(),
            r.uniquely_indexed(),
            r.width == size_x,
            r.height == size_y,
            size_x * size_y <= r.tiles@.len() <= 2 * (size_x * size_y),
            forall|j: int|
                0 <= j < r.walkable@.len() ==> tex_walkable(
                    r.tiles@[(#[trigger] r.walkable@[j]) as int].tex_id,
                ),
            exists|g: Seq<usize>, rd: Seq<usize>|
                g.len() == size_x * size_y && rd.len() == size_x * size_y
                    && #[trigger] r.generated_from(
                    samples@,
                    g,
                    rd,
                    layer_idx,
                    size_x as int,
                    size_y as int,
                ),
    {
        proof {
            assert(size_x * size_y <= 100_000_000) by (nonlinear_arith)
                requires
                    size_x <= MAX_GRID,
                    size_y <= MAX_GRID,
                    MAX_GRID == 10_000usize,
            ;
        }
        let n: usize = size_x * size_y;
        let mut gdraws: Vec<usize> = Vec::new();
        let mut rdraws: Vec<usize> = Vec::new();
        let mut i: usize = 0;
        while i < n
            invariant
                gdraws@.len() == i,
                rdraws@.len() == i,
                i <= n,
            decreases n - i,
        {
            gdraws.push(rand_below(GROUND_TOTAL));
            rdraws.push(rand_below(RESOURCE_TOTAL));
            i = i + 1;
        }
        let r = Tiles::build_layer(samples, size_x, size_y, layer_idx, &gdraws, &rdraws);
        proof {
            lemma_tree_count_mono(samples@, gdraws@, rdraws@, layer_idx, 0, n as int);
            assert(r.generated_from(
                samples@,
                gdraws@,
                rdraws@,
                layer_idx,
                size_x as int,
                size_y as int,
            ));
        }
        r
    }

    /// Every sampled tile is one of the walkable tiles.
    pub open spec fn sampled_from_walkable(self, out: Seq<Tile>) -> bool {
        forall|j: int|
            0 <= j < out.len() ==> exists|m: int|
                0 <= m < self.walkable@.len() && #[trigger] out[j] == self.tiles@[(
                self.walkable@[m]) as int]
    }

    /// Samples `count` tiles uniformly, with replacement, from the
    /// walkable sequence. The walkable set must be non-empty.
    pub fn get_random_walkable(&self, count: u8) -> (r: Vec<Tile>)
        requires
            self.wf(),
            self.walkable@.len() > 0,
        ensures
            r@.len() == count,
            self.sampled_from_walkable(r@),
    {
        let mut out: Vec<Tile> = Vec::new();
        let mut i: u8 = 0;
        while i < count
            invariant
                self.wf(),
                self.walkable@.len() > 0,
                out@.len() == i,
                i <= count,
                self.sampled_from_walkable(out@),
            decreases count - i,
        {
            let m = rand_below(self.walkable.len());
            out.push(self.tiles[self.walkable[m]]);
            proof {
                assert(out@[out@.len() - 1] == self.tiles@[(self.walkable@[m as int]) as int]);
            }
            i = i + 1;
        }
        out
    }

    /// Asks the spatial index for a plausible nearby walkable tile: a
    /// random member of the walkable set sampled from a sibling branch of
    /// the leaf containing `pos`. Whether a tile comes back at all is
    /// determined by the index's `has_candidate`.
    pub fn get_closest_walkable(&self, pos: Pos) -> (r: Option<Tile>)
        requires
            self.wf(),
        ensures
            r is Some <==> self.tree.has_candidate(pos, self.walkable@),
            r is Some ==> exists|id: usize|
                #[trigger] self.walkable@.contains(id) && r.unwrap() == self.tiles@[id as int]
                    && tex_walkable(self.tiles@[id as int].tex_id) && (self.tree.count_of(id) <= 1
                    ==> !self.tree.members_at(pos).contains(id)),
    {
        match self.tree.find_around_in(pos, &self.walkable) {
            Some(id) => {
                proof {
                    let m = choose|m: int|
                        0 <= m < self.walkable@.len() && self.walkable@[m] == id;
                    assert(self.walkable@[m] < self.tiles@.len());
                    assert(tex_walkable(self.tiles@[(self.walkable@[m]) as int].tex_id));
                }
                Some(self.tiles[id])
            },
            None => None,
        }
    }

    /// A read-only snapshot of the tile sequence.
    pub fn get_tiles(&self) -> (r: Vec<Tile>)
        ensures
            r@ == self.tiles@,
    {
        let mut out: Vec<Tile> = Vec::new();
        let mut i: usize = 0;
        while i < self.tiles.len()
            invariant
                i <= self.tiles@.len(),
                out@ == self.tiles@.take(i as int),
            decreases self.tiles@.len() - i,
        {
            out.push(self.tiles[i]);
            i = i + 1;
        }
        proof {
            assert(self.tiles@.take(self.tiles@.len() as int) =~= self.tiles@);
        }
        out
    }

    /// The first tile of the leaf containing `position` that still bears
    /// a positive resource count.
    pub open spec fn resource_at_spec(self, p: Pos) -> Option<usize> {
        match self.tree.find_all_spec(p) {
            Option::None => Option::None,
            Option::Some(ids) => first_resource(self.tiles@, ids),
        }
    }

    /// Returns the index of the first co-located tile (in leaf membership
    /// order) with a positive resource count, or `None` when the position
    /// misses the tree or no such tile is there.
    pub fn resource_at(&self, position: Pos) -> (r: Option<usize>)
        requires
            self.wf(),
        ensures
            r == self.resource_at_spec(position),
            r is Some ==> r.unwrap() < self.tiles@.len()
                && self.tiles@[r.unwrap() as int].resource_count > 0,
    {
        proof {
            crate::quadtree::lemma_query_in_tree(self.tree, position);
        }
        match self.tree.find_all(position) {
            None => None,
            Some(ids) => {
                let mut i: usize = 0;
                let ghost idseq = self.tree.find_all_spec(position).unwrap();
                proof {
                    assert(idseq.subrange(0, idseq.len() as int) =~= idseq);
                }
                while i < ids.len()
                    invariant
                        self.wf(),
                        i <= ids@.len(),
                        ids@ == idseq,
                        self.tree.find_all_spec(position) == Option::Some(idseq),
                        forall|j: int|
                            0 <= j < idseq.len() ==> self.tree.in_tree(#[trigger] idseq[j]),
                        first_resource(self.tiles@, idseq) == first_resource(
                            self.tiles@,
                            idseq.subrange(i as int, idseq.len() as int),
                        ),
                        forall|j: int|
                            0 <= j < i ==> self.tiles@[(#[trigger] idseq[j]) as int].resource_count
                                == 0,
                    decreases ids@.len() - i,
                {
                    let id = ids[i];
                    if self.tiles[id].resource_count > 0 {
                        proof {
                            let sub = idseq.subrange(i as int, idseq.len() as int);
                            assert(sub.len() > 0);
                            assert(sub[0] == id);
                            assert(self.tiles@[sub[0] as int].resource_count > 0);
                            assert(first_resource(self.tiles@, sub) == Option::Some(id));
                            assert(self.resource_at_spec(position) == Option::Some(id));
                        }
                        return Some(id);
                    }
                    proof {
                        assert(idseq.subrange(i as int, idseq.len() as int).subrange(
                            1,
                            idseq.len() - i,
                        ) =~= idseq.subrange(i as int + 1, idseq.len() as int));
                    }
                    i = i + 1;
                }
                proof {
                    assert(idseq.subrange(idseq.len() as int, idseq.len() as int).len() == 0);
                }
                None
            },
        }
    }

    /// Finds the tile at `position` through the spatial index, flags it
    /// selected, and returns its index.
    pub fn tile_at(&mut self, position: Pos) -> (r: Option<usize>)
        requires
            old(self).wf(),
        ensures
            final(self).wf(),
            r == old(self).tree.find_spec(position),
            r is None ==> *final(self) == *old(self),
            r is Some ==> {
                let i = r.unwrap() as int;
                &&& i < old(self).tiles@.len()
                &&& final(self).tiles@ == old(self).tiles@.update(
                    i,
                    (Tile { is_selected: true, ..old(self).tiles@[i] }),
                )
                &&& final(self).tree == old(self).tree
                &&& final(self).walkable == old(self).walkable
                &&& final(self).width == old(self).width
                &&& final(self).height == old(self).height
            },
    {
        proof {
            crate::quadtree::lemma_query_in_tree(self.tree, position);
        }
        match self.tree.find(position) {
            Some(i) => {
                let mut t = self.tiles[i];
                t.is_selected = true;
                self.tiles[i] = t;
                Some(i)
            },
            None => None,
        }
    }

    /// Index of the first resource-bearing tile whose position matches
    /// `tile`'s exactly; the original's way to re-acquire a stable handle
    /// after borrowing a reference.
    pub fn index_of(&self, tile: &Tile) -> (r: Option<usize>)
        ensures
            r == index_of_from(self.tiles@, tile.position, 0),
    {
        let mut i: usize = 0;
        while i < self.tiles.len()
            invariant
                i <= self.tiles@.len(),
                index_of_from(self.tiles@, tile.position, 0) == index_of_from(
                    self.tiles@,
                    tile.position,
                    i as int,
                ),
            decreases self.tiles@.len() - i,
        {
            let t = &self.tiles[i];
            if t.resource_count > 0 && t.position.x == tile.position.x && t.position.y
                == tile.position.y {
                return Some(i);
            }
            i = i + 1;
        }
        None
    }

    /// Deletes a tile from the sequence and the spatial index. Indices
    /// above the removed one shift down by one: identifiers handed out
    /// earlier are invalidated and must be re-acquired by the caller.
    pub fn remove(&mut self, tile_id: Option<usize>) -> (r: Option<usize>)
        requires
            old(self).wf(),
            tile_id is Some ==> tile_id.unwrap() < old(self).tiles@.len(),
        ensures
            r is None,
            tile_id is None ==> *final(self) == *old(self),
            tile_id is Some ==> {
                let i = tile_id.unwrap() as int;
                &&& final(self).tiles@ == old(self).tiles@.remove(i)
                &&& old(self).tree.removed(final(self).tree, tile_id.unwrap())
                &&& final(self).tree.wf()
                &&& final(self).walkable == old(self).walkable
                &&& final(self).width == old(self).width
                &&& final(self).height == old(self).height
            },
    {
        if let Some(i) = tile_id {
            self.tiles.remove(i);
            self.tree.remove(i);
        }
        None
    }

    /// Mutates a tile's visual kind and carry flag in place, used when a
    /// depleted resource becomes a collectible byproduct. The new visual
    /// kind must permit walking so the walkable classification is kept.
    pub fn replace(&mut self, id: Option<usize>, tex_id: u32, can_be_carried: bool)
        requires
            old(self).wf(),
            id is Some ==> id.unwrap() < old(self).tiles@.len(),
            tex_walkable(tex_id),
        ensures
            final(self).wf(),
            id is None ==> *final(self) == *old(self),
            id is Some ==> {
                let i = id.unwrap() as int;
                &&& final(self).tiles@ == old(self).tiles@.update(
                    i,
                    (Tile { tex_id, can_be_carried, ..old(self).tiles@[i] }),
                )
                &&& final(self).tree == old(self).tree
                &&& final(self).walkable == old(self).walkable
                &&& final(self).width == old(self).width
                &&& final(self).height == old(self).height
            },
    {
        if let Some(i) = id {
            let mut t = self.tiles[i];
            t.tex_id = tex_id;
            t.can_be_carried = can_be_carried;
            self.tiles[i] = t;
        }
    }

    /// While the selection is pressed, flags every tile inside the
    /// selection quadrilateral as selected and clears all others; when it
    /// is not pressed, clears all.
    pub fn update_selected(&mut self, selection: &Selection)
        requires
            old(self).wf(),
            selection.wf(),
        ensures
            final(self).wf(),
            final(self).tiles@.len() == old(self).tiles@.len(),
            forall|i: int|
                0 <= i < old(self).tiles@.len() ==> final(self).tiles@[i] == (Tile {
                    is_selected: selection.pressed && selection.is_selected_spec(
                        old(self).tiles@[i].position,
                    ),
                    ..old(self).tiles@[i]
                }),
            final(self).tree == old(self).tree,
            final(self).walkable == old(self).walkable,
            final(self).width == old(self).width,
            final(self).height == old(self).height,
    {
        let ghost orig = *self;
        let mut i: usize = 0;
        while i < self.tiles.len()
            invariant
                orig.wf(),
                selection.wf(),
                i <= self.tiles@.len(),
                self.tiles@.len() == orig.tiles@.len(),
                forall|j: int|
                    0 <= j < i ==> self.tiles@[j] == (Tile {
                        is_selected: selection.pressed && selection.is_selected_spec(
                            orig.tiles@[j].position,
                        ),
                        ..orig.tiles@[j]
                    }),
                forall|j: int| i <= j < self.tiles@.len() ==> self.tiles@[j] == orig.tiles@[j],
                self.tree == orig.tree,
                self.walkable == orig.walkable,
                self.width == orig.width,
                self.height == orig.height,
            decreases self.tiles@.len() - i,
        {
            let sel = if selection.pressed {
                selection.is_selected(self.tiles[i].position)
            } else {
                false
            };
            let mut t = self.tiles[i];
            t.is_selected = sel;
            self.tiles[i] = t;
            i = i + 1;
        }
    }

    /// Index of the tile nearest to `pos` by straight-line distance; ties
    /// keep the earliest index. `None` only for an empty world.
    pub fn assign_closest_selected(&self, pos: Pos) -> (r: Option<usize>)
        requires
            self.wf(),
            pos.bounded(),
        ensures
            r is Some <==> self.tiles@.len() > 0,
            r is Some ==> {
                let i = r.unwrap() as int;
                &&& i < self.tiles@.len()
                &&& forall|j: int|
                    0 <= j < self.tiles@.len() ==> dist_sq_spec(pos, self.tiles@[i].position)
                        <= dist_sq_spec(pos, (#[trigger] self.tiles@[j]).position)
                &&& forall|j: int|
                    0 <= j < i ==> dist_sq_spec(pos, self.tiles@[i].position) < dist_sq_spec(
                        pos,
                        (#[trigger] self.tiles@[j]).position,
                    )
            },
    {
        let mut best: Option<usize> = None;
        let mut best_d: u64 = u64::MAX;
        let mut i: usize = 0;
        while i < self.tiles.len()
            invariant
                self.wf(),
                pos.bounded(),
                i <= self.tiles@.len(),
                best is Some <==> i > 0,
                best is None ==> best_d == u64::MAX,
                best is Some ==> {
                    let b = best.unwrap() as int;
                    &&& b < i
                    &&& best_d == dist_sq_spec(pos, self.tiles@[b].position)
                    &&& forall|j: int|
                        0 <= j < i ==> best_d <= dist_sq_spec(
                            pos,
                            (#[trigger] self.tiles@[j]).position,
                        )
                    &&& forall|j: int|
                        0 <= j < b ==> best_d < dist_sq_spec(
                            pos,
                            (#[trigger] self.tiles@[j]).position,
                        )
                },
            decreases self.tiles@.len() - i,
        {
            let d = dist_sq(pos, self.tiles[i].position);
            if d < best_d {
                best = Some(i);
                best_d = d;
            }
            i = i + 1;
        }
        best
    }
}

/// The first identifier in `ids` whose tile still bears resources.
pub open spec fn first_resource(tiles: Seq<Tile>, ids: Seq<usize>) -> Option<usize>
    decreases ids.len(),
{
    if ids.len() == 0 {
        Option::None
    } else if tiles[ids[0] as int].resource_count > 0 {
        Option::Some(ids[0])
    } else {
        first_resource(tiles, ids.subrange(1, ids.len() as int))
    }
}

/// The first index at or after `i` holding a resource-bearing tile at
/// exactly position `p`.
pub open spec fn index_of_from(tiles: Seq<Tile>, p: Pos, i: int) -> Option<usize>
    decreases tiles.len() - i,
{
    if i < 0 || i >= tiles.len() {
        Option::None
    } else if tiles[i].resource_count > 0 && tiles[i].position == p {
        Option::Some(i as usize)
    } else {
        index_of_from(tiles, p, i + 1)
    }
}

} // verus!
