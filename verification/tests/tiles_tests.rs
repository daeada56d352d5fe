use dvarcraft::SPRITE_CLAY;
use dvarcraft::SPRITE_GRASS;
use dvarcraft::SPRITE_STONE;
use dvarcraft::SPRITE_TREE;
use dvarcraft::SPRITE_WATER;
use dvarcraft::SPRITE_WOOD;
use dvarcraft::RESOURCE_WOOD;
use dvarcraft::geom::Pos;
use dvarcraft::quadtree::QuadTree;
use dvarcraft::selection::Selection;
use dvarcraft::selection::SelectionState;
use dvarcraft::tiles::Tile;
use dvarcraft::tiles::Tiles;

fn p(x: i64, y: i64) -> Pos {
    Pos { x, y }
}

/// A flat (uniform luminance) heightmap: the band step is zero, so every
/// cell takes the weighted ground path.
fn flat_world(side: usize, gdraw: usize) -> Tiles {
    let n = side * side;
    let samples = vec![128u8; n];
    let gdraws = vec![gdraw; n];
    let rdraws = vec![0usize; n];
    Tiles::build_layer(&samples, side, side, 1, &gdraws, &rdraws)
}

#[test]
fn flat_heightmap_is_all_walkable() {
    // 4 x 4 uniform mid-range luminance, layer index 1: the layer step
    // computes to zero, so no cell is forced to water or stone; all 16
    // tiles go through the ground choice and all 16 are walkable.
    let w = flat_world(4, 0);
    assert_eq!(w.tiles.len(), 16);
    assert_eq!(w.width, 4);
    assert_eq!(w.height, 4);
    for t in w.tiles.iter() {
        assert_ne!(t.tex_id, SPRITE_WATER);
        assert_ne!(t.tex_id, SPRITE_STONE);
        assert_eq!(t.tex_id, SPRITE_GRASS);
    }
    assert_eq!(w.walkable, (0..16).collect::<Vec<usize>>());
}

#[test]
fn ground_draw_splits_grass_and_clay() {
    let grass = flat_world(2, 19);
    assert!(grass.tiles.iter().all(|t| t.tex_id == SPRITE_GRASS));
    let clay = flat_world(2, 20);
    assert!(clay.tiles.iter().all(|t| t.tex_id == SPRITE_CLAY));
}

#[test]
fn banded_heightmap_classifies_water_and_stone() {
    // Samples 0, 100, 200, 255: lowest 0, highest 255, step 51.
    // With layer index 1: below 51 -> water, above 102 -> stone.
    let samples = vec![0u8, 100, 200, 255];
    let gdraws = vec![0usize; 4];
    let rdraws = vec![0usize; 4];
    let w = Tiles::build_layer(&samples, 2, 2, 1, &gdraws, &rdraws);
    assert_eq!(w.tiles.len(), 4);
    assert_eq!(w.tiles[0].tex_id, SPRITE_WATER);
    assert_eq!(w.tiles[1].tex_id, SPRITE_GRASS);
    assert_eq!(w.tiles[2].tex_id, SPRITE_STONE);
    assert_eq!(w.tiles[3].tex_id, SPRITE_STONE);
    assert_eq!(w.walkable, vec![1]);
}

#[test]
fn resource_draw_places_a_tree_after_its_cell() {
    let samples = vec![0u8, 100, 200, 255];
    let gdraws = vec![0usize; 4];
    let mut rdraws = vec![0usize; 4];
    rdraws[1] = 20; // the only walkable cell rolls a tree
    let w = Tiles::build_layer(&samples, 2, 2, 1, &gdraws, &rdraws);
    assert_eq!(w.tiles.len(), 5);
    let tree = &w.tiles[2];
    assert_eq!(tree.tex_id, SPRITE_TREE);
    assert_eq!(tree.resource_id, Some(RESOURCE_WOOD));
    assert_eq!(tree.resource_count, 5);
    assert!(!tree.can_be_carried);
    // The tree shares its cell's position and shifts later grid tiles.
    assert_eq!(tree.position, w.tiles[1].position);
    assert_eq!(w.tiles[3].tex_id, SPRITE_STONE);
    // Only the grid tile is walkable, not the tree.
    assert_eq!(w.walkable, vec![1]);
}

#[test]
fn water_cells_roll_no_tree() {
    let samples = vec![0u8, 100, 200, 255];
    let gdraws = vec![0usize; 4];
    let rdraws = vec![20usize; 4]; // every cell tries; only walkable ones may
    let w = Tiles::build_layer(&samples, 2, 2, 1, &gdraws, &rdraws);
    assert_eq!(w.tiles.len(), 5);
}

#[test]
fn isometric_positions_are_exact() {
    let w = flat_world(2, 0);
    // Cell (x, y) sits at (32000 * (y - x), 17000 * (size_y - x - y)).
    assert_eq!(w.tiles[0].position, p(0, 34_000)); // (0, 0)
    assert_eq!(w.tiles[1].position, p(32_000, 17_000)); // (0, 1)
    assert_eq!(w.tiles[2].position, p(-32_000, 17_000)); // (1, 0)
    assert_eq!(w.tiles[3].position, p(0, 0)); // (1, 1)
}

#[test]
fn layer_from_heightmap_rolls_its_own_draws() {
    let samples = vec![128u8; 16];
    let w = Tiles::new_layer_from_heightmap(&samples, 4, 4, 1);
    assert!(w.tiles.len() >= 16);
    assert!(w.tiles.len() <= 32);
    for &i in w.walkable.iter() {
        assert_ne!(w.tiles[i].tex_id, SPRITE_WATER);
        assert_ne!(w.tiles[i].tex_id, SPRITE_STONE);
    }
}

#[test]
fn random_walkable_returns_exactly_n() {
    let w = flat_world(4, 0);
    let picked = w.get_random_walkable(7);
    assert_eq!(picked.len(), 7);
    for t in picked.iter() {
        assert!(w.tiles.iter().any(|u| u == t));
        assert_ne!(t.tex_id, SPRITE_WATER);
        assert_ne!(t.tex_id, SPRITE_STONE);
    }
    assert_eq!(w.get_random_walkable(0).len(), 0);
}

#[test]
fn closest_walkable_comes_from_the_walkable_set() {
    let w = flat_world(4, 0);
    // Sample repeatedly: every answer, when there is one, is a walkable
    // tile somewhere else in the tree.
    let mut seen_any = false;
    for _ in 0..50 {
        if let Some(t) = w.get_closest_walkable(w.tiles[0].position) {
            seen_any = true;
            assert!(w.walkable.iter().any(|&i| w.tiles[i] == t));
        }
    }
    assert!(seen_any);
}

fn tiny_resource_world() -> Tiles {
    let mut tree = QuadTree::new(0, 0, 128, 128, 64);
    let ground = Tile::new(p(10, 10), SPRITE_GRASS, None);
    let wood = Tile::new(p(10, 10), SPRITE_TREE, Some(RESOURCE_WOOD));
    let mut tiles = Vec::new();
    tiles.push(ground);
    assert!(tree.insert(p(10, 10), 0));
    tiles.push(wood);
    assert!(tree.insert(p(10, 10), 1));
    Tiles { tiles, walkable: vec![0], width: 1, height: 1, tree }
}

#[test]
fn resource_at_finds_first_bearing_tile() {
    let w = tiny_resource_world();
    assert_eq!(w.resource_at(p(10, 10)), Some(1));
    assert_eq!(w.resource_at(p(100, 100)), None);
    assert_eq!(w.resource_at(p(-5, 0)), None);
}

#[test]
fn replace_turns_a_tree_into_carryable_wood() {
    let mut w = tiny_resource_world();
    w.replace(Some(1), SPRITE_WOOD, true);
    assert_eq!(w.tiles[1].tex_id, SPRITE_WOOD);
    assert!(w.tiles[1].can_be_carried);
    // The count is untouched, so the byproduct is still found by count.
    assert_eq!(w.resource_at(p(10, 10)), Some(1));
    let before = w.tiles.clone();
    w.replace(None, SPRITE_GRASS, false);
    assert_eq!(w.tiles, before);
}

#[test]
fn tile_at_marks_the_found_tile_selected() {
    let mut w = tiny_resource_world();
    assert_eq!(w.tile_at(p(10, 10)), Some(0));
    assert!(w.tiles[0].is_selected);
    assert_eq!(w.tile_at(p(-3, -3)), None);
}

#[test]
fn index_of_matches_position_of_resource_tiles() {
    let w = tiny_resource_world();
    let probe = Tile::new(p(10, 10), SPRITE_TREE, Some(RESOURCE_WOOD));
    // Tile 0 has no resources, so the first resource-bearing match is 1.
    assert_eq!(w.index_of(&probe), Some(1));
    let miss = Tile::new(p(90, 90), SPRITE_TREE, Some(RESOURCE_WOOD));
    assert_eq!(w.index_of(&miss), None);
}

#[test]
fn remove_deletes_from_sequence_and_index() {
    let mut w = tiny_resource_world();
    assert_eq!(w.remove(Some(1)), None);
    assert_eq!(w.tiles.len(), 1);
    let all = w.tree.find_all(p(10, 10)).unwrap().clone();
    assert!(!all.contains(&1));
    let before_len = w.tiles.len();
    assert_eq!(w.remove(None), None);
    assert_eq!(w.tiles.len(), before_len);
}

#[test]
fn update_selected_flags_tiles_inside_the_quad() {
    let mut w = flat_world(2, 0);
    let mut sel = Selection::new();
    sel.pressed = true;
    sel.state = SelectionState::Selecting;
    // A rotated diamond generously covering the whole 2 x 2 layer.
    sel.coords = [
        p(-10_000, -60_000),
        p(60_000, -10_000),
        p(10_000, 60_000),
        p(-60_000, 10_000),
    ];
    w.update_selected(&sel);
    assert!(w.tiles.iter().all(|t| t.is_selected));
    sel.pressed = false;
    w.update_selected(&sel);
    assert!(w.tiles.iter().all(|t| !t.is_selected));
}

#[test]
fn closest_tile_by_distance_keeps_first_tie() {
    let w = flat_world(2, 0);
    // Position exactly on tile 3 (the origin).
    assert_eq!(w.assign_closest_selected(p(0, 0)), Some(3));
    let empty = Tiles {
        tiles: Vec::new(),
        walkable: Vec::new(),
        width: 0,
        height: 0,
        tree: QuadTree::new(0, 0, 64, 64, 64),
    };
    assert_eq!(empty.assign_closest_selected(p(0, 0)), None);
}
