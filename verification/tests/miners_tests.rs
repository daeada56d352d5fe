use dvarcraft::RESOURCE_WOOD;
use dvarcraft::SPRITE_GRASS;
use dvarcraft::SPRITE_MINER;
use dvarcraft::SPRITE_TREE;
use dvarcraft::SPRITE_WOOD;
use dvarcraft::geom::Pos;
use dvarcraft::miners::Miner;
use dvarcraft::miners::Miners;
use dvarcraft::miners::MovementState;
use dvarcraft::miners::State;
use dvarcraft::quadtree::QuadTree;
use dvarcraft::tiles::Tile;
use dvarcraft::tiles::Tiles;

fn p(x: i64, y: i64) -> Pos {
    Pos { x, y }
}

/// One walkable grass tile and one co-located wood-bearing tree.
fn world_with_tree() -> Tiles {
    let mut tree = QuadTree::new(0, 0, 128, 128, 64);
    let mut tiles = Vec::new();
    tiles.push(Tile::new(p(10, 10), SPRITE_GRASS, None));
    assert!(tree.insert(p(10, 10), 0));
    tiles.push(Tile::new(p(10, 10), SPRITE_TREE, Some(RESOURCE_WOOD)));
    assert!(tree.insert(p(10, 10), 1));
    Tiles { tiles, walkable: vec![0], width: 1, height: 1, tree }
}

/// An empty world whose index covers the origin.
fn empty_world() -> Tiles {
    Tiles {
        tiles: Vec::new(),
        walkable: Vec::new(),
        width: 0,
        height: 0,
        tree: QuadTree::new(-64_000, -64_000, 128_000, 128_000, 64_000),
    }
}

#[test]
fn miner_harvests_adjacent_wood_and_returns_to_idle() {
    // A miner standing on a walkable tile with a co-located tree of kind
    // wood, count 5: it acquires the tree, counts down, and exactly when
    // the countdown elapses the tree becomes carryable wood and the
    // miner is idle again with its target cleared.
    let mut w = world_with_tree();
    let mut m = Miner::new(p(10, 10), SPRITE_MINER);
    m.tick(&mut w, 16);
    assert_eq!(m.state, State::CuttingTree);
    assert_eq!(m.working_on, Some(1));
    let k = m.state_counter;
    assert_eq!(k, 10);
    for step in 0..k {
        assert_eq!(m.state, State::CuttingTree);
        // The tile is not touched before the transition tick.
        assert_eq!(w.tiles[1].tex_id, SPRITE_TREE);
        assert!(!w.tiles[1].can_be_carried);
        assert_eq!(m.state_counter, k - step);
        m.tick(&mut w, 16);
    }
    assert_eq!(m.state, State::Idle);
    assert_eq!(m.working_on, None);
    assert_eq!(w.tiles[1].tex_id, SPRITE_WOOD);
    assert!(w.tiles[1].can_be_carried);
    assert_eq!(w.tiles[1].resource_count, 5);
    // A carryable byproduct no longer qualifies as a target.
    m.tick(&mut w, 16);
    assert_eq!(m.state, State::Idle);
    assert_eq!(m.working_on, None);
}

#[test]
fn idle_miner_without_waypoint_never_moves_in_a_tick() {
    for dt in [0u32, 1, 16, 1_000, 1_000_000_000] {
        let mut w = empty_world();
        let mut m = Miner::new(p(0, 0), SPRITE_MINER);
        m.tick(&mut w, dt);
        assert_eq!(m.tile.position, p(0, 0));
    }
}

#[test]
fn moving_miner_steps_toward_its_waypoint() {
    let mut w = empty_world();
    let mut m = Miner::new(p(0, 0), SPRITE_MINER);
    m.waypoints.push(p(30_000, 40_000));
    m.movement_state = MovementState::Moving;
    // speed 10000 milli-units/s, 100 ms -> step 1000 along a 50000 line:
    // 600 east, 800 north.
    m.tick(&mut w, 100);
    assert_eq!(m.tile.position, p(600, 800));
    assert_eq!(m.movement_state, MovementState::Moving);
    assert_eq!(m.waypoints.len(), 1);
}

#[test]
fn miner_arriving_at_waypoint_pops_it_and_idles() {
    let mut w = empty_world();
    let mut m = Miner::new(p(29_500, 39_500), SPRITE_MINER);
    m.waypoints.push(p(30_000, 40_000));
    m.movement_state = MovementState::Moving;
    m.tick(&mut w, 100);
    assert_eq!(m.waypoints.len(), 0);
    assert_eq!(m.movement_state, MovementState::Idle);
    // Arrival happens before the position step: the miner stays put.
    assert_eq!(m.tile.position, p(29_500, 39_500));
}

#[test]
fn big_step_lands_exactly_on_the_waypoint() {
    let mut w = empty_world();
    let mut m = Miner::new(p(0, 0), SPRITE_MINER);
    m.waypoints.push(p(10_000, 0));
    m.movement_state = MovementState::Moving;
    // 10 seconds at 10000 milli-units/s covers 100000: far past the
    // target, so the step is clamped onto it.
    m.tick(&mut w, 10_000);
    assert_eq!(m.tile.position, p(10_000, 0));
}

#[test]
fn miners_spawn_on_walkable_tiles() {
    let samples = vec![128u8; 16];
    let gdraws = vec![0usize; 16];
    let rdraws = vec![0usize; 16];
    let w = Tiles::build_layer(&samples, 4, 4, 1, &gdraws, &rdraws);
    let ms = Miners::new(5, &w);
    assert_eq!(ms.miners.len(), 5);
    for m in ms.miners.iter() {
        assert_eq!(m.state, State::Idle);
        assert_eq!(m.tile.tex_id, SPRITE_MINER);
        assert!(w.walkable.iter().any(|&i| w.tiles[i].position == m.tile.position));
    }
    let snapshot = ms.get_tiles();
    assert_eq!(snapshot.len(), 5);
    for (i, t) in snapshot.iter().enumerate() {
        assert_eq!(*t, ms.miners[i].tile);
    }
}

#[test]
fn collection_update_drives_a_full_harvest() {
    // The same harvest scenario driven through the collection's per-tick
    // update: one acquisition tick, then the ten-tick countdown.
    let mut w = world_with_tree();
    let mut ms = Miners { miners: vec![Miner::new(p(10, 10), SPRITE_MINER)] };
    for _ in 0..11 {
        ms.update(16, &mut w);
    }
    let m = &ms.miners[0];
    assert_eq!(m.state, State::Idle);
    assert_eq!(m.working_on, None);
    assert_eq!(w.tiles[1].tex_id, SPRITE_WOOD);
    assert!(w.tiles[1].can_be_carried);
}

#[test]
fn whole_collection_updates_without_losing_agents() {
    let samples = vec![128u8; 16];
    let gdraws = vec![0usize; 16];
    let rdraws = vec![0usize; 16];
    let mut w = Tiles::build_layer(&samples, 4, 4, 1, &gdraws, &rdraws);
    let mut ms = Miners::new(4, &w);
    for _ in 0..20 {
        ms.update(16, &mut w);
    }
    assert_eq!(ms.miners.len(), 4);
    assert_eq!(w.tiles.len(), 16);
}
