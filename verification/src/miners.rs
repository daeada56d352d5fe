//! Worker agents ("miners"): each wraps a tile-shaped visual/position
//! record plus two orthogonal state machines driven once per tick — a
//! behavior machine (idle / cutting a tree, with a tick countdown) and a
//! movement machine (idle / moving along a waypoint stack).

use vstd::prelude::*;

use crate::RESOURCE_WOOD;
use crate::SPRITE_WOOD;
use crate::geom::Pos;
use crate::geom::dist_sq;
use crate::geom::dist_sq_spec;
use crate::geom::calculate_point;
use crate::geom::moved_pos;
use crate::rng::rand_below;
use crate::tiles::Tile;
use crate::tiles::Tiles;

verus! {

/// Default miner speed in milli-units per second.
pub const MINER_SPEED: u32 = 10_000;

/// An agent closer (squared, in milli-units) than this to its waypoint
/// has arrived.
pub const ARRIVE_DIST_SQ: u64 = 4_000_000;

/// An idle agent with no waypoint rolls one wander die per tick and asks
/// for a new destination when it lands on zero (probability one in five).
pub const WANDER_DIE: usize = 5;

/// Whether the agent is in transit toward a waypoint.
#[derive(Copy, Clone, PartialEq, Eq, Structural, Debug)]
pub enum MovementState {
    Moving,
    Idle,
}

/// What the agent is doing with its hands.
#[derive(Copy, Clone, PartialEq, Eq, Structural, Debug)]
pub enum State {
    Idle,
    CuttingTree,
}

/// A worker agent. `tile` carries its position and visual record,
/// `waypoints` is the destination stack (top = next target), `speed` is
/// in milli-units per second and doubles — divided by 1000 — as the
/// number of ticks a harvest takes, `state_counter` counts the ticks
/// remaining in the current harvest, and `working_on` is the index of
/// the resource tile being worked.
pub struct Miner {
    pub movement_state: MovementState,
    pub state: State,
    pub tile: Tile,
    pub waypoints: Vec<Pos>,
    pub speed: u32,
    pub state_counter: u32,
    pub working_on: Option<usize>,
}

/// A resource tile an idle miner will start cutting: wood-bearing, not
/// yet depleted, not already a carryable byproduct.
pub open spec fn wood_target(t: Tile) -> bool {
    &&& t.resource_id == Option::<u8>::Some(RESOURCE_WOOD)
    &&& t.resource_count > 0
    &&& !t.can_be_carried
}

/// Number of ticks a harvest takes for an agent of the given speed (the
/// speed value in whole units, at least one).
pub open spec fn harvest_ticks_of(speed: u32) -> u32 {
    if speed / 1000 == 0 {
        1u32
    } else {
        speed / 1000
    }
}

/// One behavior step of a harvesting agent, on the fields the harvest
/// concerns: the countdown falls by one; when it reaches zero the target
/// tile becomes a carryable wood byproduct — that tick and only that
/// tick — and the agent returns to Idle with its target cleared.
pub open spec fn harvest_stepped(pre: Miner, w_pre: Seq<Tile>, post: Miner, w_post: Seq<Tile>) -> bool {
    &&& pre.state is CuttingTree
    &&& post.speed == pre.speed
    &&& if pre.state_counter > 1 {
        &&& post.state is CuttingTree
        &&& post.state_counter == pre.state_counter - 1
        &&& post.working_on == pre.working_on
        &&& w_post == w_pre
    } else {
        &&& post.state is Idle
        &&& post.state_counter == 0
        &&& post.working_on is None
        &&& w_post == if pre.working_on is Some && pre.working_on.unwrap() < w_pre.len() {
            w_pre.update(
                pre.working_on.unwrap() as int,
                (Tile {
                    tex_id: SPRITE_WOOD,
                    can_be_carried: true,
                    ..w_pre[pre.working_on.unwrap() as int]
                }),
            )
        } else {
            w_pre
        }
    }
}

/// Each adjacent pair of a harvest trace is one behavior step.
pub open spec fn harvest_trace(ms: Seq<Miner>, ws: Seq<Seq<Tile>>, k: int) -> bool {
    forall|j: int, j1: int|
        0 <= j < k && j1 == j + 1 ==> #[trigger] harvest_stepped(ms[j], ws[j], ms[j1], ws[j1])
}

/// Law: an agent that starts harvesting with countdown `k` stays in the
/// harvesting state for the first `k` ticks, counting down one per tick
/// with the world untouched and the target unchanged, and after exactly
/// `k` ticks it is idle with its target cleared and the target tile
/// changed — that once and never before — into the carryable wood
/// byproduct. `ms` and `ws` are the agent and world-tile states before
/// each tick, ending with the state after the last.
pub proof fn lemma_harvest_countdown(ms: Seq<Miner>, ws: Seq<Seq<Tile>>, k: int)
    requires
        k >= 1,
        ms.len() == k + 1,
        ws.len() == k + 1,
        ms[0].state is CuttingTree,
        ms[0].state_counter == k,
        harvest_trace(ms, ws, k),
    ensures
        forall|j: int|
            0 <= j < k ==> (#[trigger] ms[j]).state is CuttingTree && ms[j].state_counter == k - j
                && ms[j].working_on == ms[0].working_on,
        forall|j: int| 0 <= j < k ==> #[trigger] ws[j] == ws[0],
        ms[k].state is Idle,
        ms[k].working_on is None,
        ws[k] == (if ms[0].working_on is Some && ms[0].working_on.unwrap() < ws[0].len() {
            ws[0].update(
                ms[0].working_on.unwrap() as int,
                (Tile {
                    tex_id: SPRITE_WOOD,
                    can_be_carried: true,
                    ..ws[0][ms[0].working_on.unwrap() as int]
                }),
            )
        } else {
            ws[0]
        }),
    decreases k,
{
    if k == 1 {
        assert(harvest_stepped(ms[0], ws[0], ms[1], ws[1]));
    } else {
        assert(harvest_stepped(ms[0], ws[0], ms[1], ws[1]));
        let ms2 = ms.subrange(1, k + 1);
        let ws2 = ws.subrange(1, k + 1);
        assert forall|j: int, j1: int| 0 <= j < k - 1 && j1 == j + 1 implies #[trigger] harvest_stepped(
            ms2[j],
            ws2[j],
            ms2[j1],
            ws2[j1],
        ) by {
            assert(harvest_stepped(ms[j + 1], ws[j + 1], ms[j1 + 1], ws[j1 + 1]));
            assert(ms2[j] == ms[j + 1] && ws2[j] == ws[j + 1]);
            assert(ms2[j1] == ms[j1 + 1] && ws2[j1] == ws[j1 + 1]);
        }
        lemma_harvest_countdown(ms2, ws2, k - 1);
        assert forall|j: int| 0 <= j < k implies (#[trigger] ms[j]).state is CuttingTree && ms[j].state_counter
            == k - j && ms[j].working_on == ms[0].working_on by {
            if j > 0 {
                assert(ms2[j - 1] == ms[j]);
            }
        }
        assert forall|j: int| 0 <= j < k implies #[trigger] ws[j] == ws[0] by {
            if j > 0 {
                assert(ws2[j - 1] == ws[j]);
            }
        }
        assert(ms[k] == ms2[k - 1]);
        assert(ws[k] == ws2[k - 1]);
        assert(ws2[0] == ws[1]);
    }
}

/// Everything one tick does to an agent and the world, as a relation
/// between the states before and after: the behavior step (resource
/// acquisition exactly when a qualifying co-located wood tile exists, or
/// the harvest countdown), the movement step evaluated on the
/// post-behavior state, the position step toward the top waypoint, and
/// the frame conditions (the world changes only by a finished harvest's
/// replace; the agent's visual record changes only in position).
pub open spec fn ticked(pre: Miner, wpre: Tiles, post: Miner, wpost: Tiles, dt_ms: u32) -> bool {
    &&& post.speed == pre.speed
    &&& wpost.tiles@.len() == wpre.tiles@.len()
    &&& wpost.tree == wpre.tree
    &&& wpost.walkable == wpre.walkable
    &&& wpost.width == wpre.width
    &&& wpost.height == wpre.height
    &&& (pre.state is Idle ==> {
        let ro = wpre.resource_at_spec(pre.tile.position);
        &&& wpost == wpre
        &&& if ro is Some && wood_target(wpre.tiles@[ro.unwrap() as int]) {
            &&& post.state is CuttingTree
            &&& post.state_counter == harvest_ticks_of(pre.speed)
            &&& post.working_on == Option::Some(ro.unwrap())
        } else {
            &&& post.state is Idle
            &&& post.state_counter == pre.state_counter
            &&& post.working_on == pre.working_on
        }
    })
    &&& (pre.state is CuttingTree ==> harvest_stepped(pre, wpre.tiles@, post, wpost.tiles@))
    &&& (post.state is CuttingTree ==> post.waypoints == pre.waypoints && post.movement_state == (
    if pre.movement_state is Moving && pre.waypoints@.len() == 0 {
        MovementState::Idle
    } else {
        pre.movement_state
    }))
    &&& (post.state is Idle && pre.waypoints@.len() == 0 ==> {
        ||| (post.waypoints == pre.waypoints && post.movement_state is Idle)
        ||| (exists|id: usize|
            #[trigger] wpre.walkable@.contains(id) && id < wpre.tiles@.len() && post.waypoints@
                == pre.waypoints@.push(wpre.tiles@[id as int].position)) && post.movement_state
            is Moving
    })
    &&& (post.state is Idle && pre.waypoints@.len() > 0 ==> {
        let target = pre.waypoints@.last();
        if dist_sq_spec(pre.tile.position, target) < ARRIVE_DIST_SQ {
            &&& post.waypoints@ == pre.waypoints@.drop_last()
            &&& post.movement_state is Idle
        } else {
            &&& post.waypoints == pre.waypoints
            &&& post.movement_state == pre.movement_state
        }
    })
    &&& (pre.waypoints@.len() == 0 ==> post.tile.position == pre.tile.position)
    &&& (pre.waypoints@.len() > 0 && post.movement_state is Moving ==> post.tile.position
        == moved_pos(
        pre.tile.position,
        pre.waypoints@.last(),
        (pre.speed * dt_ms / 1000) as int,
    ))
    &&& (pre.waypoints@.len() > 0 && post.movement_state is Idle ==> post.tile.position
        == pre.tile.position)
    &&& post.tile.tex_id == pre.tile.tex_id
    &&& post.tile.resource_id == pre.tile.resource_id
    &&& post.tile.resource_count == pre.tile.resource_count
    &&& post.tile.can_be_carried == pre.tile.can_be_carried
    &&& post.tile.is_selected == pre.tile.is_selected
}

/// Each agent of `pre` was stepped once, in order, against the world as
/// the previous agents left it: `ws` holds the world before each agent's
/// tick, ending with the world after the last.
pub open spec fn update_trace(pre: Seq<Miner>, post: Seq<Miner>, ws: Seq<Tiles>, dt_ms: u32) -> bool {
    forall|j: int, j1: int|
        0 <= j < pre.len() && j1 == j + 1 ==> #[trigger] ticked(pre[j], ws[j], post[j], ws[j1], dt_ms)
}

impl Miner {
    /// Position and waypoints are bounded; a harvesting agent always has
    /// at least one tick left and a target in hand.
    pub open spec fn wf(self) -> bool {
        &&& self.tile.wf()
        &&& forall|i: int| 0 <= i < self.waypoints@.len() ==> (#[trigger] self.waypoints@[i]).bounded()
        &&& self.state is CuttingTree ==> self.state_counter >= 1 && self.working_on is Some
    }

    /// The harvest target, when there is one, indexes into the world's
    /// tile sequence.
    pub open spec fn target_ok(self, tiles: Tiles) -> bool {
        self.state is CuttingTree ==> self.working_on.unwrap() < tiles.tiles@.len()
    }

    /// A fresh idle miner at the given position.
    pub fn new(position: Pos, tex_id: u32) -> (m: Miner)
        requires
            position.bounded(),
        ensures
            m.wf(),
            m.state is Idle,
            m.movement_state is Idle,
            m.tile == (Tile {
                position,
                tex_id,
                resource_id: None,
                resource_count: 0,
                can_be_carried: false,
                is_selected: false,
            }),
            m.waypoints@.len() == 0,
            m.working_on is None,
            m.state_counter == 0,
            m.speed == MINER_SPEED,
    {
        Miner {
            tile: Tile::new(position, tex_id, None),
            movement_state: MovementState::Idle,
            state: State::Idle,
            waypoints: Vec::new(),
            speed: MINER_SPEED,
            state_counter: 0,
            working_on: None,
        }
    }

    /// Advances this agent by one tick of `dt_ms` milliseconds against
    /// the world: the behavior step (resource acquisition or harvest
    /// countdown), then — only when the behavior has come out idle — the
    /// movement step (wander roll, arrival check), then the position
    /// step toward the current waypoint. An agent that starts the tick
    /// with an empty waypoint stack does not change position, whatever
    /// the elapsed time or the random draws.
    pub fn tick(&mut self, tiles: &mut Tiles, dt_ms: u32)
        requires
            old(self).wf(),
            old(tiles).wf(),
            old(self).target_ok(*old(tiles)),
        ensures
            final(self).wf(),
            final(tiles).wf(),
            final(self).target_ok(*final(tiles)),
            ticked(*old(self), *old(tiles), *final(self), *final(tiles), dt_ms),
    {
        let had_waypoint = self.waypoints.len() > 0;
        // Behavior step.
        match self.state {
            State::Idle => {
                let ro = tiles.resource_at(self.tile.position);
                if let Some(i) = ro {
                    let qualifying = {
                        let t = &tiles.tiles[i];
                        let wood = match t.resource_id {
                            Some(kind) => kind == RESOURCE_WOOD,
                            None => false,
                        };
                        wood && t.resource_count > 0 && !t.can_be_carried
                    };
                    if qualifying {
                        let ticks = self.speed / 1000;
                        self.state_counter = if ticks == 0 {
                            1
                        } else {
                            ticks
                        };
                        self.working_on = Some(i);
                        self.state = State::CuttingTree;
                    }
                }
            },
            State::CuttingTree => {
                self.state_counter = self.state_counter - 1;
                if self.state_counter == 0 {
                    tiles.replace(self.working_on, SPRITE_WOOD, true);
                    self.working_on = None;
                    self.state = State::Idle;
                }
            },
        }
        // Movement step, on the post-behavior state.
        if matches!(self.state, State::Idle) {
            if self.waypoints.len() == 0 {
                let mut next = MovementState::Idle;
                if rand_below(WANDER_DIE) == 0 {
                    if let Some(t) = tiles.get_closest_walkable(self.tile.position) {
                        proof {
                            let id = choose|id: usize|
                                #[trigger] tiles.walkable@.contains(id) && t == tiles.tiles@[id as int]
                                    && crate::tiles::tex_walkable(tiles.tiles@[id as int].tex_id);
                            let m = choose|m: int|
                                0 <= m < tiles.walkable@.len() && tiles.walkable@[m] == id;
                            assert(tiles.walkable@[m] < tiles.tiles@.len());
                            assert(tiles.tiles@[id as int].wf());
                        }
                        self.waypoints.push(t.position);
                        next = MovementState::Moving;
                    }
                }
                self.movement_state = next;
            } else {
                let target = self.waypoints[self.waypoints.len() - 1];
                if dist_sq(self.tile.position, target) < ARRIVE_DIST_SQ {
                    self.waypoints.pop();
                    self.movement_state = MovementState::Idle;
                }
            }
        }
        // Guard against a moving agent with an empty stack: collapse to
        // idle rather than read a missing waypoint.
        if matches!(self.movement_state, MovementState::Moving) && self.waypoints.len() == 0 {
            self.movement_state = MovementState::Idle;
        }
        // Position step.
        if matches!(self.movement_state, MovementState::Moving) && had_waypoint
            && self.waypoints.len() > 0 {
            let target = self.waypoints[self.waypoints.len() - 1];
            proof {
                assert((self.speed as int) * (dt_ms as int) < 18_446_744_073_709_551_616)
                    by (nonlinear_arith)
                    requires
                        self.speed <= 4_294_967_295u32,
                        dt_ms <= 4_294_967_295u32,
                ;
            }
            let d: u64 = (self.speed as u64) * (dt_ms as u64) / 1000;
            self.tile.position = calculate_point(self.tile.position, target, d);
        }
    }
}

/// The collection of worker agents.
pub struct Miners {
    pub miners: Vec<Miner>,
}

impl Miners {
    /// Every agent is well-formed and its harvest target, if any, is a
    /// valid index into the world's tile sequence.
    pub open spec fn wf(self, tiles: Tiles) -> bool {
        forall|i: int|
            0 <= i < self.miners@.len() ==> (#[trigger] self.miners@[i]).wf()
                && self.miners@[i].target_ok(tiles)
    }

    /// Spawns `count` miners, each at the position of a random walkable
    /// tile (sampled with replacement).
    pub fn new(count: u8, tiles: &Tiles) -> (r: Miners)
        requires
            tiles.wf(),
            tiles.walkable@.len() > 0,
        ensures
            r.wf(*tiles),
            r.miners@.len() == count,
            forall|i: int|
                0 <= i < r.miners@.len() ==> (#[trigger] r.miners@[i]).state is Idle
                    && r.miners@[i].movement_state is Idle && r.miners@[i].waypoints@.len() == 0
                    && r.miners@[i].working_on is None && r.miners@[i].state_counter == 0
                    && r.miners@[i].speed == MINER_SPEED && r.miners@[i].tile.tex_id
                    == crate::SPRITE_MINER,
            forall|i: int|
                0 <= i < r.miners@.len() ==> exists|m: int|
                    0 <= m < tiles.walkable@.len() && (#[trigger] r.miners@[i]).tile.position
                        == tiles.tiles@[(tiles.walkable@[m]) as int].position,
    {
        let spots = tiles.get_random_walkable(count);
        let mut miners: Vec<Miner> = Vec::new();
        let mut i: usize = 0;
        while i < spots.len()
            invariant
                tiles.wf(),
                i <= spots@.len(),
                miners@.len() == i,
                tiles.sampled_from_walkable(spots@),
                forall|j: int|
                    0 <= j < miners@.len() ==> (#[trigger] miners@[j]).wf() && miners@[j].target_ok(
                        *tiles,
                    ) && miners@[j].state is Idle && miners@[j].movement_state is Idle
                        && miners@[j].waypoints@.len() == 0 && miners@[j].working_on is None
                        && miners@[j].state_counter == 0 && miners@[j].speed == MINER_SPEED
                        && miners@[j].tile.tex_id == crate::SPRITE_MINER,
                forall|j: int|
                    0 <= j < miners@.len() ==> exists|m: int|
                        0 <= m < tiles.walkable@.len() && (#[trigger] miners@[j]).tile.position
                            == tiles.tiles@[(tiles.walkable@[m]) as int].position,
            decreases spots@.len() - i,
        {
            proof {
                let m = choose|m: int|
                    0 <= m < tiles.walkable@.len() && spots@[i as int] == tiles.tiles@[(
                    tiles.walkable@[m]) as int];
                assert(tiles.tiles@[(tiles.walkable@[m]) as int].wf());
            }
            miners.push(Miner::new(spots[i].position, crate::SPRITE_MINER));
            i = i + 1;
        }
        Miners { miners }
    }

    /// A read-only snapshot of the agents' visual records, for drawing.
    pub fn get_tiles(&self) -> (r: Vec<Tile>)
        ensures
            r@.len() == self.miners@.len(),
            forall|i: int| 0 <= i < r@.len() ==> r@[i] == (#[trigger] self.miners@[i]).tile,
    {
        let mut out: Vec<Tile> = Vec::new();
        let mut i: usize = 0;
        while i < self.miners.len()
            invariant
                i <= self.miners@.len(),
                out@.len() == i,
                forall|j: int| 0 <= j < out@.len() ==> out@[j] == (#[trigger] self.miners@[j]).tile,
            decreases self.miners@.len() - i,
        {
            out.push(self.miners[i].tile);
            i = i + 1;
        }
        out
    }

    /// Advances every agent by one tick of `dt_ms` milliseconds. Agents
    /// are stepped in order; an earlier agent's harvest is visible to
    /// the later ones within the same tick. The trace `ws` of the
    /// existential witnesses the world before each agent's step, so each
    /// final agent and the final world are tied to one `ticked` step.
    pub fn update(&mut self, dt_ms: u32, tiles: &mut Tiles)
        requires
            old(self).wf(*old(tiles)),
            old(tiles).wf(),
        ensures
            final(self).wf(*final(tiles)),
            final(tiles).wf(),
            final(self).miners@.len() == old(self).miners@.len(),
            exists|ws: Seq<Tiles>|
                ws.len() == old(self).miners@.len() + 1 && ws[0] == *old(tiles) && ws[old(
                    self,
                ).miners@.len() as int] == *final(tiles) && #[trigger] update_trace(
                    old(self).miners@,
                    final(self).miners@,
                    ws,
                    dt_ms,
                ),
            // An agent that began the tick without a waypoint did not move.
            forall|i: int|
                0 <= i < old(self).miners@.len() && old(self).miners@[i].waypoints@.len() == 0
                    ==> (#[trigger] final(self).miners@[i]).tile.position == old(
                    self,
                ).miners@[i].tile.position,
            forall|i: int|
                0 <= i < old(self).miners@.len() ==> (#[trigger] final(self).miners@[i]).speed
                    == old(self).miners@[i].speed && final(self).miners@[i].tile.tex_id == old(
                    self,
                ).miners@[i].tile.tex_id,
            final(tiles).tiles@.len() == old(tiles).tiles@.len(),
            final(tiles).tree == old(tiles).tree,
            final(tiles).walkable == old(tiles).walkable,
            final(tiles).width == old(tiles).width,
            final(tiles).height == old(tiles).height,
    {
        let ghost mut ws: Seq<Tiles> = seq![*tiles];
        let mut i: usize = 0;
        while i < self.miners.len()
            invariant
                i <= self.miners@.len(),
                self.miners@.len() == old(self).miners@.len(),
                tiles.wf(),
                self.wf(*tiles),
                ws.len() == i + 1,
                ws[0] == *old(tiles),
                ws[i as int] == *tiles,
                forall|j: int, j1: int|
                    0 <= j < i && j1 == j + 1 ==> #[trigger] ticked(
                        old(self).miners@[j],
                        ws[j],
                        self.miners@[j],
                        ws[j1],
                        dt_ms,
                    ),
                forall|j: int| i <= j < self.miners@.len() ==> self.miners@[j] == old(
                    self,
                ).miners@[j],
                forall|j: int|
                    0 <= j < old(self).miners@.len() && old(self).miners@[j].waypoints@.len() == 0
                        ==> (#[trigger] self.miners@[j]).tile.position == old(
                        self,
                    ).miners@[j].tile.position,
                forall|j: int|
                    0 <= j < old(self).miners@.len() ==> (#[trigger] self.miners@[j]).speed == old(
                        self,
                    ).miners@[j].speed && self.miners@[j].tile.tex_id == old(
                        self,
                    ).miners@[j].tile.tex_id,
                tiles.tiles@.len() == old(tiles).tiles@.len(),
                tiles.tree == old(tiles).tree,
                tiles.walkable == old(tiles).walkable,
                tiles.width == old(tiles).width,
                tiles.height == old(tiles).height,
            decreases self.miners@.len() - i,
        {
            self.miners[i].tick(tiles, dt_ms);
            proof {
                ws = ws.push(*tiles);
                assert(ticked(
                    old(self).miners@[i as int],
                    ws[i as int],
                    self.miners@[i as int],
                    ws[i as int + 1],
                    dt_ms,
                ));
            }
            i = i + 1;
        }
        proof {
            assert(update_trace(old(self).miners@, self.miners@, ws, dt_ms));
        }
    }
}

} // verus!
