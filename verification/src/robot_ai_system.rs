//! What the robots do on their turn: recover from confusion, hit the player
//! when next to it, or walk towards it when they see it.
//!
//! The path to the player is searched outside this library. `run` decides
//! for one robot and, where the robot is to walk, says between which tiles
//! a path is wanted; `follow` takes the path that was found.

use vstd::prelude::*;
use crate::components::{Confusion, Entity, Position, ViewshedView, WantsToMelee};
use crate::map::{GameMapView, TileType};
use crate::runstate::RunState;
use crate::world::{SlotView, World, WorldView};

verus! {

pub struct RobotAI {}

/// What a robot has decided.
#[derive(Clone, Copy, PartialEq, Eq, Structural, Debug)]
pub enum RobotPlan {
    /// It does nothing.
    Idle,
    /// It hits the player.
    Attack,
    /// It walks towards the player, along a path from the tile with index
    /// `start` to the one with index `end`.
    Approach { start: usize, end: usize },
}

/// The square of the distance between two points.
pub open spec fn distance_squared(a: Position, b: Position) -> int {
    (a.x - b.x) * (a.x - b.x) + (a.y - b.y) * (a.y - b.y)
}

pub fn squared_distance(a: Position, b: Position) -> (d: i128)
    ensures
        d == distance_squared(a, b),
        0 <= d <= 0x2_0000_0000_0000_0000,
{
    let dx: i128 = a.x as i128 - b.x as i128;
    let dy: i128 = a.y as i128 - b.y as i128;
    assert(0 <= dx * dx <= 0x1_0000_0000_0000_0000) by (nonlinear_arith)
        requires -0x1_0000_0000 <= dx <= 0x1_0000_0000;
    assert(0 <= dy * dy <= 0x1_0000_0000_0000_0000) by (nonlinear_arith)
        requires -0x1_0000_0000 <= dy <= 0x1_0000_0000;
    dx * dx + dy * dy
}

/// Whether two points are closer than one and a half tiles: the same tile,
/// or neighbours, diagonals included.
pub open spec fn adjacent(a: Position, b: Position) -> bool {
    distance_squared(a, b) <= 2
}

/// Whether the entity in the slot is a robot that takes part in the
/// robots' turn: it is marked as one, can see and stands somewhere.
pub open spec fn acting_robot(s: SlotView) -> bool {
    s.robot is Some && s.viewshed is Some && s.position is Some
}

/// Confusion one turn later: gone, where its last turn has passed.
pub open spec fn wearing_off(c: Confusion) -> Option<Confusion> {
    if c.turns - 1 < 1 {
        None
    } else {
        Some(Confusion { turns: (c.turns - 1) as i32 })
    }
}

/// What the robot `robot` decides in the world `w`.
pub open spec fn plan_of(w: WorldView, robot: Entity) -> RobotPlan {
    let s = w.slot(robot);
    if w.runstate != RunState::MonsterTurn || !acting_robot(s) || s.confusion is Some {
        RobotPlan::Idle
    } else if adjacent(s.position->0, w.player_pos) {
        RobotPlan::Attack
    } else if s.viewshed->0.visible_tiles.contains(w.player_pos) && w.map.in_bounds(
        s.position->0.x as int,
        s.position->0.y as int,
    ) && w.map.in_bounds(w.player_pos.x as int, w.player_pos.y as int) {
        RobotPlan::Approach {
            start: w.map.xy_idx(s.position->0.x as int, s.position->0.y as int) as usize,
            end: w.map.xy_idx(w.player_pos.x as int, w.player_pos.y as int) as usize,
        }
    } else {
        RobotPlan::Idle
    }
}

/// The world after the robot `robot` has decided.
///
/// Outside the robots' turn, and for an entity that is no acting robot,
/// nothing changes. A confused robot loses one turn of its confusion and
/// does nothing else. A robot next to the player now wants to hit it. A
/// robot that is to walk is not moved yet.
pub open spec fn decided(w: WorldView, robot: Entity) -> WorldView {
    let s = w.slot(robot);
    if w.runstate != RunState::MonsterTurn || !acting_robot(s) {
        w
    } else if s.confusion is Some {
        w.with_slot(robot.id as int, SlotView { confusion: wearing_off(s.confusion->0), ..s })
    } else if adjacent(s.position->0, w.player_pos) {
        w.with_slot(
            robot.id as int,
            SlotView { wants_to_melee: Some(WantsToMelee { target: w.player }), ..s },
        )
    } else {
        w
    }
}

/// Whether a path makes the robot `robot` take a step: the search
/// succeeded, the path has a step after its start, that step is a tile of
/// the map, and the robot stands on the map.
pub open spec fn steps_along(w: WorldView, robot: Entity, success: bool, steps: Seq<usize>) -> bool {
    let s = w.slot(robot);
    &&& success
    &&& steps.len() > 1
    &&& steps[1] < w.map.area()
    &&& acting_robot(s)
    &&& w.map.in_bounds(s.position->0.x as int, s.position->0.y as int)
}

/// The map after a blocking entity has walked from the tile with index
/// `from` to the one with index `to`: the tile that it entered is blocked,
/// and the one that it left is blocked only if it is a wall.
pub open spec fn walked(m: GameMapView, from: int, to: int) -> GameMapView {
    GameMapView {
        blocked_tiles: m.blocked_tiles.update(from, m.tiles[from] == TileType::Wall).update(to, true),
        ..m
    }
}

/// Walking leaves every wall blocked.
pub proof fn lemma_walked_walls_blocked(m: GameMapView, from: int, to: int)
    requires
        m.wf(),
        m.walls_blocked(),
        0 <= from < m.area(),
        0 <= to < m.area(),
    ensures
        walked(m, from, to).walls_blocked(),
        walked(m, from, to).wf(),
{
    let v = walked(m, from, to);
    assert forall|i: int| 0 <= i < v.tiles.len() && v.tiles[i] == TileType::Wall implies #[trigger] v.blocked_tiles[i] by {
        assert(m.blocked_tiles[i]);
    }
}

/// The world after the robot `robot` is given a path to the player.
///
/// Where the path makes it take a step, the robot now stands on the second
/// tile of the path, the tile that it left is no longer blocked unless it
/// is a wall, the one that it entered is blocked, and what the robot saw is
/// out of date. Otherwise nothing changes.
pub open spec fn followed(w: WorldView, robot: Entity, success: bool, steps: Seq<usize>) -> WorldView {
    let s = w.slot(robot);
    if steps_along(w, robot, success, steps) {
        let from = w.map.xy_idx(s.position->0.x as int, s.position->0.y as int);
        let to = steps[1] as int;
        WorldView {
            map: walked(w.map, from, to),
            ..w.with_slot(
                robot.id as int,
                SlotView {
                    position: Some(
                        Position {
                            x: (to % (w.map.width as int)) as i32,
                            y: (to / (w.map.width as int)) as i32,
                        },
                    ),
                    viewshed: Some(ViewshedView { dirty: true, ..s.viewshed->0 }),
                    ..s
                },
            )
        }
    } else {
        w
    }
}

/// The robots among the first `n` slots, in the order of the slots.
pub open spec fn robots_upto(slots: Seq<SlotView>, n: nat) -> Seq<Entity>
    decreases n,
{
    if n == 0 {
        Seq::empty()
    } else if acting_robot(slots[n - 1]) {
        robots_upto(slots, (n - 1) as nat).push(Entity { id: (n - 1) as usize })
    } else {
        robots_upto(slots, (n - 1) as nat)
    }
}

/// Whether `tiles` holds `p`.
fn holds(tiles: &Vec<Position>, p: Position) -> (found: bool)
    ensures
        found == tiles@.contains(p),
{
    let mut j: usize = 0;
    while j < tiles.len()
        invariant
            j <= tiles.len(),
            forall|k: int| 0 <= k < j ==> tiles@[k] != p,
        decreases tiles.len() - j,
    {
        if tiles[j] == p {
            return true;
        }
        j = j + 1;
    }
    false
}

impl RobotAI {
    /// The robots that take part in the robots' turn, in the order in which
    /// they are to decide.
    pub fn robots(&self, ecs: &World) -> (found: Vec<Entity>)
        ensures
            found@ == robots_upto(ecs@.slots, ecs@.slots.len()),
    {
        let mut found: Vec<Entity> = Vec::new();
        let mut i: usize = 0;
        while i < ecs.slots.len()
            invariant
                i <= ecs.slots.len(),
                found@ == robots_upto(ecs@.slots, i as nat),
            decreases ecs.slots.len() - i,
        {
            let s = &ecs.slots[i];
            if s.robot.is_some() && s.viewshed.is_some() && s.position.is_some() {
                found.push(Entity { id: i });
            }
            i = i + 1;
        }
        found
    }

    /// Lets the robot `robot` decide, and returns what it decided.
    pub fn run(&mut self, ecs: &mut World, robot: Entity) -> (plan: RobotPlan)
        requires
            old(ecs).wf(),
        ensures
            final(ecs).wf(),
            plan == plan_of(old(ecs)@, robot),
            final(ecs)@ == decided(old(ecs)@, robot),
    {
        match ecs.runstate {
            RunState::MonsterTurn => {},
            _ => {
                return RobotPlan::Idle;
            },
        }
        if robot.id >= ecs.slots.len() {
            return RobotPlan::Idle;
        }
        let at: Position;
        let sees_player: bool;
        {
            let s = &ecs.slots[robot.id];
            match (s.robot, &s.viewshed, s.position) {
                (Some(_), Some(viewshed), Some(p)) => {
                    at = p;
                    sees_player = holds(&viewshed.visible_tiles, ecs.player_pos);
                },
                _ => {
                    return RobotPlan::Idle;
                },
            }
        }
        match ecs.slots[robot.id].confusion {
            Some(c) => {
                let left = if c.turns <= 1 {
                    None
                } else {
                    Some(Confusion { turns: c.turns - 1 })
                };
                ecs.slots[robot.id].confusion = left;
                assert(ecs@.slots =~= decided(old(ecs)@, robot).slots);
                return RobotPlan::Idle;
            },
            None => {},
        }
        if squared_distance(at, ecs.player_pos) <= 2 {
            ecs.slots[robot.id].wants_to_melee = Some(WantsToMelee { target: ecs.player });
            assert(ecs@.slots =~= decided(old(ecs)@, robot).slots);
            return RobotPlan::Attack;
        }
        if sees_player {
            match (ecs.map.index_of(at.x, at.y), ecs.map.index_of(ecs.player_pos.x, ecs.player_pos.y)) {
                (Some(start), Some(end)) => {
                    return RobotPlan::Approach { start, end };
                },
                _ => {},
            }
        }
        RobotPlan::Idle
    }

    /// Moves the robot `robot` one step along the path that was found for
    /// it, if there is such a step.
    pub fn follow(&mut self, ecs: &mut World, robot: Entity, success: bool, steps: &Vec<usize>)
        requires
            old(ecs).wf(),
        ensures
            final(ecs).wf(),
            final(ecs)@ == followed(old(ecs)@, robot, success, steps@),
    {
        if !success || steps.len() <= 1 || robot.id >= ecs.slots.len() {
            return ;
        }
        let to = steps[1];
        if to >= ecs.map.blocked_tiles.len() {
            return ;
        }
        let at: Position;
        {
            let s = &ecs.slots[robot.id];
            match (s.robot, &s.viewshed, s.position) {
                (Some(_), Some(_), Some(p)) => {
                    at = p;
                },
                _ => {
                    return ;
                },
            }
        }
        match ecs.map.index_of(at.x, at.y) {
            Some(from) => {
                let (x, y) = ecs.map.idx_xy(to);
                let wall = match ecs.map.tiles[from] {
                    TileType::Wall => true,
                    TileType::Floor => false,
                };
                ecs.map.blocked_tiles[from] = wall;
                ecs.map.blocked_tiles[to] = true;
                assert(ecs.map@.tile_content =~= old(ecs).map@.tile_content);
                let s = &mut ecs.slots[robot.id];
                s.position = Some(Position { x, y });
                match &mut s.viewshed {
                    Some(viewshed) => {
                        viewshed.dirty = true;
                    },
                    None => {},
                }
                assert(ecs@.slots =~= followed(old(ecs)@, robot, success, steps@).slots);
            },
            None => {},
        }
    }
}

} // verus!
