//! One pass of the systems, step by step.
//!
//! A pass is: everybody who has to look again looks, in the order of the
//! slots; then every robot decides and, where it is to walk, walks, in the
//! order of the slots; then the turn is resolved. What an entity sees and
//! the path that a robot takes are computed outside this library, so a
//! pass stops wherever it needs one of them, says what it needs, and goes
//! on when it is handed the answer.

use vstd::prelude::*;
use crate::components::{Entity, Position};
use crate::robot_ai_system::{
    acting_robot, decided, followed, plan_of, RobotAI, RobotPlan,
};
use crate::runstate::PassCursor;
use crate::state::{resolved, State};
use crate::visibility_system::{looks_again, saw, ViewRequest, VisibilitySystem};
use crate::world::WorldView;

verus! {

/// What is handed to a pass.
#[derive(Clone, Debug)]
pub enum PassEvent {
    /// Nothing: the pass is to begin, or to go on without an answer.
    Begin,
    /// The tiles that the entity asked about sees.
    Seen { tiles: Vec<Position> },
    /// The path that was searched for the robot asked about: whether one
    /// was found, and its tiles from the start on.
    Path { success: bool, steps: Vec<usize> },
}

pub enum PassEventView {
    Begin,
    Seen { tiles: Seq<Position> },
    Path { success: bool, steps: Seq<usize> },
}

impl View for PassEvent {
    type V = PassEventView;

    open spec fn view(&self) -> PassEventView {
        match self {
            PassEvent::Begin => PassEventView::Begin,
            PassEvent::Seen { tiles } => PassEventView::Seen { tiles: tiles@ },
            PassEvent::Path { success, steps } => PassEventView::Path { success: *success, steps: steps@ },
        }
    }
}

/// What a pass needs from outside before it can go on.
#[derive(Clone, Copy, PartialEq, Eq, Structural, Debug)]
pub enum PassAction {
    /// What the viewer of `request` sees from where it stands.
    Look { request: ViewRequest },
    /// A path for `robot` from the tile with index `start` to the one with
    /// index `end`.
    FindPath { robot: Entity, start: usize, end: usize },
    /// Nothing: the pass is over.
    Done,
}

/// The world with the pass standing at `cursor`.
pub open spec fn at_cursor(w: WorldView, cursor: PassCursor) -> WorldView {
    WorldView { pass: cursor, ..w }
}

/// The request to look for the entity in slot `n`.
pub open spec fn request_of(w: WorldView, n: int) -> ViewRequest {
    ViewRequest {
        viewer: Entity { id: n as usize },
        at: w.slots[n].position->0,
        range: w.slots[n].viewshed->0.range,
    }
}

/// The pass from the decision of the robot in slot `n` on.
///
/// Every robot from there on decides, in the order of the slots. The pass
/// stops at the first that is to walk and asks for its path. Behind the
/// last robot the turn is resolved and the pass is over.
pub open spec fn robots_from(w: WorldView, n: nat) -> (WorldView, PassAction)
    decreases w.slots.len() - n,
{
    if n >= w.slots.len() {
        (at_cursor(resolved(w), PassCursor::Idle), PassAction::Done)
    } else if acting_robot(w.slots[n as int]) {
        let robot = Entity { id: n as usize };
        match plan_of(w, robot) {
            RobotPlan::Approach { start, end } => (
                at_cursor(decided(w, robot), PassCursor::Walking { robot: n as usize }),
                PassAction::FindPath { robot, start, end },
            ),
            _ => robots_from(decided(w, robot), n + 1),
        }
    } else {
        robots_from(w, n + 1)
    }
}

/// The pass from the look of the entity in slot `n` on.
///
/// The pass stops at the first entity from there on that has to look again
/// and asks what it sees. Behind the last it goes on with the robots.
pub open spec fn looks_from(w: WorldView, n: nat) -> (WorldView, PassAction)
    decreases w.slots.len() - n,
{
    if n >= w.slots.len() {
        robots_from(w, 0)
    } else if looks_again(w.slots[n as int]) {
        (
            at_cursor(w, PassCursor::Looking { viewer: n as usize }),
            PassAction::Look { request: request_of(w, n as int) },
        )
    } else {
        looks_from(w, n + 1)
    }
}

/// The world after it is handed `event` while the pass stands where it
/// stands, and what the pass needs next.
///
/// A pass that has not begun begins with the first look. A pass that
/// waits for what an entity sees takes the tiles, and goes on with the
/// next look. A pass that waits for a path lets the robot take its step,
/// and goes on with the next robot. Anything else than what the pass waits
/// for counts as no answer: the entity sees what it saw, the robot stays.
pub open spec fn pass_stepped(w: WorldView, event: PassEventView) -> (WorldView, PassAction) {
    match w.pass {
        PassCursor::Idle => looks_from(w, 0),
        PassCursor::Looking { viewer } => looks_from(
            match event {
                PassEventView::Seen { tiles } => saw(w, Entity { id: viewer }, tiles),
                _ => w,
            },
            (viewer + 1) as nat,
        ),
        PassCursor::Walking { robot } => robots_from(
            match event {
                PassEventView::Path { success, steps } => followed(w, Entity { id: robot }, success, steps),
                _ => w,
            },
            (robot + 1) as nat,
        ),
    }
}

/// The world after every robot from slot `n` on has decided, none of them
/// walking.
pub open spec fn deciding_from(w: WorldView, n: nat) -> WorldView
    decreases w.slots.len() - n,
{
    if n >= w.slots.len() {
        w
    } else if acting_robot(w.slots[n as int]) {
        deciding_from(decided(w, Entity { id: n as usize }), n + 1)
    } else {
        deciding_from(w, n + 1)
    }
}

/// The world after a pass without any answer from outside: nobody looks,
/// every robot decides, none walks, and the turn is resolved.
pub open spec fn unaided(w: WorldView) -> WorldView {
    resolved(deciding_from(w, 0))
}

impl State {
    /// Goes on with the robots from slot `from`.
    fn scan_robots(&mut self, from: usize) -> (action: PassAction)
        requires
            old(self).ecs.wf(),
        ensures
            final(self).ecs.wf(),
            (final(self).ecs@, action) == robots_from(old(self).ecs@, from as nat),
    {
        let mut ai = RobotAI {  };
        let mut i = from;
        while i < self.ecs.slots.len()
            invariant
                self.ecs.wf(),
                robots_from(self.ecs@, i as nat) == robots_from(old(self).ecs@, from as nat),
            decreases self.ecs.slots.len() - i,
        {
            let s = &self.ecs.slots[i];
            if s.robot.is_some() && s.viewshed.is_some() && s.position.is_some() {
                let ghost before = self.ecs@;
                let plan = ai.run(&mut self.ecs, Entity { id: i });
                assert(self.ecs@.slots.len() == before.slots.len());
                match plan {
                    RobotPlan::Approach { start, end } => {
                        self.ecs.pass = PassCursor::Walking { robot: i };
                        return PassAction::FindPath { robot: Entity { id: i }, start, end };
                    },
                    _ => {},
                }
            }
            i = i + 1;
        }
        self.resolve();
        self.ecs.pass = PassCursor::Idle;
        PassAction::Done
    }

    /// Goes on with the looks from slot `from`.
    fn scan_looks(&mut self, from: usize) -> (action: PassAction)
        requires
            old(self).ecs.wf(),
        ensures
            final(self).ecs.wf(),
            (final(self).ecs@, action) == looks_from(old(self).ecs@, from as nat),
    {
        let mut i = from;
        while i < self.ecs.slots.len()
            invariant
                self.ecs.wf(),
                self.ecs@ == old(self).ecs@,
                looks_from(self.ecs@, i as nat) == looks_from(old(self).ecs@, from as nat),
            decreases self.ecs.slots.len() - i,
        {
            let asked = match (&self.ecs.slots[i].viewshed, self.ecs.slots[i].position) {
                (Some(viewshed), Some(at)) => if viewshed.dirty {
                    Some(ViewRequest { viewer: Entity { id: i }, at, range: viewshed.range })
                } else {
                    None
                },
                _ => None,
            };
            match asked {
                Some(request) => {
                    self.ecs.pass = PassCursor::Looking { viewer: i };
                    return PassAction::Look { request };
                },
                None => {},
            }
            i = i + 1;
        }
        self.scan_robots(0)
    }

    /// The slot behind slot `n`, or the end of the arena where `n` is not
    /// before it.
    fn behind(&self, n: usize) -> (next: usize)
        ensures
            next == n + 1 || (n >= self.ecs@.slots.len() && next == self.ecs@.slots.len()),
    {
        if n < self.ecs.slots.len() {
            n + 1
        } else {
            self.ecs.slots.len()
        }
    }

    /// Takes the pass one step further: hands it `event`, and returns what
    /// it needs next.
    pub fn pass_step(&mut self, event: PassEvent) -> (action: PassAction)
        requires
            old(self).ecs.wf(),
        ensures
            final(self).ecs.wf(),
            final(self).ecs@ == pass_stepped(old(self).ecs@, event@).0,
            action == pass_stepped(old(self).ecs@, event@).1,
    {
        match self.ecs.pass {
            PassCursor::Idle => self.scan_looks(0),
            PassCursor::Looking { viewer } => {
                match event {
                    PassEvent::Seen { tiles } => {
                        let mut vis = VisibilitySystem {  };
                        vis.run(&mut self.ecs, Entity { id: viewer }, &tiles);
                    },
                    _ => {},
                }
                let next = self.behind(viewer);
                self.scan_looks(next)
            },
            PassCursor::Walking { robot } => {
                match event {
                    PassEvent::Path { success, steps } => {
                        let mut ai = RobotAI {  };
                        ai.follow(&mut self.ecs, Entity { id: robot }, success, &steps);
                    },
                    _ => {},
                }
                let next = self.behind(robot);
                self.scan_robots(next)
            },
        }
    }

    /// Runs a pass without any answer from outside: nobody looks, every
    /// robot decides, none walks, and the turn is resolved.
    pub fn run_systems(&mut self)
        requires
            old(self).ecs.wf(),
        ensures
            final(self).ecs.wf(),
            final(self).ecs@ == unaided(old(self).ecs@),
    {
        let mut ai = RobotAI {  };
        let mut i: usize = 0;
        while i < self.ecs.slots.len()
            invariant
                self.ecs.wf(),
                deciding_from(self.ecs@, i as nat) == deciding_from(old(self).ecs@, 0),
            decreases self.ecs.slots.len() - i,
        {
            let s = &self.ecs.slots[i];
            if s.robot.is_some() && s.viewshed.is_some() && s.position.is_some() {
                let ghost before = self.ecs@;
                let _ = ai.run(&mut self.ecs, Entity { id: i });
                assert(self.ecs@.slots.len() == before.slots.len());
            }
            i = i + 1;
        }
        self.resolve();
    }
}

} // verus!
