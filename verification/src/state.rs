//! The game as a whole: the world and the machine that takes it from phase
//! to phase.
//!
//! What an entity sees and the path that a robot takes are computed outside
//! this library. In the phases that run a pass of the systems a tick takes
//! the pass one step further, and says where the pass needs one of the two;
//! the caller hands the answer to the next tick.

use vstd::prelude::*;
use crate::components::{
    Entity, InBackpack, Position, WantsToDropItem, WantsToRemoveItem, WantsToUseItem,
};
use crate::damage_system::{damage_pass, delete_the_dead, swept, DamageSystem};
use crate::energy_system::{energy_pass, EnergySystem};
use crate::inventory_system::{
    collection_pass, drop_pass, remove_pass, ItemCollectionSystem, ItemDropSystem,
    ItemRemoveSystem,
};
use crate::item_use_system::{use_pass, StimPackUseSystem};
use crate::map::{GameMap, GameMapView, Rect, SerializationHelper, MAP_HEIGHT, MAP_WIDTH};
use crate::map_indexing_system::{indexed, MapIndexingSystem};
use crate::melee_combat_system::{melee_pass, MeleeCombatSystem};
use crate::oxygen_system::{oxygen_pass, OxygenSystem};
use crate::player::{
    end_turn_breathing, end_turn_targeting, input_state, input_world, player_input, retargeted,
    Command,
};
use crate::ranged_combat_system::{ranged_pass, RangedCombatSystem};
use crate::pass::{pass_stepped, PassAction, PassEvent, PassEventView};
use crate::runstate::{
    GameOverResult, ItemMenuResult, MainMenuResult, MainMenuSelection, PassCursor, RunState,
};
use crate::visibility_system::ViewRequest;
use crate::spawner::{
    artefact, artefact_view, battery, battery_view, blaster, blaster_view, item_in, oxygen_tank,
    oxygen_view, player, player_view, populated, robot_in, roomy, spawn_room, stim_pack_view,
    stim_packs,
};
use crate::world::{lemma_without_all_keeps, Slot, SlotView, Transient, World, WorldView};

verus! {

pub struct State {
    pub ecs: World,
}

/// What reached the game since the last tick.
#[derive(Clone, Debug)]
pub enum TickEvent {
    /// Nothing did.
    Nothing,
    /// What the main menu handed back.
    MainMenu { result: MainMenuResult },
    /// A command of the user.
    Command { command: Command },
    /// What a menu of items handed back, with the item that was chosen.
    ItemMenu { result: ItemMenuResult, item: Option<Entity> },
    /// What the choice of a target point handed back, with the point.
    Targeting { result: ItemMenuResult, point: Option<Position> },
    /// What the screen at the end of a game handed back.
    GameOver { result: GameOverResult },
    /// What the pass of the systems asked for.
    Pass { event: PassEvent },
}

pub enum TickEventView {
    Nothing,
    MainMenu { result: MainMenuResult },
    Command { command: Command },
    ItemMenu { result: ItemMenuResult, item: Option<Entity> },
    Targeting { result: ItemMenuResult, point: Option<Position> },
    GameOver { result: GameOverResult },
    Pass { event: PassEventView },
}

impl View for TickEvent {
    type V = TickEventView;

    open spec fn view(&self) -> TickEventView {
        match self {
            TickEvent::Nothing => TickEventView::Nothing,
            TickEvent::MainMenu { result } => TickEventView::MainMenu { result: *result },
            TickEvent::Command { command } => TickEventView::Command { command: *command },
            TickEvent::ItemMenu { result, item } => TickEventView::ItemMenu { result: *result, item: *item },
            TickEvent::Targeting { result, point } => TickEventView::Targeting {
                result: *result,
                point: *point,
            },
            TickEvent::GameOver { result } => TickEventView::GameOver { result: *result },
            TickEvent::Pass { event } => TickEventView::Pass { event: event@ },
        }
    }
}

/// What the caller is to do after a tick.
#[derive(Clone, Copy, PartialEq, Eq, Structural, Debug)]
pub enum TickAction {
    Nothing,
    /// Replace the world by the saved one.
    LoadGame,
    /// Save the world.
    SaveGame,
    /// End the program.
    Quit,
    /// Make a new map and have the world rebuilt on it.
    Restart,
    /// Find what the viewer of `request` sees, and hand it to the next tick.
    Look { request: ViewRequest },
    /// Search a path for `robot` from the tile with index `start` to the
    /// one with index `end`, and hand it to the next tick.
    FindPath { robot: Entity, start: usize, end: usize },
}

/// The world after one pass of the systems that resolve a turn: the map is
/// indexed; attacks are made and damage is taken; energy and oxygen are
/// used up; items are picked up, used, dropped and taken off; and the
/// deletions that waited are carried out.
pub open spec fn resolved(w: WorldView) -> WorldView {
    remove_pass(
        drop_pass(
            use_pass(
                collection_pass(
                    oxygen_pass(
                        energy_pass(damage_pass(ranged_pass(melee_pass(indexed(w))))),
                    ),
                ),
            ),
        ),
    ).maintained()
}

/// The world without anything that lives for one pass only.
pub open spec fn wiped(w: WorldView) -> WorldView {
    w.cleared(Transient::WantsToMelee).cleared(Transient::WantsToShoot).cleared(
        Transient::SufferDamage,
    ).cleared(Transient::DrainEnergy).cleared(Transient::BreathOxygen).cleared(
        Transient::WantsToPickupItem,
    ).cleared(Transient::WantsToUseItem).cleared(Transient::WantsToDropItem).cleared(
        Transient::WantsToRemoveItem,
    ).cleared(Transient::Target)
}

/// The world in which the player, if alive, wants to use `item` on
/// `target`.
pub open spec fn wanting_use(w: WorldView, item: Entity, target: Option<Position>) -> WorldView {
    if w.alive(w.player) {
        w.with_slot(
            w.player.id as int,
            SlotView {
                wants_to_use_item: Some(WantsToUseItem { item, target }),
                ..w.slot(w.player)
            },
        )
    } else {
        w
    }
}

/// The world in which the player, if alive, wants to drop `item`.
pub open spec fn wanting_drop(w: WorldView, item: Entity) -> WorldView {
    if w.alive(w.player) {
        w.with_slot(
            w.player.id as int,
            SlotView { wants_to_drop_item: Some(WantsToDropItem { item }), ..w.slot(w.player) },
        )
    } else {
        w
    }
}

/// The world in which the player, if alive, wants to take off `item`.
pub open spec fn wanting_remove(w: WorldView, item: Entity) -> WorldView {
    if w.alive(w.player) {
        w.with_slot(
            w.player.id as int,
            SlotView { wants_to_remove_item: Some(WantsToRemoveItem { item }), ..w.slot(w.player) },
        )
    } else {
        w
    }
}

/// The world in which nobody is left and no pass is under way.
pub open spec fn emptied(w: WorldView) -> WorldView {
    WorldView {
        slots: Seq::new(w.slots.len(), |i: int| SlotView::bare(false)),
        doomed: Seq::empty(),
        pass: PassCursor::Idle,
        ..w
    }
}

/// What a tick hands to the pass: what the pass asked for, or nothing.
pub open spec fn pass_event(event: TickEventView) -> PassEventView {
    match event {
        TickEventView::Pass { event } => event,
        _ => PassEventView::Begin,
    }
}

/// The world at the start of a step of a turn: the player's turn begins
/// with the breath that it costs.
pub open spec fn turn_begun(w: WorldView) -> WorldView {
    if w.runstate == RunState::PlayerTurn && w.pass == PassCursor::Idle {
        w.breathing(w.player, 1)
    } else {
        w
    }
}

/// The world after a tick in one of the phases that run a pass of the
/// systems: the pass goes one step further. Where that ends the pass, the
/// next phase begins: the robots' turn after the player's, at the end of
/// which the mark is put where it belongs, and the wait for input after
/// the others.
pub open spec fn turned(w: WorldView, event: TickEventView) -> WorldView {
    let stepped = pass_stepped(turn_begun(w), pass_event(event));
    if stepped.1 == PassAction::Done {
        if w.runstate == RunState::PlayerTurn {
            in_state(retargeted(stepped.0), RunState::MonsterTurn)
        } else {
            in_state(stepped.0, RunState::AwaitingInput)
        }
    } else {
        stepped.0
    }
}

/// What the caller is to do after a tick in one of the phases that run a
/// pass of the systems.
pub open spec fn turn_action(w: WorldView, event: TickEventView) -> TickAction {
    match pass_stepped(turn_begun(w), pass_event(event)).1 {
        PassAction::Look { request } => TickAction::Look { request },
        PassAction::FindPath { robot, start, end } => TickAction::FindPath { robot, start, end },
        PassAction::Done => TickAction::Nothing,
    }
}

/// The world in which nobody is left, on the map `m`.
pub open spec fn cleared_onto(w: WorldView, m: GameMapView) -> WorldView {
    WorldView { map: m, ..emptied(w) }
}

/// The world with the run state `state`.
pub open spec fn in_state(w: WorldView, state: RunState) -> WorldView {
    WorldView { runstate: state, ..w }
}

/// The world after the main menu has handed back `result`.
pub open spec fn after_main_menu(w: WorldView, result: MainMenuResult) -> WorldView {
    match result {
        MainMenuResult::NoSelection { selected } => in_state(
            w,
            RunState::MainMenu { menu_selection: selected },
        ),
        MainMenuResult::Selected { selected } => match selected {
            MainMenuSelection::NewGame => in_state(w, RunState::PreRun),
            MainMenuSelection::LoadGame => in_state(w, RunState::AwaitingInput),
            MainMenuSelection::Quit => w,
        },
    }
}

/// The world after the inventory has handed back a choice.
pub open spec fn after_inventory(w: WorldView, result: ItemMenuResult, item: Option<Entity>) -> WorldView {
    match result {
        ItemMenuResult::Cancel => in_state(w, RunState::AwaitingInput),
        ItemMenuResult::NoResponse => w,
        ItemMenuResult::Selected => match item {
            None => w,
            Some(e) => if w.slot(e).ranged is Some {
                in_state(w, RunState::ShowTargeting { range: w.slot(e).ranged->0.range, item: e })
            } else {
                in_state(wanting_use(w, e, None), RunState::PlayerTurn)
            },
        },
    }
}

/// The world after the menu of items to drop has handed back a choice.
pub open spec fn after_drop_menu(w: WorldView, result: ItemMenuResult, item: Option<Entity>) -> WorldView {
    match result {
        ItemMenuResult::Cancel => in_state(w, RunState::AwaitingInput),
        ItemMenuResult::NoResponse => w,
        ItemMenuResult::Selected => match item {
            None => w,
            Some(e) => in_state(wanting_drop(w, e), RunState::PlayerTurn),
        },
    }
}

/// The world after the menu of items to take off has handed back a choice.
pub open spec fn after_remove_menu(w: WorldView, result: ItemMenuResult, item: Option<Entity>) -> WorldView {
    match result {
        ItemMenuResult::Cancel => in_state(w, RunState::AwaitingInput),
        ItemMenuResult::NoResponse => w,
        ItemMenuResult::Selected => match item {
            None => w,
            Some(e) => in_state(wanting_remove(w, e), RunState::PlayerTurn),
        },
    }
}

/// The world after the choice of a target point for `item` has handed back
/// a result.
pub open spec fn after_targeting(w: WorldView, item: Entity, result: ItemMenuResult, point: Option<Position>) -> WorldView {
    match result {
        ItemMenuResult::Cancel => in_state(w, RunState::AwaitingInput),
        ItemMenuResult::NoResponse => w,
        ItemMenuResult::Selected => in_state(wanting_use(w, item, point), RunState::PlayerTurn),
    }
}

/// The world after the phase that it is in has dealt with `event`, before
/// the dead are removed. An event that the phase does not wait for changes
/// nothing.
pub open spec fn handled(w: WorldView, event: TickEventView) -> WorldView {
    match w.runstate {
        RunState::MainMenu { .. } => match event {
            TickEventView::MainMenu { result } => after_main_menu(w, result),
            _ => w,
        },
        RunState::SaveGame => in_state(
            wiped(w),
            RunState::MainMenu { menu_selection: MainMenuSelection::LoadGame },
        ),
        RunState::PreRun | RunState::PlayerTurn | RunState::MonsterTurn => turned(w, event),
        RunState::AwaitingInput => match event {
            TickEventView::Command { command } => in_state(
                input_world(w, command),
                input_state(w, command),
            ),
            _ => w,
        },
        RunState::ShowInventory => match event {
            TickEventView::ItemMenu { result, item } => after_inventory(w, result, item),
            _ => w,
        },
        RunState::ShowDropItem => match event {
            TickEventView::ItemMenu { result, item } => after_drop_menu(w, result, item),
            _ => w,
        },
        RunState::ShowRemoveItem => match event {
            TickEventView::ItemMenu { result, item } => after_remove_menu(w, result, item),
            _ => w,
        },
        RunState::ShowTargeting { range, item } => match event {
            TickEventView::Targeting { result, point } => after_targeting(w, item, result, point),
            _ => w,
        },
        RunState::GameOver | RunState::GameWon => match event {
            TickEventView::GameOver { result: GameOverResult::QuitToMenu } => in_state(
                emptied(w),
                RunState::MainMenu { menu_selection: MainMenuSelection::NewGame },
            ),
            _ => w,
        },
    }
}

/// What the caller is to do after the world `w` has dealt with `event`.
pub open spec fn action_for(w: WorldView, event: TickEventView) -> TickAction {
    match w.runstate {
        RunState::MainMenu { .. } => match event {
            TickEventView::MainMenu {
                result: MainMenuResult::Selected { selected: MainMenuSelection::LoadGame },
            } => TickAction::LoadGame,
            TickEventView::MainMenu {
                result: MainMenuResult::Selected { selected: MainMenuSelection::Quit },
            } => TickAction::Quit,
            _ => TickAction::Nothing,
        },
        RunState::SaveGame => TickAction::SaveGame,
        RunState::PreRun | RunState::PlayerTurn | RunState::MonsterTurn => turn_action(w, event),
        RunState::GameOver | RunState::GameWon => match event {
            TickEventView::GameOver { result: GameOverResult::QuitToMenu } => TickAction::Restart,
            _ => TickAction::Nothing,
        },
        _ => TickAction::Nothing,
    }
}

/// The world after one tick: the phase deals with the event, and, unless
/// a pass of the systems is under way, the dead are removed.
pub open spec fn ticked(w: WorldView, event: TickEventView) -> WorldView {
    let dealt = handled(w, event);
    if dealt.pass == PassCursor::Idle {
        swept(dealt)
    } else {
        dealt
    }
}

/// What the player starts a game with, carried by the entity `owner`.
pub open spec fn carried(item: SlotView, owner: Entity) -> SlotView {
    SlotView { position: None, in_backpack: Some(InBackpack { owner }), ..item }
}

/// The world after the player is created at `(x, y)` with what it starts a
/// game with in its backpack, and the artefact is laid out at `(ax, ay)`.
pub open spec fn outfitted(w: WorldView, x: i32, y: i32, ax: i32, ay: i32) -> WorldView {
    let hero = Entity { id: w.slots.len() as usize };
    WorldView {
        slots: w.slots.push(player_view(x, y)).push(carried(blaster_view(x, y), hero)).push(
            carried(stim_pack_view(x, y), hero),
        ).push(carried(oxygen_view(x, y, 'O', "Oxygen Tank"@, 50), hero)).push(
            carried(battery_view(x, y), hero),
        ).push(artefact_view(ax, ay)),
        player: hero,
        player_pos: Position { x, y },
        ..w
    }
}

/// Whether every room of the map but the first can be populated.
pub open spec fn furnishable(m: GameMapView) -> bool {
    m.rooms.len() > 0 && forall|k: int| 1 <= k < m.rooms.len() ==> roomy(#[trigger] m.rooms[k])
}

/// Whether `after` is `before` with robots and items created in the first
/// `n` rooms of the map after the first one, and nothing else changed.
pub open spec fn furnished(before: WorldView, after: WorldView, n: int) -> bool {
    &&& after == (WorldView { slots: after.slots, ..before })
    &&& after.slots.len() >= before.slots.len()
    &&& after.slots.take(before.slots.len() as int) == before.slots
    &&& forall|k: int| before.slots.len() <= k < after.slots.len() ==> exists|r: int| 1 <= r < n
        && (robot_in(#[trigger] after.slots[k], #[trigger] before.map.rooms[r]) || item_in(
        after.slots[k],
        before.map.rooms[r],
    ))
}

/// The middle of a room, as a pair of coordinates.
pub open spec fn centre_of(room: Rect) -> (i32, i32) {
    (room.middle().0 as i32, room.middle().1 as i32)
}

impl State {
    /// A game on the world `ecs`.
    pub fn new(ecs: World) -> (gs: State)
        ensures
            gs.ecs == ecs,
    {
        State { ecs }
    }

    /// The map as it is to be saved along with the entities.
    pub fn serialization_helper(&self) -> (helper: SerializationHelper)
        ensures
            helper.map@ == self.ecs@.map,
    {
        SerializationHelper { map: self.ecs.map.duplicate() }
    }

    /// A game on a world that was saved: nothing is in it that lives for
    /// one pass only.
    pub fn restored(ecs: World) -> (gs: State)
        ensures
            gs.ecs@ == wiped(ecs@),
    {
        let mut gs = State { ecs };
        gs.wipe_transients();
        gs
    }

    /// Resolves one turn on the world as the robots and the player left
    /// it.
    pub fn resolve(&mut self)
        requires
            old(self).ecs.wf(),
        ensures
            final(self).ecs.wf(),
            final(self).ecs@ == resolved(old(self).ecs@),
            final(self).ecs@.slots.len() == old(self).ecs@.slots.len(),
    {
        let mut mapindex = MapIndexingSystem {  };
        mapindex.run(&mut self.ecs);
        let mut melee = MeleeCombatSystem {  };
        melee.run(&mut self.ecs);
        let mut ranged = RangedCombatSystem {  };
        ranged.run(&mut self.ecs);
        let mut damage = DamageSystem {  };
        damage.run(&mut self.ecs);
        let mut energy = EnergySystem {  };
        energy.run(&mut self.ecs);
        let mut oxygen = OxygenSystem {  };
        oxygen.run(&mut self.ecs);
        let mut pickup = ItemCollectionSystem {  };
        pickup.run(&mut self.ecs);
        let mut item_use = StimPackUseSystem {  };
        item_use.run(&mut self.ecs);
        let mut drop_items = ItemDropSystem {  };
        drop_items.run(&mut self.ecs);
        let mut remove_items = ItemRemoveSystem {  };
        remove_items.run(&mut self.ecs);
        proof {
            lemma_without_all_keeps(self.ecs@, self.ecs@.doomed, self.ecs@.doomed.len());
        }
        self.ecs.maintain();
    }

    /// Takes off every entity whatever lives for one pass only.
    pub fn wipe_transients(&mut self)
        ensures
            final(self).ecs@ == wiped(old(self).ecs@),
    {
        self.ecs.clear(Transient::WantsToMelee);
        self.ecs.clear(Transient::WantsToShoot);
        self.ecs.clear(Transient::SufferDamage);
        self.ecs.clear(Transient::DrainEnergy);
        self.ecs.clear(Transient::BreathOxygen);
        self.ecs.clear(Transient::WantsToPickupItem);
        self.ecs.clear(Transient::WantsToUseItem);
        self.ecs.clear(Transient::WantsToDropItem);
        self.ecs.clear(Transient::WantsToRemoveItem);
        self.ecs.clear(Transient::Target);
    }

    /// Deletes every entity, and forgets the deletions that waited.
    pub fn delete_everything(&mut self)
        ensures
            final(self).ecs@ == emptied(old(self).ecs@),
    {
        let n = self.ecs.slots.len();
        let mut i: usize = 0;
        while i < n
            invariant
                i <= n,
                n == self.ecs.slots@.len(),
                n == old(self).ecs.slots@.len(),
                self.ecs@ == (WorldView { slots: self.ecs@.slots, ..old(self).ecs@ }),
                forall|j: int| 0 <= j < i ==> (#[trigger] self.ecs.slots@[j])@ == SlotView::bare(false),
            decreases n - i,
        {
            self.ecs.slots[i] = Slot::bare(false);
            i = i + 1;
        }
        self.ecs.doomed.clear();
        self.ecs.pass = PassCursor::Idle;
        assert(self.ecs@.slots =~= emptied(old(self).ecs@).slots);
    }

    /// Puts the entity that was created last into the backpack of `owner`.
    fn stow_last(&mut self, owner: Entity)
        requires
            old(self).ecs@.slots.len() > 0,
        ensures
            final(self).ecs@ == old(self).ecs@.with_slot(
                old(self).ecs@.slots.len() - 1,
                carried(old(self).ecs@.slots.last(), owner),
            ),
    {
        let last = self.ecs.slots.len() - 1;
        let slot = &mut self.ecs.slots[last];
        slot.position = None;
        slot.in_backpack = Some(InBackpack { owner });
        assert(self.ecs@.slots =~= old(self).ecs@.with_slot(
            old(self).ecs@.slots.len() - 1,
            carried(old(self).ecs@.slots.last(), owner),
        ).slots);
    }

    fn intend_use(&mut self, item: Entity, target: Option<Position>)
        ensures
            final(self).ecs@ == wanting_use(old(self).ecs@, item, target),
    {
        if self.ecs.is_alive(self.ecs.player) {
            let hero = self.ecs.player;
            self.ecs.slots[hero.id].wants_to_use_item = Some(WantsToUseItem { item, target });
            assert(self.ecs@.slots =~= wanting_use(old(self).ecs@, item, target).slots);
        }
    }

    fn intend_drop(&mut self, item: Entity)
        ensures
            final(self).ecs@ == wanting_drop(old(self).ecs@, item),
    {
        if self.ecs.is_alive(self.ecs.player) {
            let hero = self.ecs.player;
            self.ecs.slots[hero.id].wants_to_drop_item = Some(WantsToDropItem { item });
            assert(self.ecs@.slots =~= wanting_drop(old(self).ecs@, item).slots);
        }
    }

    fn intend_remove(&mut self, item: Entity)
        ensures
            final(self).ecs@ == wanting_remove(old(self).ecs@, item),
    {
        if self.ecs.is_alive(self.ecs.player) {
            let hero = self.ecs.player;
            self.ecs.slots[hero.id].wants_to_remove_item = Some(WantsToRemoveItem { item });
            assert(self.ecs@.slots =~= wanting_remove(old(self).ecs@, item).slots);
        }
    }

    fn main_menu(&mut self, result: MainMenuResult)
        ensures
            final(self).ecs@ == after_main_menu(old(self).ecs@, result),
    {
        match result {
            MainMenuResult::NoSelection { selected } => {
                self.ecs.runstate = RunState::MainMenu { menu_selection: selected };
            },
            MainMenuResult::Selected { selected } => match selected {
                MainMenuSelection::NewGame => {
                    self.ecs.runstate = RunState::PreRun;
                },
                MainMenuSelection::LoadGame => {
                    self.ecs.runstate = RunState::AwaitingInput;
                },
                MainMenuSelection::Quit => {},
            },
        }
    }

    fn inventory(&mut self, result: ItemMenuResult, item: Option<Entity>)
        ensures
            final(self).ecs@ == after_inventory(old(self).ecs@, result, item),
    {
        match result {
            ItemMenuResult::Cancel => {
                self.ecs.runstate = RunState::AwaitingInput;
            },
            ItemMenuResult::NoResponse => {},
            ItemMenuResult::Selected => match item {
                None => {},
                Some(e) => {
                    let ranged = if e.id < self.ecs.slots.len() {
                        self.ecs.slots[e.id].ranged
                    } else {
                        None
                    };
                    match ranged {
                        Some(r) => {
                            self.ecs.runstate = RunState::ShowTargeting { range: r.range, item: e };
                        },
                        None => {
                            self.intend_use(e, None);
                            self.ecs.runstate = RunState::PlayerTurn;
                        },
                    }
                },
            },
        }
    }

    fn drop_menu(&mut self, result: ItemMenuResult, item: Option<Entity>)
        ensures
            final(self).ecs@ == after_drop_menu(old(self).ecs@, result, item),
    {
        match result {
            ItemMenuResult::Cancel => {
                self.ecs.runstate = RunState::AwaitingInput;
            },
            ItemMenuResult::NoResponse => {},
            ItemMenuResult::Selected => match item {
                None => {},
                Some(e) => {
                    self.intend_drop(e);
                    self.ecs.runstate = RunState::PlayerTurn;
                },
            },
        }
    }

    fn remove_menu(&mut self, result: ItemMenuResult, item: Option<Entity>)
        ensures
            final(self).ecs@ == after_remove_menu(old(self).ecs@, result, item),
    {
        match result {
            ItemMenuResult::Cancel => {
                self.ecs.runstate = RunState::AwaitingInput;
            },
            ItemMenuResult::NoResponse => {},
            ItemMenuResult::Selected => match item {
                None => {},
                Some(e) => {
                    self.intend_remove(e);
                    self.ecs.runstate = RunState::PlayerTurn;
                },
            },
        }
    }

    fn targeting(&mut self, item: Entity, result: ItemMenuResult, point: Option<Position>)
        ensures
            final(self).ecs@ == after_targeting(old(self).ecs@, item, result, point),
    {
        match result {
            ItemMenuResult::Cancel => {
                self.ecs.runstate = RunState::AwaitingInput;
            },
            ItemMenuResult::NoResponse => {},
            ItemMenuResult::Selected => {
                self.intend_use(item, point);
                self.ecs.runstate = RunState::PlayerTurn;
            },
        }
    }

    /// Takes the pass of the systems one step further, and begins the next
    /// phase where that ends the pass.
    fn turn(&mut self, event: TickEvent) -> (action: TickAction)
        requires
            old(self).ecs.wf(),
        ensures
            final(self).ecs.wf(),
            final(self).ecs@ == turned(old(self).ecs@, event@),
            action == turn_action(old(self).ecs@, event@),
    {
        let players = match self.ecs.runstate {
            RunState::PlayerTurn => true,
            _ => false,
        };
        let idle = match self.ecs.pass {
            PassCursor::Idle => true,
            _ => false,
        };
        if players && idle {
            end_turn_breathing(&mut self.ecs);
        }
        let handed = match event {
            TickEvent::Pass { event } => event,
            _ => PassEvent::Begin,
        };
        match self.pass_step(handed) {
            PassAction::Look { request } => TickAction::Look { request },
            PassAction::FindPath { robot, start, end } => TickAction::FindPath { robot, start, end },
            PassAction::Done => {
                if players {
                    end_turn_targeting(&mut self.ecs);
                    self.ecs.runstate = RunState::MonsterTurn;
                } else {
                    self.ecs.runstate = RunState::AwaitingInput;
                }
                TickAction::Nothing
            },
        }
    }

    /// Lets the phase that the game is in deal with `event`.
    fn handle(&mut self, event: TickEvent) -> (action: TickAction)
        requires
            old(self).ecs.wf(),
        ensures
            final(self).ecs.wf(),
            final(self).ecs@ == handled(old(self).ecs@, event@),
            action == action_for(old(self).ecs@, event@),
    {
        match self.ecs.runstate {
            RunState::MainMenu { .. } => match event {
                TickEvent::MainMenu { result } => {
                    self.main_menu(result);
                    match result {
                        MainMenuResult::Selected { selected: MainMenuSelection::LoadGame } => TickAction::LoadGame,
                        MainMenuResult::Selected { selected: MainMenuSelection::Quit } => TickAction::Quit,
                        _ => TickAction::Nothing,
                    }
                },
                _ => TickAction::Nothing,
            },
            RunState::SaveGame => {
                self.wipe_transients();
                self.ecs.runstate = RunState::MainMenu { menu_selection: MainMenuSelection::LoadGame };
                TickAction::SaveGame
            },
            RunState::PreRun | RunState::PlayerTurn | RunState::MonsterTurn => self.turn(event),
            RunState::AwaitingInput => match event {
                TickEvent::Command { command } => {
                    let next = player_input(self, command);
                    self.ecs.runstate = next;
                    TickAction::Nothing
                },
                _ => TickAction::Nothing,
            },
            RunState::ShowInventory => match event {
                TickEvent::ItemMenu { result, item } => {
                    self.inventory(result, item);
                    TickAction::Nothing
                },
                _ => TickAction::Nothing,
            },
            RunState::ShowDropItem => match event {
                TickEvent::ItemMenu { result, item } => {
                    self.drop_menu(result, item);
                    TickAction::Nothing
                },
                _ => TickAction::Nothing,
            },
            RunState::ShowRemoveItem => match event {
                TickEvent::ItemMenu { result, item } => {
                    self.remove_menu(result, item);
                    TickAction::Nothing
                },
                _ => TickAction::Nothing,
            },
            RunState::ShowTargeting { range, item } => match event {
                TickEvent::Targeting { result, point } => {
                    self.targeting(item, result, point);
                    TickAction::Nothing
                },
                _ => TickAction::Nothing,
            },
            RunState::GameOver | RunState::GameWon => match event {
                TickEvent::GameOver { result: GameOverResult::QuitToMenu } => {
                    self.delete_everything();
                    self.ecs.runstate = RunState::MainMenu { menu_selection: MainMenuSelection::NewGame };
                    TickAction::Restart
                },
                _ => TickAction::Nothing,
            },
        }
    }

    /// Advances the game by one tick: the phase that it is in deals with
    /// `event`, and the dead are removed, unless a pass of the systems is
    /// under way. Returns what is left for the caller to do.
    pub fn tick(&mut self, event: TickEvent) -> (action: TickAction)
        requires
            old(self).ecs.wf(),
        ensures
            final(self).ecs.wf(),
            final(self).ecs@ == ticked(old(self).ecs@, event@),
            action == action_for(old(self).ecs@, event@),
    {
        let action = self.handle(event);
        match self.ecs.pass {
            PassCursor::Idle => {
                delete_the_dead(&mut self.ecs);
            },
            _ => {},
        }
        action
    }

    /// Rebuilds the world after a game has ended, on a map that is made for
    /// it: see `rebuild`.
    pub fn game_over_cleanup(&mut self, rng: &mut rltk::RandomNumberGenerator)
        ensures
            final(self).ecs.wf(),
            final(self).ecs.map.rooms_and_corridors(),
            final(self).ecs@.map.width == MAP_WIDTH,
            final(self).ecs@.map.height == MAP_HEIGHT,
            exists|v: WorldView| #[trigger] furnished(
                cleared_onto(old(self).ecs@, final(self).ecs@.map),
                v,
                final(self).ecs@.map.rooms.len() as int,
            ) && final(self).ecs@ == outfitted(
                v,
                centre_of(final(self).ecs@.map.rooms[0]).0,
                centre_of(final(self).ecs@.map.rooms[0]).1,
                centre_of(final(self).ecs@.map.rooms.last()).0,
                centre_of(final(self).ecs@.map.rooms.last()).1,
            ),
    {
        let map = GameMap::new_map_rooms_and_corridors(MAP_WIDTH, MAP_HEIGHT, rng);
        proof {
            assert forall|k: int| 1 <= k < map@.rooms.len() implies roomy(#[trigger] map@.rooms[k]) by {
                assert(map@.encloses(map@.rooms[k]));
            }
        }
        self.rebuild(map, rng);
    }

    /// Rebuilds the world on `map`: everybody is deleted; the rooms after
    /// the first are populated; the player is created in the middle of the
    /// first room, carrying what it starts a game with; and the artefact is
    /// laid out in the middle of the last room.
    pub fn rebuild(&mut self, map: GameMap, rng: &mut rltk::RandomNumberGenerator)
        requires
            map.wf(),
            furnishable(map@),
        ensures
            final(self).ecs.wf(),
            final(self).ecs@.map == map@,
            exists|v: WorldView| #[trigger] furnished(
                cleared_onto(old(self).ecs@, map@),
                v,
                map@.rooms.len() as int,
            ) && final(self).ecs@ == outfitted(
                v,
                centre_of(map@.rooms[0]).0,
                centre_of(map@.rooms[0]).1,
                centre_of(map@.rooms.last()).0,
                centre_of(map@.rooms.last()).1,
            ),
    {
        self.delete_everything();
        self.ecs.map = map;
        let ghost base = self.ecs@;
        let n = self.ecs.map.rooms.len();
        let mut k: usize = 1;
        assert(self.ecs@.slots.take(base.slots.len() as int) =~= base.slots);
        while k < n
            invariant
                1 <= k <= n,
                n == self.ecs.map@.rooms.len(),
                self.ecs.wf(),
                base.map == self.ecs.map@,
                furnishable(base.map),
                furnished(base, self.ecs@, k as int),
            decreases n - k,
        {
            let room = self.ecs.map.rooms[k];
            let ghost prior = self.ecs@;
            spawn_room(&mut self.ecs, &room, rng);
            proof {
                let now = self.ecs@;
                let (robots, items) = choose|robots: int, items: int| 0 <= robots <= 3 && 0 <= items <= 1
                    && #[trigger] populated(prior, now, room, robots, items);
                assert(now.slots.take(base.slots.len() as int) =~= base.slots) by {
                    assert(now.slots.take(prior.slots.len() as int) == prior.slots);
                    assert forall|j: int| 0 <= j < base.slots.len() implies now.slots[j] == base.slots[j] by {
                        assert(now.slots.take(prior.slots.len() as int)[j] == now.slots[j]);
                        assert(prior.slots.take(base.slots.len() as int)[j] == prior.slots[j]);
                    }
                }
                assert forall|j: int| base.slots.len() <= j < now.slots.len() implies exists|r: int| 1 <= r < k + 1
                    && (robot_in(#[trigger] now.slots[j], #[trigger] base.map.rooms[r]) || item_in(
                    now.slots[j],
                    base.map.rooms[r],
                )) by {
                    if j < prior.slots.len() {
                        assert(now.slots.take(prior.slots.len() as int)[j] == now.slots[j]);
                        assert(now.slots[j] == prior.slots[j]);
                        let r = choose|r: int| 1 <= r < k && (robot_in(#[trigger] prior.slots[j], #[trigger] base.map.rooms[r])
                            || item_in(prior.slots[j], base.map.rooms[r]));
                        assert(1 <= r < k + 1);
                    } else {
                        assert(base.map.rooms[k as int] == room);
                        if j < prior.slots.len() + robots {
                            assert(robot_in(now.slots[j], room));
                        } else {
                            assert(item_in(now.slots[j], room));
                        }
                    }
                }
            }
            k = k + 1;
        }
        let ghost v = self.ecs@;
        let (player_x, player_y) = self.ecs.map.rooms[0].center();
        let (artefact_x, artefact_y) = self.ecs.map.rooms[n - 1].center();
        let hero = player(&mut self.ecs, player_x, player_y);
        blaster(&mut self.ecs, player_x, player_y);
        self.stow_last(hero);
        stim_packs(&mut self.ecs, player_x, player_y);
        self.stow_last(hero);
        oxygen_tank(&mut self.ecs, player_x, player_y);
        self.stow_last(hero);
        battery(&mut self.ecs, player_x, player_y);
        self.stow_last(hero);
        artefact(&mut self.ecs, artefact_x, artefact_y);
        self.ecs.player_pos = Position { x: player_x, y: player_y };
        self.ecs.player = hero;
        assert(self.ecs@.slots =~= outfitted(v, player_x, player_y, artefact_x, artefact_y).slots);
    }
}

} // verus!
