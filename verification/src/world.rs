//! The entity store: an arena of slots, one per entity, each holding the
//! components that the entity has, together with the shared resources of a
//! game (map, log, phase, who the player is).

use vstd::prelude::*;
use crate::components::{
    AreaOfEffect, ArtefactFromYendoria, BlocksTile, BreathOxygen, CombatStats, CombatStatsView,
    Confusion, Consumable, DrainEnergy, Entity, Equippable, Equipped, InBackpack, InflictsDamage,
    Item, MeleePowerBonus, Name, Player, Position, ProvidesEnergy, ProvidesHealing,
    ProvidesOxygen, Ranged, RangedWeapon, Renderable, Robot, SerializeMe, SufferDamage, Target,
    Viewshed, ViewshedView, WantsToDropItem, WantsToMelee, WantsToPickupItem, WantsToRemoveItem,
    WantsToShoot, WantsToUseItem,
};
use crate::gamelog::GameLog;
use crate::map::{GameMap, GameMapView};
use crate::runstate::{MainMenuSelection, PassCursor, RunState};

verus! {

/// What one entity has. A slot that is not `alive` stands for an entity that
/// was deleted.
pub struct Slot {
    pub alive: bool,
    pub position: Option<Position>,
    pub renderable: Option<Renderable>,
    pub player: Option<Player>,
    pub viewshed: Option<Viewshed>,
    pub robot: Option<Robot>,
    pub name: Option<Name>,
    pub blocks_tile: Option<BlocksTile>,
    pub combat_stats: Option<CombatStats>,
    pub wants_to_melee: Option<WantsToMelee>,
    pub suffer_damage: Option<SufferDamage>,
    pub drain_energy: Option<DrainEnergy>,
    pub breath_oxygen: Option<BreathOxygen>,
    pub item: Option<Item>,
    pub provides_healing: Option<ProvidesHealing>,
    pub in_backpack: Option<InBackpack>,
    pub wants_to_pickup_item: Option<WantsToPickupItem>,
    pub wants_to_use_item: Option<WantsToUseItem>,
    pub wants_to_drop_item: Option<WantsToDropItem>,
    pub consumable: Option<Consumable>,
    pub ranged: Option<Ranged>,
    pub inflicts_damage: Option<InflictsDamage>,
    pub area_of_effect: Option<AreaOfEffect>,
    pub confusion: Option<Confusion>,
    pub serialize_me: Option<SerializeMe>,
    pub equippable: Option<Equippable>,
    pub equipped: Option<Equipped>,
    pub melee_power_bonus: Option<MeleePowerBonus>,
    pub ranged_weapon: Option<RangedWeapon>,
    pub wants_to_remove_item: Option<WantsToRemoveItem>,
    pub target: Option<Target>,
    pub wants_to_shoot: Option<WantsToShoot>,
    pub provides_oxygen: Option<ProvidesOxygen>,
    pub provides_energy: Option<ProvidesEnergy>,
    pub artefact_from_yendoria: Option<ArtefactFromYendoria>,
}

pub struct SlotView {
    pub alive: bool,
    pub position: Option<Position>,
    pub renderable: Option<Renderable>,
    pub player: Option<Player>,
    pub viewshed: Option<ViewshedView>,
    pub robot: Option<Robot>,
    pub name: Option<Seq<char>>,
    pub blocks_tile: Option<BlocksTile>,
    pub combat_stats: Option<CombatStatsView>,
    pub wants_to_melee: Option<WantsToMelee>,
    pub suffer_damage: Option<Seq<i32>>,
    pub drain_energy: Option<Seq<i32>>,
    pub breath_oxygen: Option<Seq<i32>>,
    pub item: Option<Item>,
    pub provides_healing: Option<ProvidesHealing>,
    pub in_backpack: Option<InBackpack>,
    pub wants_to_pickup_item: Option<WantsToPickupItem>,
    pub wants_to_use_item: Option<WantsToUseItem>,
    pub wants_to_drop_item: Option<WantsToDropItem>,
    pub consumable: Option<Consumable>,
    pub ranged: Option<Ranged>,
    pub inflicts_damage: Option<InflictsDamage>,
    pub area_of_effect: Option<AreaOfEffect>,
    pub confusion: Option<Confusion>,
    pub serialize_me: Option<SerializeMe>,
    pub equippable: Option<Equippable>,
    pub equipped: Option<Equipped>,
    pub melee_power_bonus: Option<MeleePowerBonus>,
    pub ranged_weapon: Option<RangedWeapon>,
    pub wants_to_remove_item: Option<WantsToRemoveItem>,
    pub target: Option<Target>,
    pub wants_to_shoot: Option<WantsToShoot>,
    pub provides_oxygen: Option<ProvidesOxygen>,
    pub provides_energy: Option<ProvidesEnergy>,
    pub artefact_from_yendoria: Option<ArtefactFromYendoria>,
}

/// The view of a component that may be absent.
pub open spec fn view_of<T: View>(component: Option<T>) -> Option<T::V> {
    match component {
        Some(c) => Some(c@),
        None => None,
    }
}

impl SlotView {
    /// A slot without any component.
    pub open spec fn bare(alive: bool) -> SlotView {
        SlotView {
            alive,
            position: None,
            renderable: None,
            player: None,
            viewshed: None,
            robot: None,
            name: None,
            blocks_tile: None,
            combat_stats: None,
            wants_to_melee: None,
            suffer_damage: None,
            drain_energy: None,
            breath_oxygen: None,
            item: None,
            provides_healing: None,
            in_backpack: None,
            wants_to_pickup_item: None,
            wants_to_use_item: None,
            wants_to_drop_item: None,
            consumable: None,
            ranged: None,
            inflicts_damage: None,
            area_of_effect: None,
            confusion: None,
            serialize_me: None,
            equippable: None,
            equipped: None,
            melee_power_bonus: None,
            ranged_weapon: None,
            wants_to_remove_item: None,
            target: None,
            wants_to_shoot: None,
            provides_oxygen: None,
            provides_energy: None,
            artefact_from_yendoria: None,
        }
    }

    /// The slot with one more amount of damage waiting.
    pub open spec fn hurt(self, amount: i32) -> SlotView {
        SlotView {
            suffer_damage: Some(
                match self.suffer_damage {
                    Some(waiting) => waiting.push(amount),
                    None => seq![amount],
                },
            ),
            ..self
        }
    }

    /// The slot with one more amount of energy to drain.
    pub open spec fn drained(self, amount: i32) -> SlotView {
        SlotView {
            drain_energy: Some(
                match self.drain_energy {
                    Some(waiting) => waiting.push(amount),
                    None => seq![amount],
                },
            ),
            ..self
        }
    }

    /// The slot with one more amount of oxygen to breathe.
    pub open spec fn breathing(self, amount: i32) -> SlotView {
        SlotView {
            breath_oxygen: Some(
                match self.breath_oxygen {
                    Some(waiting) => waiting.push(amount),
                    None => seq![amount],
                },
            ),
            ..self
        }
    }

    /// The pools of the slot, where it has any, are bounded.
    pub open spec fn pools_bounded(self) -> bool {
        self.combat_stats is Some ==> self.combat_stats->0.bounded()
    }
}

impl View for Slot {
    type V = SlotView;

    open spec fn view(&self) -> SlotView {
        SlotView {
            alive: self.alive,
            position: self.position,
            renderable: self.renderable,
            player: self.player,
            viewshed: view_of(self.viewshed),
            robot: self.robot,
            name: view_of(self.name),
            blocks_tile: self.blocks_tile,
            combat_stats: view_of(self.combat_stats),
            wants_to_melee: self.wants_to_melee,
            suffer_damage: view_of(self.suffer_damage),
            drain_energy: view_of(self.drain_energy),
            breath_oxygen: view_of(self.breath_oxygen),
            item: self.item,
            provides_healing: self.provides_healing,
            in_backpack: self.in_backpack,
            wants_to_pickup_item: self.wants_to_pickup_item,
            wants_to_use_item: self.wants_to_use_item,
            wants_to_drop_item: self.wants_to_drop_item,
            consumable: self.consumable,
            ranged: self.ranged,
            inflicts_damage: self.inflicts_damage,
            area_of_effect: self.area_of_effect,
            confusion: self.confusion,
            serialize_me: self.serialize_me,
            equippable: self.equippable,
            equipped: self.equipped,
            melee_power_bonus: self.melee_power_bonus,
            ranged_weapon: self.ranged_weapon,
            wants_to_remove_item: self.wants_to_remove_item,
            target: self.target,
            wants_to_shoot: self.wants_to_shoot,
            provides_oxygen: self.provides_oxygen,
            provides_energy: self.provides_energy,
            artefact_from_yendoria: self.artefact_from_yendoria,
        }
    }
}

impl Slot {
    /// A slot without any component.
    pub fn bare(alive: bool) -> (slot: Slot)
        ensures
            slot@ == SlotView::bare(alive),
    {
        Slot {
            alive,
            position: None,
            renderable: None,
            player: None,
            viewshed: None,
            robot: None,
            name: None,
            blocks_tile: None,
            combat_stats: None,
            wants_to_melee: None,
            suffer_damage: None,
            drain_energy: None,
            breath_oxygen: None,
            item: None,
            provides_healing: None,
            in_backpack: None,
            wants_to_pickup_item: None,
            wants_to_use_item: None,
            wants_to_drop_item: None,
            consumable: None,
            ranged: None,
            inflicts_damage: None,
            area_of_effect: None,
            confusion: None,
            serialize_me: None,
            equippable: None,
            equipped: None,
            melee_power_bonus: None,
            ranged_weapon: None,
            wants_to_remove_item: None,
            target: None,
            wants_to_shoot: None,
            provides_oxygen: None,
            provides_energy: None,
            artefact_from_yendoria: None,
        }
    }

    /// The slot of a new entity that has no component yet.
    pub fn new() -> (slot: Slot)
        ensures
            slot@ == SlotView::bare(true),
    {
        Slot::bare(true)
    }
}

/// The kinds of component that live for one pass only: intents,
/// accumulators, and the mark on the player's target.
#[derive(Clone, Copy, PartialEq, Eq, Structural, Debug)]
pub enum Transient {
    WantsToMelee,
    WantsToShoot,
    SufferDamage,
    DrainEnergy,
    BreathOxygen,
    WantsToPickupItem,
    WantsToUseItem,
    WantsToDropItem,
    WantsToRemoveItem,
    Target,
}

impl SlotView {
    /// The slot without its component of the given kind.
    pub open spec fn cleared(self, kind: Transient) -> SlotView {
        match kind {
            Transient::WantsToMelee => SlotView { wants_to_melee: None, ..self },
            Transient::WantsToShoot => SlotView { wants_to_shoot: None, ..self },
            Transient::SufferDamage => SlotView { suffer_damage: None, ..self },
            Transient::DrainEnergy => SlotView { drain_energy: None, ..self },
            Transient::BreathOxygen => SlotView { breath_oxygen: None, ..self },
            Transient::WantsToPickupItem => SlotView { wants_to_pickup_item: None, ..self },
            Transient::WantsToUseItem => SlotView { wants_to_use_item: None, ..self },
            Transient::WantsToDropItem => SlotView { wants_to_drop_item: None, ..self },
            Transient::WantsToRemoveItem => SlotView { wants_to_remove_item: None, ..self },
            Transient::Target => SlotView { target: None, ..self },
        }
    }
}

impl Slot {
    /// Takes the component of the given kind off the slot.
    pub fn clear(&mut self, kind: Transient)
        ensures
            final(self)@ == old(self)@.cleared(kind),
    {
        match kind {
            Transient::WantsToMelee => {
                self.wants_to_melee = None;
            },
            Transient::WantsToShoot => {
                self.wants_to_shoot = None;
            },
            Transient::SufferDamage => {
                self.suffer_damage = None;
            },
            Transient::DrainEnergy => {
                self.drain_energy = None;
            },
            Transient::BreathOxygen => {
                self.breath_oxygen = None;
            },
            Transient::WantsToPickupItem => {
                self.wants_to_pickup_item = None;
            },
            Transient::WantsToUseItem => {
                self.wants_to_use_item = None;
            },
            Transient::WantsToDropItem => {
                self.wants_to_drop_item = None;
            },
            Transient::WantsToRemoveItem => {
                self.wants_to_remove_item = None;
            },
            Transient::Target => {
                self.target = None;
            },
        }
    }
}

pub struct World {
    /// One slot per entity ever created, at the index that is its identity.
    pub slots: Vec<Slot>,
    /// The entities whose deletion waits for the end of the pass.
    pub doomed: Vec<Entity>,
    pub map: GameMap,
    pub player: Entity,
    pub player_pos: Position,
    pub runstate: RunState,
    pub pass: PassCursor,
    pub log: GameLog,
}

pub struct WorldView {
    pub slots: Seq<SlotView>,
    pub doomed: Seq<Entity>,
    pub map: GameMapView,
    pub player: Entity,
    pub player_pos: Position,
    pub runstate: RunState,
    pub pass: PassCursor,
    pub log: Seq<Seq<char>>,
}

impl WorldView {
    pub open spec fn wf(self) -> bool {
        self.map.wf()
    }

    /// Whether `e` names a slot of the arena.
    pub open spec fn has(self, e: Entity) -> bool {
        e.id < self.slots.len()
    }

    /// What `e` has; nothing, where `e` names no slot.
    pub open spec fn slot(self, e: Entity) -> SlotView {
        if self.has(e) {
            self.slots[e.id as int]
        } else {
            SlotView::bare(false)
        }
    }

    /// Whether `e` exists and was not deleted.
    pub open spec fn alive(self, e: Entity) -> bool {
        self.slot(e).alive
    }

    /// The world with the slot at index `i` replaced.
    pub open spec fn with_slot(self, i: int, slot: SlotView) -> WorldView {
        WorldView { slots: self.slots.update(i, slot), ..self }
    }

    /// The world with one more message in its log.
    pub open spec fn logged(self, message: Seq<char>) -> WorldView {
        WorldView { log: self.log.push(message), ..self }
    }

    /// The world with `amount` more damage waiting for `victim`, if it is
    /// alive.
    pub open spec fn hurt(self, victim: Entity, amount: i32) -> WorldView {
        if self.alive(victim) {
            self.with_slot(victim.id as int, self.slot(victim).hurt(amount))
        } else {
            self
        }
    }

    /// The world with `amount` more energy to drain from `victim`, if it is
    /// alive.
    pub open spec fn drained(self, victim: Entity, amount: i32) -> WorldView {
        if self.alive(victim) {
            self.with_slot(victim.id as int, self.slot(victim).drained(amount))
        } else {
            self
        }
    }

    /// The world with `amount` more oxygen to breathe by `victim`, if it is
    /// alive.
    pub open spec fn breathing(self, victim: Entity, amount: i32) -> WorldView {
        if self.alive(victim) {
            self.with_slot(victim.id as int, self.slot(victim).breathing(amount))
        } else {
            self
        }
    }

    /// The world without `e`: its slot is emptied and marked as deleted.
    pub open spec fn without(self, e: Entity) -> WorldView {
        if self.has(e) {
            self.with_slot(e.id as int, SlotView::bare(false))
        } else {
            self
        }
    }

    /// The world without the first `n` of the entities in `gone`.
    pub open spec fn without_all(self, gone: Seq<Entity>, n: nat) -> WorldView
        decreases n,
    {
        if n == 0 {
            self
        } else {
            self.without_all(gone, (n - 1) as nat).without(gone[n - 1])
        }
    }

    /// The world after the deletions that waited are carried out.
    pub open spec fn maintained(self) -> WorldView {
        WorldView { doomed: Seq::empty(), ..self.without_all(self.doomed, self.doomed.len()) }
    }

    /// The world in which no entity has a component of the given kind.
    pub open spec fn cleared(self, kind: Transient) -> WorldView {
        WorldView {
            slots: Seq::new(self.slots.len(), |i: int| self.slots[i].cleared(kind)),
            ..self
        }
    }

    /// Every pool of every entity is bounded.
    pub open spec fn pools_bounded(self) -> bool {
        forall|i: int| 0 <= i < self.slots.len() ==> (#[trigger] self.slots[i]).pools_bounded()
    }
}

impl View for World {
    type V = WorldView;

    open spec fn view(&self) -> WorldView {
        WorldView {
            slots: Seq::new(self.slots@.len(), |i: int| self.slots@[i]@),
            doomed: self.doomed@,
            map: self.map@,
            player: self.player,
            player_pos: self.player_pos,
            runstate: self.runstate,
            pass: self.pass,
            log: self.log@,
        }
    }
}

impl World {
    pub open spec fn wf(&self) -> bool {
        self@.wf()
    }

    /// A world on `map` with nobody in it. The player is to be the first
    /// entity created; the game starts at the main menu.
    pub fn new(map: GameMap) -> (world: World)
        requires
            map.wf(),
        ensures
            world.wf(),
            world@ == (WorldView {
                slots: Seq::empty(),
                doomed: Seq::empty(),
                map: map@,
                player: Entity { id: 0 },
                player_pos: Position { x: 0, y: 0 },
                runstate: RunState::MainMenu { menu_selection: MainMenuSelection::NewGame },
                pass: PassCursor::Idle,
                log: Seq::empty(),
            }),
    {
        let world = World {
            slots: Vec::new(),
            doomed: Vec::new(),
            map,
            player: Entity { id: 0 },
            player_pos: Position { x: 0, y: 0 },
            runstate: RunState::MainMenu { menu_selection: MainMenuSelection::NewGame },
            pass: PassCursor::Idle,
            log: GameLog::new(),
        };
        assert(world@.slots =~= Seq::empty());
        assert(world@.doomed =~= Seq::empty());
        world
    }

    /// Adds an entity with the components in `slot`, and returns its
    /// identity: the number of entities created before it.
    pub fn create_entity(&mut self, slot: Slot) -> (e: Entity)
        ensures
            e.id == old(self)@.slots.len(),
            final(self)@ == (WorldView { slots: old(self)@.slots.push(slot@), ..old(self)@ }),
    {
        let e = Entity { id: self.slots.len() };
        self.slots.push(slot);
        assert(self@.slots =~= old(self)@.slots.push(slot@));
        e
    }

    pub fn is_alive(&self, e: Entity) -> (b: bool)
        ensures
            b == self@.alive(e),
    {
        e.id < self.slots.len() && self.slots[e.id].alive
    }

    /// Deletes `e` at once: nothing of it stays but its index.
    pub fn delete_entity(&mut self, e: Entity)
        ensures
            final(self)@ == old(self)@.without(e),
    {
        if e.id < self.slots.len() {
            self.slots[e.id] = Slot::bare(false);
            assert(self@.slots =~= old(self)@.without(e).slots);
        }
    }

    /// Asks for `e` to be deleted when the pass ends.
    pub fn delete_later(&mut self, e: Entity)
        ensures
            final(self)@ == (WorldView { doomed: old(self)@.doomed.push(e), ..old(self)@ }),
    {
        self.doomed.push(e);
    }

    /// Takes the component of the given kind off every entity.
    pub fn clear(&mut self, kind: Transient)
        ensures
            final(self)@ == old(self)@.cleared(kind),
    {
        let n = self.slots.len();
        let mut k: usize = 0;
        while k < n
            invariant
                k <= n,
                n == self.slots@.len(),
                n == old(self).slots@.len(),
                self@ == (WorldView { slots: self@.slots, ..old(self)@ }),
                forall|j: int| 0 <= j < k ==> (#[trigger] self.slots@[j])@ == old(self).slots@[j]@.cleared(kind),
                forall|j: int| k <= j < n ==> (#[trigger] self.slots@[j]) == old(self).slots@[j],
            decreases n - k,
        {
            self.slots[k].clear(kind);
            k = k + 1;
        }
        assert(self@.slots =~= old(self)@.cleared(kind).slots);
    }

    /// Carries out the deletions that waited.
    pub fn maintain(&mut self)
        ensures
            final(self)@ == old(self)@.maintained(),
    {
        let n = self.doomed.len();
        let mut i: usize = 0;
        while i < n
            invariant
                i <= n,
                n == self.doomed@.len(),
                self.doomed@ == old(self)@.doomed,
                self@ == old(self)@.without_all(old(self)@.doomed, i as nat),
            decreases n - i,
        {
            let e = self.doomed[i];
            self.delete_entity(e);
            i = i + 1;
        }
        self.doomed.clear();
    }
}

impl SufferDamage {
    /// Adds `amount` to the damage that waits for `victim`. Nothing waits
    /// for an entity that is not alive.
    pub fn new_damage(store: &mut World, victim: Entity, amount: i32)
        ensures
            final(store)@ == old(store)@.hurt(victim, amount),
    {
        if store.is_alive(victim) {
            let slot = &mut store.slots[victim.id];
            match &mut slot.suffer_damage {
                Some(waiting) => {
                    waiting.amount.push(amount);
                },
                None => {
                    let mut first: Vec<i32> = Vec::new();
                    first.push(amount);
                    slot.suffer_damage = Some(SufferDamage { amount: first });
                },
            }
            assert(store@.slots =~= old(store)@.hurt(victim, amount).slots);
        }
    }
}

impl DrainEnergy {
    /// Adds `amount` to the energy that `victim` is to lose. Nothing waits
    /// for an entity that is not alive.
    pub fn new_energy(store: &mut World, victim: Entity, amount: i32)
        ensures
            final(store)@ == old(store)@.drained(victim, amount),
    {
        if store.is_alive(victim) {
            let slot = &mut store.slots[victim.id];
            match &mut slot.drain_energy {
                Some(waiting) => {
                    waiting.amount.push(amount);
                },
                None => {
                    let mut first: Vec<i32> = Vec::new();
                    first.push(amount);
                    slot.drain_energy = Some(DrainEnergy { amount: first });
                },
            }
            assert(store@.slots =~= old(store)@.drained(victim, amount).slots);
        }
    }
}

impl BreathOxygen {
    /// Adds `amount` to the oxygen that `victim` is to use up. Nothing
    /// waits for an entity that is not alive.
    pub fn new_breath(store: &mut World, victim: Entity, amount: i32)
        ensures
            final(store)@ == old(store)@.breathing(victim, amount),
    {
        if store.is_alive(victim) {
            let slot = &mut store.slots[victim.id];
            match &mut slot.breath_oxygen {
                Some(waiting) => {
                    waiting.amount.push(amount);
                },
                None => {
                    let mut first: Vec<i32> = Vec::new();
                    first.push(amount);
                    slot.breath_oxygen = Some(BreathOxygen { amount: first });
                },
            }
            assert(store@.slots =~= old(store)@.breathing(victim, amount).slots);
        }
    }
}

/// Deleting changes neither the number of slots nor the map.
pub proof fn lemma_without_all_keeps(w: WorldView, gone: Seq<Entity>, n: nat)
    requires
        n <= gone.len(),
    ensures
        w.without_all(gone, n).slots.len() == w.slots.len(),
        w.without_all(gone, n).map == w.map,
    decreases n,
{
    if n > 0 {
        lemma_without_all_keeps(w, gone, (n - 1) as nat);
    }
}

} // verus!
