//! What holds of every pass of the systems, whatever the world they start
//! from.

use vstd::prelude::*;
use crate::combat::{damage_dealt, struck};
use crate::components::{Entity, EquipmentSlot, Position};
use crate::damage_system::{
    damage_pass, lemma_swept_upto_rest, lemma_total_not_negative, none_negative, swept,
    swept_one, swept_upto,
};
use crate::energy_system::energy_pass;
use crate::inventory_system::{
    collect_one, collect_upto, collection_pass, drop_one, drop_pass, drop_upto,
    lemma_collect_upto_keeps, lemma_drop_upto_keeps, lemma_remove_upto_keeps, remove_one,
    remove_pass, remove_upto,
};
use crate::item_use::{
    confuse_upto, equipped_by, hurt_upto, restore_upto, targets_of, unequip_upto, Restores,
};
use crate::item_use_system::{
    after_equip, after_harming, after_restoring, told, use_one, use_pass, use_upto,
};
use crate::map_indexing_system::{indexed, indexed_map};
use crate::melee_combat_system::{
    lemma_melee_upto_keeps, melee_attacker, melee_bonus, melee_one, melee_pass, melee_power,
    melee_upto,
};
use crate::oxygen_system::{
    breathe_one, breathe_upto, breathes, lemma_breathe_upto_rest, oxygen_left, oxygen_pass,
};
use crate::pass::{looks_from, pass_stepped, robots_from, PassAction, PassEventView};
use crate::player::{
    input_world, retargeted, step_acts, step_foe, step_tile, stepped, Command,
};
use crate::ranged_combat_system::{
    lemma_shoot_upto_keeps, ranged_pass, ranged_power, shoot_one, shoot_upto, shooter,
};
use crate::robot_ai_system::{
    acting_robot, decided, followed, lemma_walked_walls_blocked, plan_of, steps_along,
    RobotPlan,
};
use crate::runstate::{PassCursor, RunState};
use crate::map::{lemma_idx_to_xy, lemma_xy_idx_in_range, GameMap, GameMapView, TileType};
use crate::spawner::{
    artefact_view, battery_view, blaster_view, in_room, item_for, item_in, oxygen_view,
    player_view, robot_for, robot_in, stim_pack_view,
};
use crate::state::{
    carried, cleared_onto, furnished, handled, outfitted, pass_event, resolved, ticked,
    turn_begun, wiped, State, TickEventView,
};
use crate::targeting::{aimed_at, current_target, kept_target, next_target, target_list};
use crate::visibility_system::{looks_again, saw};
use crate::world::{lemma_without_all_keeps, SlotView, Transient, WorldView};

verus! {

/// Whether the item in the slot gives and takes no less than nothing.
pub open spec fn benign(s: SlotView) -> bool {
    &&& s.provides_healing is Some ==> s.provides_healing->0.heal_amount >= 0
    &&& s.provides_oxygen is Some ==> s.provides_oxygen->0.oxygen_amount >= 0
    &&& s.provides_energy is Some ==> s.provides_energy->0.energy_amount >= 0
    &&& s.inflicts_damage is Some ==> s.inflicts_damage->0.damage >= 0
}

/// Whether the slot is in order: its pools are bounded, nothing negative
/// waits to be taken from them, and as an item it is benign.
pub open spec fn steady(s: SlotView) -> bool {
    &&& s.pools_bounded()
    &&& s.suffer_damage is Some ==> none_negative(s.suffer_damage->0)
    &&& s.breath_oxygen is Some ==> none_negative(s.breath_oxygen->0)
    &&& s.drain_energy is Some ==> none_negative(s.drain_energy->0)
    &&& benign(s)
}

/// Whether every slot of the world is in order.
pub open spec fn sound(w: WorldView) -> bool {
    forall|i: int| 0 <= i < w.slots.len() ==> steady(#[trigger] w.slots[i])
}

/// Whether no energy waits to be drained from anybody.
pub open spec fn drainless(w: WorldView) -> bool {
    forall|i: int| 0 <= i < w.slots.len() ==> (#[trigger] w.slots[i]).drain_energy is None
}

/// Whether no oxygen waits to be breathed by anybody.
pub open spec fn breathless(w: WorldView) -> bool {
    forall|i: int| 0 <= i < w.slots.len() ==> (#[trigger] w.slots[i]).breath_oxygen is None
}

/// Whether no damage waits for anybody.
pub open spec fn unhurt(w: WorldView) -> bool {
    forall|i: int| 0 <= i < w.slots.len() ==> (#[trigger] w.slots[i]).suffer_damage is None
}

/// Whether the entity in the slot runs out of oxygen in the pass that is
/// about to start: it is alive, breathes, and has no oxygen left after
/// that.
pub open spec fn suffocates(s: SlotView) -> bool {
    s.alive && breathes(s) && oxygen_left(s) == 0
}

/// Whether nobody runs out of oxygen in the pass that starts from `w`.
pub open spec fn nobody_suffocates(w: WorldView) -> bool {
    forall|i: int| 0 <= i < w.slots.len() ==> !suffocates(#[trigger] w.slots[i])
}

/// Whether the use of an item that the entity in slot `i` intends does
/// damage to somebody: the item exists and does damage, and somebody
/// alive is among those whom its use reaches.
pub open spec fn damaging_use(w: WorldView, i: int) -> bool {
    let s = w.slots[i];
    &&& s.wants_to_use_item is Some
    &&& w.alive(s.wants_to_use_item->0.item)
    &&& w.slot(s.wants_to_use_item->0.item).inflicts_damage is Some
    &&& exists|k: int| 0 <= k < targets_of(w, i, s.wants_to_use_item->0).len() && w.alive(
        #[trigger] targets_of(w, i, s.wants_to_use_item->0)[k],
    )
}

/// Whether no item is about to be used that does damage to somebody.
pub open spec fn no_damaging_use(w: WorldView) -> bool {
    forall|i: int| 0 <= i < w.slots.len() ==> !damaging_use(w, i)
}

/// Whether the two slots hold the same breath and the same oxygen.
pub open spec fn same_air(a: SlotView, b: SlotView) -> bool {
    &&& b.alive == a.alive
    &&& b.breath_oxygen == a.breath_oxygen
    &&& b.combat_stats is Some <==> a.combat_stats is Some
    &&& a.combat_stats is Some ==> b.combat_stats->0.oxygen == a.combat_stats->0.oxygen
}

/// Whether the two slots are alike in what the use of items goes by: who
/// is alive, who intends to use what, and what an item does damage to.
pub open spec fn same_use(a: SlotView, b: SlotView) -> bool {
    &&& b.alive == a.alive
    &&& b.wants_to_use_item == a.wants_to_use_item
    &&& b.inflicts_damage == a.inflicts_damage
    &&& b.area_of_effect == a.area_of_effect
}

/// Whether `v` has the map of `w`, and its slots with breath, oxygen and
/// the use of items untouched.
pub open spec fn akin(w: WorldView, v: WorldView) -> bool {
    &&& v.slots.len() == w.slots.len()
    &&& v.map == w.map
    &&& forall|k: int| 0 <= k < w.slots.len() ==> same_air(w.slots[k], #[trigger] v.slots[k])
    &&& forall|k: int| 0 <= k < w.slots.len() ==> same_use(w.slots[k], #[trigger] v.slots[k])
}

/// Whether `v` has the map of `w`, and its slots with the use of items
/// untouched.
pub open spec fn akin_in_use(w: WorldView, v: WorldView) -> bool {
    &&& v.slots.len() == w.slots.len()
    &&& v.map == w.map
    &&& forall|k: int| 0 <= k < w.slots.len() ==> same_use(w.slots[k], #[trigger] v.slots[k])
}

/// Where nothing about breath and oxygen differs, nobody suffocates in the
/// one world who does not in the other.
pub proof fn lemma_akin_air(w: WorldView, v: WorldView)
    requires
        akin(w, v),
        nobody_suffocates(w),
    ensures
        nobody_suffocates(v),
{
    assert forall|i: int| 0 <= i < v.slots.len() implies !suffocates(#[trigger] v.slots[i]) by {
        assert(same_air(w.slots[i], v.slots[i]));
        assert(!suffocates(w.slots[i]));
    }
}

/// Where nothing about the use of items differs, no damaging item is about
/// to be used in the one world that is not in the other.
pub proof fn lemma_akin_use(w: WorldView, v: WorldView)
    requires
        akin_in_use(w, v),
        no_damaging_use(w),
    ensures
        no_damaging_use(v),
{
    assert forall|i: int| 0 <= i < v.slots.len() implies !damaging_use(v, i) by {
        assert(same_use(w.slots[i], v.slots[i]));
        if damaging_use(v, i) {
            let intent = v.slots[i].wants_to_use_item->0;
            let item = intent.item;
            assert(same_use(w.slots[item.id as int], v.slots[item.id as int]));
            assert(targets_of(v, i, intent) == targets_of(w, i, intent));
            let k = choose|k: int| 0 <= k < targets_of(v, i, intent).len() && v.alive(
                #[trigger] targets_of(v, i, intent)[k],
            );
            let t = targets_of(w, i, intent)[k];
            assert(same_use(w.slots[t.id as int], v.slots[t.id as int]));
            assert(w.alive(t));
            assert(damaging_use(w, i));
        }
    }
}

/// Taking a kind of component off every entity keeps a sound world sound
/// and makes no amount wait.
pub proof fn lemma_cleared(w: WorldView, kind: Transient)
    ensures
        w.cleared(kind).slots.len() == w.slots.len(),
        sound(w) ==> sound(w.cleared(kind)),
        drainless(w) || kind == Transient::DrainEnergy ==> drainless(w.cleared(kind)),
        breathless(w) || kind == Transient::BreathOxygen ==> breathless(w.cleared(kind)),
        unhurt(w) || kind == Transient::SufferDamage ==> unhurt(w.cleared(kind)),
        kind != Transient::WantsToUseItem ==> akin_in_use(w, w.cleared(kind)),
        kind != Transient::WantsToUseItem && kind != Transient::BreathOxygen ==> akin(w, w.cleared(kind)),
{
    let v = w.cleared(kind);
    assert forall|i: int| 0 <= i < v.slots.len() implies (steady(w.slots[i]) ==> steady(#[trigger] v.slots[i])) by {}
}

/// One attack keeps a sound world sound and touches neither breath, nor
/// oxygen, nor the use of items.
pub proof fn lemma_struck(w: WorldView, i: int, target: Entity, power: int)
    requires
        0 <= i < w.slots.len(),
    ensures
        sound(w) ==> sound(struck(w, i, target, power)),
        akin(w, struck(w, i, target, power)),
{
    let v = struck(w, i, target, power);
    assert forall|k: int| 0 <= k < v.slots.len() implies (steady(w.slots[k]) ==> steady(#[trigger] v.slots[k])) by {}
}

/// Being akin carries over from step to step.
pub proof fn lemma_akin_chain(a: WorldView, b: WorldView, c: WorldView)
    requires
        akin(a, b),
        akin(b, c),
    ensures
        akin(a, c),
{
    assert forall|k: int| 0 <= k < a.slots.len() implies same_air(a.slots[k], #[trigger] c.slots[k]) by {
        assert(same_air(a.slots[k], b.slots[k]));
    }
    assert forall|k: int| 0 <= k < a.slots.len() implies same_use(a.slots[k], #[trigger] c.slots[k]) by {
        assert(same_use(a.slots[k], b.slots[k]));
    }
}

/// Being akin in the use of items carries over from step to step.
pub proof fn lemma_akin_in_use_chain(a: WorldView, b: WorldView, c: WorldView)
    requires
        akin_in_use(a, b),
        akin_in_use(b, c),
    ensures
        akin_in_use(a, c),
{
    assert forall|k: int| 0 <= k < a.slots.len() implies same_use(a.slots[k], #[trigger] c.slots[k]) by {
        assert(same_use(a.slots[k], b.slots[k]));
    }
}

/// Close combat keeps a sound world sound and touches neither breath, nor
/// oxygen, nor the use of items.
pub proof fn lemma_melee_upto(w: WorldView, n: nat)
    requires
        n <= w.slots.len(),
    ensures
        sound(w) ==> sound(melee_upto(w, n)),
        akin(w, melee_upto(w, n)),
    decreases n,
{
    if n > 0 {
        let v = melee_upto(w, (n - 1) as nat);
        lemma_melee_upto(w, (n - 1) as nat);
        if melee_attacker(v, n - 1) {
            lemma_struck(
                v,
                n - 1,
                v.slots[n - 1].wants_to_melee->0.target,
                melee_power(v, Entity { id: (n - 1) as usize }),
            );
        }
        lemma_akin_chain(w, v, melee_one(v, n - 1));
    }
}

/// Ranged combat keeps a sound world sound and touches neither breath, nor
/// oxygen, nor the use of items.
pub proof fn lemma_shoot_upto(w: WorldView, n: nat)
    requires
        n <= w.slots.len(),
    ensures
        sound(w) ==> sound(shoot_upto(w, n)),
        akin(w, shoot_upto(w, n)),
    decreases n,
{
    if n > 0 {
        let v = shoot_upto(w, (n - 1) as nat);
        lemma_shoot_upto(w, (n - 1) as nat);
        if shooter(v, n - 1) {
            lemma_struck(
                v,
                n - 1,
                v.slots[n - 1].wants_to_shoot->0.target,
                ranged_power(v, Entity { id: (n - 1) as usize }, v.slots.len()),
            );
        }
        lemma_akin_chain(w, v, shoot_one(v, n - 1));
    }
}

/// Taking damage keeps a sound world sound, leaves no damage waiting, and
/// touches neither breath, nor oxygen, nor the use of items.
pub proof fn lemma_damage_pass(w: WorldView)
    ensures
        sound(w) ==> sound(damage_pass(w)),
        unhurt(damage_pass(w)),
        akin(w, damage_pass(w)),
{
    let v = damage_pass(w);
    assert forall|k: int| 0 <= k < v.slots.len() implies (steady(w.slots[k]) ==> steady(#[trigger] v.slots[k])) by {
        if steady(w.slots[k]) && w.slots[k].suffer_damage is Some {
            lemma_total_not_negative(w.slots[k].suffer_damage->0);
        }
    }
}

/// Draining energy keeps a sound world sound, leaves no energy to be
/// drained, makes no damage wait, and touches neither breath, nor oxygen,
/// nor the use of items.
pub proof fn lemma_energy_pass(w: WorldView)
    ensures
        sound(w) ==> sound(energy_pass(w)),
        drainless(energy_pass(w)),
        unhurt(w) ==> unhurt(energy_pass(w)),
        akin(w, energy_pass(w)),
{
    let v = energy_pass(w);
    assert forall|k: int| 0 <= k < v.slots.len() implies (steady(w.slots[k]) ==> steady(#[trigger] v.slots[k])) by {
        if steady(w.slots[k]) && w.slots[k].drain_energy is Some {
            lemma_total_not_negative(w.slots[k].drain_energy->0);
        }
    }
}

/// Breathing keeps a sound world sound, drains nobody, and makes damage
/// wait only for those who run out of oxygen.
pub proof fn lemma_breathe_upto(w: WorldView, n: nat)
    requires
        n <= w.slots.len(),
        w.slots.len() <= usize::MAX,
    ensures
        breathe_upto(w, n).slots.len() == w.slots.len(),
        forall|j: int| n <= j < w.slots.len() ==> breathe_upto(w, n).slots[j] == w.slots[j],
        sound(w) ==> sound(breathe_upto(w, n)),
        drainless(w) ==> drainless(breathe_upto(w, n)),
        unhurt(w) && nobody_suffocates(w) ==> unhurt(breathe_upto(w, n)),
        akin_in_use(w, breathe_upto(w, n)),
    decreases n,
{
    if n > 0 {
        let v = breathe_upto(w, (n - 1) as nat);
        lemma_breathe_upto(w, (n - 1) as nat);
        let u = breathe_one(v, n - 1);
        assert(v.slots[n - 1] == w.slots[n - 1]);
        if nobody_suffocates(w) {
            assert(!suffocates(w.slots[n - 1]));
        }
        assert forall|k: int| 0 <= k < u.slots.len() implies (steady(v.slots[k]) ==> steady(#[trigger] u.slots[k])) by {
            if steady(v.slots[k]) && k == n - 1 && breathes(v.slots[k]) {
                lemma_total_not_negative(v.slots[k].breath_oxygen->0);
            }
        }
        assert(akin_in_use(v, u));
        lemma_akin_in_use_chain(w, v, u);
    }
}

/// Picking up keeps a sound world sound, makes no amount wait, and does
/// not touch the use of items.
pub proof fn lemma_collect_upto(w: WorldView, n: nat)
    requires
        n <= w.slots.len(),
    ensures
        collect_upto(w, n).slots.len() == w.slots.len(),
        sound(w) ==> sound(collect_upto(w, n)),
        drainless(w) ==> drainless(collect_upto(w, n)),
        breathless(w) ==> breathless(collect_upto(w, n)),
        unhurt(w) ==> unhurt(collect_upto(w, n)),
        akin_in_use(w, collect_upto(w, n)),
    decreases n,
{
    if n > 0 {
        let v = collect_upto(w, (n - 1) as nat);
        lemma_collect_upto(w, (n - 1) as nat);
        let u = collect_one(v, n - 1);
        assert forall|k: int| 0 <= k < u.slots.len() implies (steady(v.slots[k]) ==> steady(#[trigger] u.slots[k])) by {}
        assert(akin_in_use(v, u));
        lemma_akin_in_use_chain(w, v, u);
    }
}

/// Dropping keeps a sound world sound and makes no amount wait.
pub proof fn lemma_drop_upto(w: WorldView, n: nat)
    requires
        n <= w.slots.len(),
    ensures
        drop_upto(w, n).slots.len() == w.slots.len(),
        sound(w) ==> sound(drop_upto(w, n)),
        drainless(w) ==> drainless(drop_upto(w, n)),
        breathless(w) ==> breathless(drop_upto(w, n)),
        unhurt(w) ==> unhurt(drop_upto(w, n)),
    decreases n,
{
    if n > 0 {
        let v = drop_upto(w, (n - 1) as nat);
        lemma_drop_upto(w, (n - 1) as nat);
        let u = drop_one(v, n - 1);
        assert forall|k: int| 0 <= k < u.slots.len() implies (steady(v.slots[k]) ==> steady(#[trigger] u.slots[k])) by {}
    }
}

/// Taking off keeps a sound world sound and makes no amount wait.
pub proof fn lemma_remove_upto(w: WorldView, n: nat)
    requires
        n <= w.slots.len(),
    ensures
        remove_upto(w, n).slots.len() == w.slots.len(),
        sound(w) ==> sound(remove_upto(w, n)),
        drainless(w) ==> drainless(remove_upto(w, n)),
        breathless(w) ==> breathless(remove_upto(w, n)),
        unhurt(w) ==> unhurt(remove_upto(w, n)),
    decreases n,
{
    if n > 0 {
        let v = remove_upto(w, (n - 1) as nat);
        lemma_remove_upto(w, (n - 1) as nat);
        let u = remove_one(v, n - 1);
        assert forall|k: int| 0 <= k < u.slots.len() implies (steady(v.slots[k]) ==> steady(#[trigger] u.slots[k])) by {}
    }
}

/// Deleting keeps a sound world sound and makes no amount wait.
pub proof fn lemma_without_all(w: WorldView, gone: Seq<Entity>, n: nat)
    requires
        n <= gone.len(),
    ensures
        w.without_all(gone, n).slots.len() == w.slots.len(),
        sound(w) ==> sound(w.without_all(gone, n)),
        drainless(w) ==> drainless(w.without_all(gone, n)),
        breathless(w) ==> breathless(w.without_all(gone, n)),
        unhurt(w) ==> unhurt(w.without_all(gone, n)),
    decreases n,
{
    if n > 0 {
        let v = w.without_all(gone, (n - 1) as nat);
        lemma_without_all(w, gone, (n - 1) as nat);
        let u = v.without(gone[n - 1]);
        assert forall|k: int| 0 <= k < u.slots.len() implies (steady(v.slots[k]) ==> steady(#[trigger] u.slots[k])) by {}
    }
}

/// Filling up pools by no less than nothing keeps a sound world sound,
/// makes no amount wait, and does not touch the use of items.
pub proof fn lemma_restore_upto(
    w: WorldView,
    targets: Seq<Entity>,
    what: Restores,
    amount: i32,
    message: Option<Seq<char>>,
    n: nat,
)
    ensures
        restore_upto(w, targets, what, amount, message, n).slots.len() == w.slots.len(),
        sound(w) && amount >= 0 ==> sound(restore_upto(w, targets, what, amount, message, n)),
        drainless(w) ==> drainless(restore_upto(w, targets, what, amount, message, n)),
        breathless(w) ==> breathless(restore_upto(w, targets, what, amount, message, n)),
        unhurt(w) ==> unhurt(restore_upto(w, targets, what, amount, message, n)),
        akin_in_use(w, restore_upto(w, targets, what, amount, message, n)),
    decreases n,
{
    if n > 0 {
        let v = restore_upto(w, targets, what, amount, message, (n - 1) as nat);
        lemma_restore_upto(w, targets, what, amount, message, (n - 1) as nat);
        let u = restore_upto(w, targets, what, amount, message, n);
        assert forall|k: int| 0 <= k < u.slots.len() implies (amount >= 0 && steady(v.slots[k]) ==> steady(
            #[trigger] u.slots[k],
        )) by {}
        assert(akin_in_use(v, u));
        lemma_akin_in_use_chain(w, v, u);
    }
}

/// Putting down damage that is no less than nothing keeps a sound world
/// sound, neither drains nor stifles anybody, and does not touch the use
/// of items.
pub proof fn lemma_hurt_upto(w: WorldView, targets: Seq<Entity>, damage: i32, item: Option<Seq<char>>, n: nat)
    requires
        n <= targets.len(),
    ensures
        hurt_upto(w, targets, damage, item, n).slots.len() == w.slots.len(),
        sound(w) && damage >= 0 ==> sound(hurt_upto(w, targets, damage, item, n)),
        drainless(w) ==> drainless(hurt_upto(w, targets, damage, item, n)),
        breathless(w) ==> breathless(hurt_upto(w, targets, damage, item, n)),
        akin_in_use(w, hurt_upto(w, targets, damage, item, n)),
        (forall|k: int| 0 <= k < n ==> !w.alive(#[trigger] targets[k])) ==> hurt_upto(
            w,
            targets,
            damage,
            item,
            n,
        ).slots == w.slots,
    decreases n,
{
    if n > 0 {
        let v = hurt_upto(w, targets, damage, item, (n - 1) as nat);
        lemma_hurt_upto(w, targets, damage, item, (n - 1) as nat);
        let u = hurt_upto(w, targets, damage, item, n);
        assert forall|k: int| 0 <= k < u.slots.len() implies (damage >= 0 && steady(v.slots[k]) ==> steady(
            #[trigger] u.slots[k],
        )) by {}
        assert(akin_in_use(v, u));
        lemma_akin_in_use_chain(w, v, u);
    }
}

/// Confusing keeps a sound world sound, makes no amount wait, and does not
/// touch the use of items.
pub proof fn lemma_confuse_upto(w: WorldView, targets: Seq<Entity>, turns: i32, item: Option<Seq<char>>, n: nat)
    ensures
        confuse_upto(w, targets, turns, item, n).slots.len() == w.slots.len(),
        sound(w) ==> sound(confuse_upto(w, targets, turns, item, n)),
        drainless(w) ==> drainless(confuse_upto(w, targets, turns, item, n)),
        breathless(w) ==> breathless(confuse_upto(w, targets, turns, item, n)),
        unhurt(w) ==> unhurt(confuse_upto(w, targets, turns, item, n)),
        akin_in_use(w, confuse_upto(w, targets, turns, item, n)),
    decreases n,
{
    if n > 0 {
        let v = confuse_upto(w, targets, turns, item, (n - 1) as nat);
        lemma_confuse_upto(w, targets, turns, item, (n - 1) as nat);
        let u = confuse_upto(w, targets, turns, item, n);
        assert forall|k: int| 0 <= k < u.slots.len() implies (steady(v.slots[k]) ==> steady(#[trigger] u.slots[k])) by {}
        assert(akin_in_use(v, u));
        lemma_akin_in_use_chain(w, v, u);
    }
}

/// Taking off what is worn keeps a sound world sound, makes no amount
/// wait, and does not touch the use of items.
pub proof fn lemma_unequip_upto(w: WorldView, wearer: Entity, slot: EquipmentSlot, aloud: bool, n: nat)
    requires
        n <= w.slots.len(),
    ensures
        unequip_upto(w, wearer, slot, aloud, n).slots.len() == w.slots.len(),
        sound(w) ==> sound(unequip_upto(w, wearer, slot, aloud, n)),
        drainless(w) ==> drainless(unequip_upto(w, wearer, slot, aloud, n)),
        breathless(w) ==> breathless(unequip_upto(w, wearer, slot, aloud, n)),
        unhurt(w) ==> unhurt(unequip_upto(w, wearer, slot, aloud, n)),
        akin_in_use(w, unequip_upto(w, wearer, slot, aloud, n)),
    decreases n,
{
    if n > 0 {
        let v = unequip_upto(w, wearer, slot, aloud, (n - 1) as nat);
        lemma_unequip_upto(w, wearer, slot, aloud, (n - 1) as nat);
        let u = unequip_upto(w, wearer, slot, aloud, n);
        assert forall|k: int| 0 <= k < u.slots.len() implies (steady(v.slots[k]) ==> steady(#[trigger] u.slots[k])) by {}
        assert(akin_in_use(v, u));
        lemma_akin_in_use_chain(w, v, u);
    }
}

/// Putting on an item keeps a sound world sound, makes no amount wait, and
/// does not touch the use of items.
pub proof fn lemma_equipped_by(w: WorldView, item: Entity, wearer: Entity, slot: EquipmentSlot, aloud: bool)
    requires
        w.has(item),
    ensures
        equipped_by(w, item, wearer, slot, aloud).slots.len() == w.slots.len(),
        sound(w) ==> sound(equipped_by(w, item, wearer, slot, aloud)),
        drainless(w) ==> drainless(equipped_by(w, item, wearer, slot, aloud)),
        breathless(w) ==> breathless(equipped_by(w, item, wearer, slot, aloud)),
        unhurt(w) ==> unhurt(equipped_by(w, item, wearer, slot, aloud)),
        akin_in_use(w, equipped_by(w, item, wearer, slot, aloud)),
{
    let v = unequip_upto(w, wearer, slot, aloud, w.slots.len());
    lemma_unequip_upto(w, wearer, slot, aloud, w.slots.len());
    let u = equipped_by(w, item, wearer, slot, aloud);
    assert forall|k: int| 0 <= k < u.slots.len() implies (steady(v.slots[k]) ==> steady(#[trigger] u.slots[k])) by {}
    assert(akin_in_use(v, u));
    lemma_akin_in_use_chain(w, v, u);
}

/// The filling up of pools that an item does keeps a sound world sound,
/// provided that the item is benign; it makes no amount wait and does not
/// touch the use of items.
pub proof fn lemma_after_restoring(w: WorldView, item: SlotView, by_player: bool, targets: Seq<Entity>)
    ensures
        after_restoring(w, item, by_player, targets).slots.len() == w.slots.len(),
        sound(w) && benign(item) ==> sound(after_restoring(w, item, by_player, targets)),
        drainless(w) ==> drainless(after_restoring(w, item, by_player, targets)),
        breathless(w) ==> breathless(after_restoring(w, item, by_player, targets)),
        unhurt(w) ==> unhurt(after_restoring(w, item, by_player, targets)),
        akin_in_use(w, after_restoring(w, item, by_player, targets)),
{
    let healed = match item.provides_healing {
        Some(p) => restore_upto(w, targets, Restores::Health, p.heal_amount, told(by_player, item, Restores::Health, p.heal_amount), targets.len()),
        None => w,
    };
    if item.provides_healing is Some {
        let p = item.provides_healing->0;
        lemma_restore_upto(w, targets, Restores::Health, p.heal_amount, told(by_player, item, Restores::Health, p.heal_amount), targets.len());
    }
    let aired = match item.provides_oxygen {
        Some(p) => restore_upto(healed, targets, Restores::Oxygen, p.oxygen_amount, told(by_player, item, Restores::Oxygen, p.oxygen_amount), targets.len()),
        None => healed,
    };
    if item.provides_oxygen is Some {
        let p = item.provides_oxygen->0;
        lemma_restore_upto(healed, targets, Restores::Oxygen, p.oxygen_amount, told(by_player, item, Restores::Oxygen, p.oxygen_amount), targets.len());
    }
    lemma_akin_in_use_chain(w, healed, aired);
    let powered = after_restoring(w, item, by_player, targets);
    if item.provides_energy is Some {
        let p = item.provides_energy->0;
        lemma_restore_upto(aired, targets, Restores::Energy, p.energy_amount, told(by_player, item, Restores::Energy, p.energy_amount), targets.len());
    }
    lemma_akin_in_use_chain(w, aired, powered);
}

/// The harm that an item does keeps a sound world sound, provided that the
/// item is benign; it neither drains nor stifles anybody; an item that
/// does no damage makes no damage wait; and the use of items is not
/// touched.
pub proof fn lemma_after_harming(w: WorldView, item: SlotView, by_player: bool, targets: Seq<Entity>)
    ensures
        after_harming(w, item, by_player, targets).slots.len() == w.slots.len(),
        sound(w) && benign(item) ==> sound(after_harming(w, item, by_player, targets)),
        drainless(w) ==> drainless(after_harming(w, item, by_player, targets)),
        breathless(w) ==> breathless(after_harming(w, item, by_player, targets)),
        unhurt(w) && (item.inflicts_damage is None || forall|k: int|
            0 <= k < targets.len() ==> !w.alive(#[trigger] targets[k])) ==> unhurt(
            after_harming(w, item, by_player, targets),
        ),
        akin_in_use(w, after_harming(w, item, by_player, targets)),
{
    let named = if by_player {
        item.name
    } else {
        None
    };
    let hit = match item.inflicts_damage {
        Some(d) => hurt_upto(w, targets, d.damage, named, targets.len()),
        None => w,
    };
    if item.inflicts_damage is Some {
        lemma_hurt_upto(w, targets, item.inflicts_damage->0.damage, named, targets.len());
    }
    let dazed = after_harming(w, item, by_player, targets);
    if item.confusion is Some {
        lemma_confuse_upto(hit, targets, item.confusion->0.turns, named, targets.len());
    }
    lemma_akin_in_use_chain(w, hit, dazed);
}

/// The use of one item keeps a sound world sound; it neither drains nor
/// stifles anybody; where no damaging item is about to be used, it makes
/// no damage wait; and the use of items is not touched.
pub proof fn lemma_use_one(w: WorldView, i: int)
    requires
        0 <= i < w.slots.len(),
    ensures
        use_one(w, i).slots.len() == w.slots.len(),
        sound(w) ==> sound(use_one(w, i)),
        drainless(w) ==> drainless(use_one(w, i)),
        breathless(w) ==> breathless(use_one(w, i)),
        unhurt(w) && no_damaging_use(w) ==> unhurt(use_one(w, i)),
        akin_in_use(w, use_one(w, i)),
{
    match w.slots[i].wants_to_use_item {
        None => {},
        Some(intent) => {
            if w.alive(intent.item) {
                let item = w.slot(intent.item);
                let targets = targets_of(w, i, intent);
                let by_player = w.player == (Entity { id: i as usize });
                let a = after_equip(w, intent, targets);
                if item.equippable is Some && targets.len() > 0 {
                    lemma_equipped_by(w, intent.item, targets[0], item.equippable->0.slot, targets[0] == w.player);
                }
                lemma_after_restoring(a, item, by_player, targets);
                let b = after_restoring(a, item, by_player, targets);
                lemma_after_harming(b, item, by_player, targets);
                let c = after_harming(b, item, by_player, targets);
                lemma_akin_in_use_chain(w, a, b);
                lemma_akin_in_use_chain(w, b, c);
                if sound(w) {
                    assert(steady(w.slots[intent.item.id as int]));
                }
                if no_damaging_use(w) && item.inflicts_damage is Some {
                    assert(!damaging_use(w, i));
                    assert forall|k: int| 0 <= k < targets.len() implies !b.alive(#[trigger] targets[k]) by {
                        assert(!w.alive(targets[k]));
                        if w.has(targets[k]) {
                            assert(same_use(w.slots[targets[k].id as int], b.slots[targets[k].id as int]));
                        }
                    }
                }
            }
        },
    }
}

/// The use of items keeps a sound world sound; it neither drains nor
/// stifles anybody; where no damaging item is about to be used, it makes
/// no damage wait.
pub proof fn lemma_use_upto(w: WorldView, n: nat)
    requires
        n <= w.slots.len(),
    ensures
        use_upto(w, n).slots.len() == w.slots.len(),
        sound(w) ==> sound(use_upto(w, n)),
        drainless(w) ==> drainless(use_upto(w, n)),
        breathless(w) ==> breathless(use_upto(w, n)),
        unhurt(w) && no_damaging_use(w) ==> unhurt(use_upto(w, n)),
        akin_in_use(w, use_upto(w, n)),
    decreases n,
{
    if n > 0 {
        let v = use_upto(w, (n - 1) as nat);
        lemma_use_upto(w, (n - 1) as nat);
        lemma_use_one(v, n - 1);
        if no_damaging_use(w) {
            lemma_akin_use(w, v);
        }
        lemma_akin_in_use_chain(w, v, use_one(v, n - 1));
    }
}

/// A pass of the systems keeps a sound world that fits in memory sound. In
/// particular every pool of every entity stays between nothing and its
/// maximum.
pub proof fn lemma_pass_keeps_pools_bounded(w: WorldView)
    requires
        w.slots.len() <= usize::MAX,
        sound(w),
    ensures
        sound(resolved(w)),
        resolved(w).pools_bounded(),
{
    lemma_pass(w);
    let v = resolved(w);
    assert forall|i: int| 0 <= i < v.slots.len() implies (#[trigger] v.slots[i]).pools_bounded() by {
        assert(steady(v.slots[i]));
    }
}

/// After a pass of the systems on a world that fits in memory no energy
/// waits to be drained and no oxygen waits to be breathed, whatever the
/// pass started from; and no damage
/// waits either, unless somebody ran out of oxygen in the pass or an item
/// was used in it that did damage to somebody. Such damage is dealt after
/// the damage of the pass is taken, and waits for the next pass.
pub proof fn lemma_pass_clears_accumulators(w: WorldView)
    requires
        w.slots.len() <= usize::MAX,
    ensures
        drainless(resolved(w)),
        breathless(resolved(w)),
        nobody_suffocates(w) && no_damaging_use(indexed(w)) ==> unhurt(resolved(w)),
{
    lemma_pass(w);
}

/// What a pass of the systems keeps and clears.
pub proof fn lemma_pass(w: WorldView)
    requires
        w.slots.len() <= usize::MAX,
    ensures
        sound(w) ==> sound(resolved(w)),
        drainless(resolved(w)),
        breathless(resolved(w)),
        nobody_suffocates(w) && no_damaging_use(indexed(w)) ==> unhurt(resolved(w)),
{
    let a = indexed(w);
    assert(sound(w) ==> sound(a)) by {
        if sound(w) {
            assert forall|i: int| 0 <= i < a.slots.len() implies steady(#[trigger] a.slots[i]) by {
                assert(steady(w.slots[i]));
            }
        }
    }
    assert(nobody_suffocates(w) ==> nobody_suffocates(a)) by {
        if nobody_suffocates(w) {
            assert forall|i: int| 0 <= i < a.slots.len() implies !suffocates(#[trigger] a.slots[i]) by {
                assert(!suffocates(w.slots[i]));
            }
        }
    }
    let b0 = melee_upto(a, a.slots.len());
    lemma_melee_upto(a, a.slots.len());
    let b = melee_pass(a);
    lemma_cleared(b0, Transient::WantsToMelee);
    lemma_akin_chain(a, b0, b);
    
    let c0 = shoot_upto(b, b.slots.len());
    lemma_shoot_upto(b, b.slots.len());
    let c = ranged_pass(b);
    lemma_cleared(c0, Transient::WantsToShoot);
    lemma_akin_chain(b, c0, c);
    lemma_akin_chain(a, b, c);
    let d = damage_pass(c);
    lemma_damage_pass(c);
    lemma_akin_chain(a, c, d);
    let e = energy_pass(d);
    lemma_energy_pass(d);
    lemma_akin_chain(a, d, e);
    if nobody_suffocates(w) {
        lemma_akin_air(a, e);
    }
    let f0 = breathe_upto(e, e.slots.len());
    lemma_breathe_upto(e, e.slots.len());
    let f = oxygen_pass(e);
    lemma_cleared(f0, Transient::BreathOxygen);
    assert(akin_in_use(a, e));
    lemma_akin_in_use_chain(e, f0, f);
    lemma_akin_in_use_chain(a, e, f);
    let g0 = collect_upto(f, f.slots.len());
    lemma_collect_upto(f, f.slots.len());
    let g = collection_pass(f);
    lemma_cleared(g0, Transient::WantsToPickupItem);
    lemma_akin_in_use_chain(f, g0, g);
    lemma_akin_in_use_chain(a, f, g);
    if no_damaging_use(a) {
        lemma_akin_use(a, g);
    }
    let h0 = use_upto(g, g.slots.len());
    lemma_use_upto(g, g.slots.len());
    let h = use_pass(g);
    lemma_cleared(h0, Transient::WantsToUseItem);
    let i0 = drop_upto(h, h.slots.len());
    lemma_drop_upto(h, h.slots.len());
    let i = drop_pass(h);
    lemma_cleared(i0, Transient::WantsToDropItem);
    let j0 = remove_upto(i, i.slots.len());
    lemma_remove_upto(i, i.slots.len());
    let j = remove_pass(i);
    lemma_cleared(j0, Transient::WantsToRemoveItem);
    lemma_without_all(j, j.doomed, j.doomed.len());
    let k = j.maintained();
    assert(k.slots == j.without_all(j.doomed, j.doomed.len()).slots);
}

/// Two games in the same state are in the same state after a pass of the
/// systems: a pass draws on nothing but the world that it starts from.
pub proof fn lemma_pass_is_deterministic(
    first: State,
    second: State,
    after_first: State,
    after_second: State,
)
    requires
        first.ecs@ == second.ecs@,
        after_first.ecs@ == resolved(first.ecs@),
        after_second.ecs@ == resolved(second.ecs@),
    ensures
        after_first.ecs@ == after_second.ecs@,
{
}

/// Whether the two slots are alike in all that decides whether a slot is
/// in order.
pub open spec fn same_vitals(a: SlotView, b: SlotView) -> bool {
    &&& b.combat_stats == a.combat_stats
    &&& b.suffer_damage == a.suffer_damage
    &&& b.breath_oxygen == a.breath_oxygen
    &&& b.drain_energy == a.drain_energy
    &&& b.provides_healing == a.provides_healing
    &&& b.provides_oxygen == a.provides_oxygen
    &&& b.provides_energy == a.provides_energy
    &&& b.inflicts_damage == a.inflicts_damage
}

/// Whether every slot of `v` is either alike in its vitals to the slot of
/// `w` in its place, or empty.
pub open spec fn tame(w: WorldView, v: WorldView) -> bool {
    &&& v.slots.len() == w.slots.len()
    &&& forall|k: int| 0 <= k < w.slots.len() ==> same_vitals(w.slots[k], #[trigger] v.slots[k]) || v.slots[k]
        == SlotView::bare(false)
}

/// What is tame keeps a sound world sound.
pub proof fn lemma_tame(w: WorldView, v: WorldView)
    requires
        tame(w, v),
        sound(w),
    ensures
        sound(v),
{
    assert forall|k: int| 0 <= k < v.slots.len() implies steady(#[trigger] v.slots[k]) by {
        assert(steady(w.slots[k]));
    }
}

/// The sweep that removes the dead is tame.
pub proof fn lemma_swept_upto(w: WorldView, n: nat)
    requires
        n <= w.slots.len(),
    ensures
        tame(w, swept_upto(w, n)),
    decreases n,
{
    if n > 0 {
        let v = swept_upto(w, (n - 1) as nat);
        lemma_swept_upto(w, (n - 1) as nat);
        let u = swept_one(v, n - 1);
        assert forall|k: int| 0 <= k < w.slots.len() implies same_vitals(w.slots[k], #[trigger] u.slots[k])
            || u.slots[k] == SlotView::bare(false) by {
            assert(same_vitals(w.slots[k], v.slots[k]) || v.slots[k] == SlotView::bare(false));
        }
    }
}

/// Looking, deciding and walking, the steps of a pass that wait for an
/// answer from outside, keep a sound world sound.
pub proof fn lemma_driven_steps_keep_sound(
    w: WorldView,
    who: Entity,
    seen: Seq<Position>,
    success: bool,
    steps: Seq<usize>,
)
    requires
        sound(w),
    ensures
        sound(saw(w, who, seen)),
        sound(decided(w, who)),
        sound(followed(w, who, success, steps)),
{
    let a = saw(w, who, seen);
    assert(tame(w, a));
    lemma_tame(w, a);
    let b = decided(w, who);
    assert(tame(w, b));
    lemma_tame(w, b);
    let c = followed(w, who, success, steps);
    assert(tame(w, c));
    lemma_tame(w, c);
}

/// Moving the mark is tame.
pub proof fn lemma_aimed_at(w: WorldView, choice: Option<Entity>)
    ensures
        tame(w, aimed_at(w, choice)),
{
}

/// What a command of the user does is tame.
pub proof fn lemma_input_world(w: WorldView, command: Command)
    ensures
        tame(w, input_world(w, command)),
{
    match command {
        Command::CycleTarget => {
            lemma_aimed_at(
                w,
                next_target(
                    target_list(w),
                    current_target(w),
                ),
            );
        },
        _ => {},
    }
}

/// Wiping what lives for one pass keeps a sound world sound.
pub proof fn lemma_wiped(w: WorldView)
    requires
        sound(w),
    ensures
        sound(wiped(w)),
{
    let a = w.cleared(Transient::WantsToMelee);
    lemma_cleared(w, Transient::WantsToMelee);
    let b = a.cleared(Transient::WantsToShoot);
    lemma_cleared(a, Transient::WantsToShoot);
    let c = b.cleared(Transient::SufferDamage);
    lemma_cleared(b, Transient::SufferDamage);
    let d = c.cleared(Transient::DrainEnergy);
    lemma_cleared(c, Transient::DrainEnergy);
    let e = d.cleared(Transient::BreathOxygen);
    lemma_cleared(d, Transient::BreathOxygen);
    let f = e.cleared(Transient::WantsToPickupItem);
    lemma_cleared(e, Transient::WantsToPickupItem);
    let g = f.cleared(Transient::WantsToUseItem);
    lemma_cleared(f, Transient::WantsToUseItem);
    let h = g.cleared(Transient::WantsToDropItem);
    lemma_cleared(g, Transient::WantsToDropItem);
    let i = h.cleared(Transient::WantsToRemoveItem);
    lemma_cleared(h, Transient::WantsToRemoveItem);
    lemma_cleared(i, Transient::Target);
}

/// The robots' decisions and the resolution of the turn keep a sound world
/// that fits in memory sound.
pub proof fn lemma_robots_from_sound(w: WorldView, n: nat)
    requires
        w.slots.len() <= usize::MAX,
        sound(w),
    ensures
        sound(robots_from(w, n).0),
    decreases w.slots.len() - n,
{
    if n >= w.slots.len() {
        lemma_pass(w);
        lemma_tame(resolved(w), robots_from(w, n).0);
    } else if acting_robot(w.slots[n as int]) {
        let robot = Entity { id: n as usize };
        let v = decided(w, robot);
        assert(tame(w, v));
        lemma_tame(w, v);
        match plan_of(w, robot) {
            RobotPlan::Approach { start, end } => {
                lemma_tame(v, robots_from(w, n).0);
            },
            _ => {
                lemma_robots_from_sound(v, n + 1);
            },
        }
    } else {
        lemma_robots_from_sound(w, n + 1);
    }
}

/// The looks, the robots' decisions and the resolution of the turn keep a
/// sound world that fits in memory sound.
pub proof fn lemma_looks_from_sound(w: WorldView, n: nat)
    requires
        w.slots.len() <= usize::MAX,
        sound(w),
    ensures
        sound(looks_from(w, n).0),
    decreases w.slots.len() - n,
{
    if n >= w.slots.len() {
        lemma_robots_from_sound(w, 0);
    } else if looks_again(w.slots[n as int]) {
        lemma_tame(w, looks_from(w, n).0);
    } else {
        lemma_looks_from_sound(w, n + 1);
    }
}

/// A step of a pass keeps a sound world that fits in memory sound,
/// whatever is handed to it.
pub proof fn lemma_pass_stepped_sound(w: WorldView, event: PassEventView)
    requires
        w.slots.len() <= usize::MAX,
        sound(w),
    ensures
        sound(pass_stepped(w, event).0),
{
    match w.pass {
        PassCursor::Idle => {
            lemma_looks_from_sound(w, 0);
        },
        PassCursor::Looking { viewer } => {
            let v = match event {
                PassEventView::Seen { tiles } => saw(w, Entity { id: viewer }, tiles),
                _ => w,
            };
            assert(tame(w, v));
            lemma_tame(w, v);
            lemma_looks_from_sound(v, (viewer + 1) as nat);
        },
        PassCursor::Walking { robot } => {
            let v = match event {
                PassEventView::Path { success, steps } => followed(w, Entity { id: robot }, success, steps),
                _ => w,
            };
            assert(tame(w, v));
            lemma_tame(w, v);
            lemma_robots_from_sound(v, (robot + 1) as nat);
        },
    }
}

/// A tick keeps a sound world that fits in memory sound: whatever the
/// phase and whatever reaches the game, every pool of every entity stays
/// between nothing and its maximum.
pub proof fn lemma_tick_keeps_pools_bounded(w: WorldView, event: TickEventView)
    requires
        w.slots.len() <= usize::MAX,
        sound(w),
    ensures
        sound(ticked(w, event)),
        ticked(w, event).pools_bounded(),
{
    let h = handled(w, event);
    assert(sound(h)) by {
        match w.runstate {
            RunState::SaveGame => {
                lemma_wiped(w);
                lemma_tame(wiped(w), h);
            },
            RunState::PreRun | RunState::PlayerTurn | RunState::MonsterTurn => {
                let b = turn_begun(w);
                assert forall|k: int| 0 <= k < b.slots.len() implies steady(#[trigger] b.slots[k]) by {
                    assert(steady(w.slots[k]));
                }
                lemma_pass_stepped_sound(b, pass_event(event));
                let r = pass_stepped(b, pass_event(event)).0;
                lemma_aimed_at(r, kept_target(target_list(r), current_target(r)));
                lemma_tame(r, retargeted(r));
                assert(tame(r, h) || tame(retargeted(r), h));
                if tame(r, h) {
                    lemma_tame(r, h);
                } else {
                    lemma_tame(retargeted(r), h);
                }
            },
            RunState::AwaitingInput => {
                match event {
                    TickEventView::Command { command } => {
                        lemma_input_world(w, command);
                        lemma_tame(w, input_world(w, command));
                        lemma_tame(input_world(w, command), h);
                    },
                    _ => {},
                }
            },
            _ => {
                assert(tame(w, h));
                lemma_tame(w, h);
            },
        }
    }
    lemma_swept_upto(h, h.slots.len());
    lemma_tame(h, swept(h));
    let t = ticked(w, event);
    assert(sound(t));
    assert forall|i: int| 0 <= i < t.slots.len() implies (#[trigger] t.slots[i]).pools_bounded() by {
        assert(steady(t.slots[i]));
    }
}

/// Whether every entity that stands somewhere stands on the map.
pub open spec fn on_map(w: WorldView) -> bool {
    forall|k: int|
        0 <= k < w.slots.len() && (#[trigger] w.slots[k]).position is Some ==> w.map.in_bounds(
            w.slots[k].position->0.x as int,
            w.slots[k].position->0.y as int,
        )
}

/// Whether `v` is as large as `w`, on a map of the same size, with nobody
/// moved: everybody stands where it stood, or nowhere.
pub open spec fn still(w: WorldView, v: WorldView) -> bool {
    &&& v.slots.len() == w.slots.len()
    &&& v.map.width == w.map.width
    &&& v.map.height == w.map.height
    &&& forall|k: int| 0 <= k < w.slots.len() ==> (#[trigger] v.slots[k]).position == w.slots[k].position
        || v.slots[k].position is None
}

/// Where nobody is moved, everybody stays on the map.
pub proof fn lemma_still(w: WorldView, v: WorldView)
    requires
        still(w, v),
        on_map(w),
    ensures
        on_map(v),
{
    assert forall|k: int| 0 <= k < v.slots.len() && (#[trigger] v.slots[k]).position is Some implies v.map.in_bounds(
        v.slots[k].position->0.x as int,
        v.slots[k].position->0.y as int,
    ) by {
        assert(w.slots[k].position is Some);
    }
}

/// Standing still carries over from step to step.
pub proof fn lemma_still_chain(a: WorldView, b: WorldView, c: WorldView)
    requires
        still(a, b),
        still(b, c),
    ensures
        still(a, c),
{
    assert forall|k: int| 0 <= k < a.slots.len() implies (#[trigger] c.slots[k]).position == a.slots[k].position
        || c.slots[k].position is None by {
        assert(b.slots[k].position == a.slots[k].position || b.slots[k].position is None);
    }
}

/// Close combat moves nobody.
pub proof fn lemma_melee_still(w: WorldView, n: nat)
    requires
        n <= w.slots.len(),
    ensures
        still(w, melee_upto(w, n)),
    decreases n,
{
    if n > 0 {
        let v = melee_upto(w, (n - 1) as nat);
        lemma_melee_still(w, (n - 1) as nat);
        assert(still(v, melee_one(v, n - 1)));
        lemma_still_chain(w, v, melee_one(v, n - 1));
    }
}

/// Ranged combat moves nobody.
pub proof fn lemma_shoot_still(w: WorldView, n: nat)
    requires
        n <= w.slots.len(),
    ensures
        still(w, shoot_upto(w, n)),
    decreases n,
{
    if n > 0 {
        let v = shoot_upto(w, (n - 1) as nat);
        lemma_shoot_still(w, (n - 1) as nat);
        assert(still(v, shoot_one(v, n - 1)));
        lemma_still_chain(w, v, shoot_one(v, n - 1));
    }
}

/// Breathing moves nobody.
pub proof fn lemma_breathe_still(w: WorldView, n: nat)
    requires
        n <= w.slots.len(),
    ensures
        still(w, breathe_upto(w, n)),
    decreases n,
{
    if n > 0 {
        let v = breathe_upto(w, (n - 1) as nat);
        lemma_breathe_still(w, (n - 1) as nat);
        assert(still(v, breathe_one(v, n - 1)));
        lemma_still_chain(w, v, breathe_one(v, n - 1));
    }
}

/// Picking up moves nobody: what is picked up is nowhere.
pub proof fn lemma_collect_still(w: WorldView, n: nat)
    requires
        n <= w.slots.len(),
    ensures
        still(w, collect_upto(w, n)),
    decreases n,
{
    if n > 0 {
        let v = collect_upto(w, (n - 1) as nat);
        lemma_collect_still(w, (n - 1) as nat);
        assert(still(v, collect_one(v, n - 1)));
        lemma_still_chain(w, v, collect_one(v, n - 1));
    }
}

/// Taking off moves nobody.
pub proof fn lemma_remove_still(w: WorldView, n: nat)
    requires
        n <= w.slots.len(),
    ensures
        still(w, remove_upto(w, n)),
    decreases n,
{
    if n > 0 {
        let v = remove_upto(w, (n - 1) as nat);
        lemma_remove_still(w, (n - 1) as nat);
        assert(still(v, remove_one(v, n - 1)));
        lemma_still_chain(w, v, remove_one(v, n - 1));
    }
}

/// Deleting moves nobody.
pub proof fn lemma_without_all_still(w: WorldView, gone: Seq<Entity>, n: nat)
    requires
        n <= gone.len(),
    ensures
        still(w, w.without_all(gone, n)),
    decreases n,
{
    if n > 0 {
        let v = w.without_all(gone, (n - 1) as nat);
        lemma_without_all_still(w, gone, (n - 1) as nat);
        assert(still(v, v.without(gone[n - 1])));
        lemma_still_chain(w, v, v.without(gone[n - 1]));
    }
}

/// The sweep that removes the dead moves nobody.
pub proof fn lemma_swept_still(w: WorldView, n: nat)
    requires
        n <= w.slots.len(),
    ensures
        still(w, swept_upto(w, n)),
    decreases n,
{
    if n > 0 {
        let v = swept_upto(w, (n - 1) as nat);
        lemma_swept_still(w, (n - 1) as nat);
        assert(still(v, swept_one(v, n - 1)));
        lemma_still_chain(w, v, swept_one(v, n - 1));
    }
}

/// Filling up pools moves nobody.
pub proof fn lemma_restore_still(
    w: WorldView,
    targets: Seq<Entity>,
    what: Restores,
    amount: i32,
    message: Option<Seq<char>>,
    n: nat,
)
    ensures
        still(w, restore_upto(w, targets, what, amount, message, n)),
    decreases n,
{
    if n > 0 {
        let v = restore_upto(w, targets, what, amount, message, (n - 1) as nat);
        lemma_restore_still(w, targets, what, amount, message, (n - 1) as nat);
        let u = restore_upto(w, targets, what, amount, message, n);
        assert(still(v, u));
        lemma_still_chain(w, v, u);
    }
}

/// Putting down damage moves nobody.
pub proof fn lemma_hurt_still(w: WorldView, targets: Seq<Entity>, damage: i32, item: Option<Seq<char>>, n: nat)
    ensures
        still(w, hurt_upto(w, targets, damage, item, n)),
    decreases n,
{
    if n > 0 {
        let v = hurt_upto(w, targets, damage, item, (n - 1) as nat);
        lemma_hurt_still(w, targets, damage, item, (n - 1) as nat);
        let u = hurt_upto(w, targets, damage, item, n);
        assert(still(v, u));
        lemma_still_chain(w, v, u);
    }
}

/// Confusing moves nobody.
pub proof fn lemma_confuse_still(w: WorldView, targets: Seq<Entity>, turns: i32, item: Option<Seq<char>>, n: nat)
    ensures
        still(w, confuse_upto(w, targets, turns, item, n)),
    decreases n,
{
    if n > 0 {
        let v = confuse_upto(w, targets, turns, item, (n - 1) as nat);
        lemma_confuse_still(w, targets, turns, item, (n - 1) as nat);
        let u = confuse_upto(w, targets, turns, item, n);
        assert(still(v, u));
        lemma_still_chain(w, v, u);
    }
}

/// Taking off what is worn moves nobody.
pub proof fn lemma_unequip_still(w: WorldView, wearer: Entity, slot: EquipmentSlot, aloud: bool, n: nat)
    requires
        n <= w.slots.len(),
    ensures
        still(w, unequip_upto(w, wearer, slot, aloud, n)),
    decreases n,
{
    if n > 0 {
        let v = unequip_upto(w, wearer, slot, aloud, (n - 1) as nat);
        lemma_unequip_still(w, wearer, slot, aloud, (n - 1) as nat);
        let u = unequip_upto(w, wearer, slot, aloud, n);
        assert(still(v, u));
        lemma_still_chain(w, v, u);
    }
}

/// The use of one item moves nobody.
pub proof fn lemma_use_one_still(w: WorldView, i: int)
    requires
        0 <= i < w.slots.len(),
    ensures
        still(w, use_one(w, i)),
{
    match w.slots[i].wants_to_use_item {
        None => {},
        Some(intent) => {
            if w.alive(intent.item) {
                let item = w.slot(intent.item);
                let targets = targets_of(w, i, intent);
                let by_player = w.player == (Entity { id: i as usize });
                let a = after_equip(w, intent, targets);
                if item.equippable is Some && targets.len() > 0 {
                    lemma_unequip_still(w, targets[0], item.equippable->0.slot, targets[0] == w.player, w.slots.len());
                }
                assert(still(w, a));
                let healed = match item.provides_healing {
                    Some(p) => restore_upto(a, targets, Restores::Health, p.heal_amount, told(by_player, item, Restores::Health, p.heal_amount), targets.len()),
                    None => a,
                };
                if item.provides_healing is Some {
                    let p = item.provides_healing->0;
                    lemma_restore_still(a, targets, Restores::Health, p.heal_amount, told(by_player, item, Restores::Health, p.heal_amount), targets.len());
                }
                let aired = match item.provides_oxygen {
                    Some(p) => restore_upto(healed, targets, Restores::Oxygen, p.oxygen_amount, told(by_player, item, Restores::Oxygen, p.oxygen_amount), targets.len()),
                    None => healed,
                };
                if item.provides_oxygen is Some {
                    let p = item.provides_oxygen->0;
                    lemma_restore_still(healed, targets, Restores::Oxygen, p.oxygen_amount, told(by_player, item, Restores::Oxygen, p.oxygen_amount), targets.len());
                }
                let b = after_restoring(a, item, by_player, targets);
                if item.provides_energy is Some {
                    let p = item.provides_energy->0;
                    lemma_restore_still(aired, targets, Restores::Energy, p.energy_amount, told(by_player, item, Restores::Energy, p.energy_amount), targets.len());
                }
                lemma_still_chain(a, healed, aired);
                lemma_still_chain(a, aired, b);
                lemma_still_chain(w, a, b);
                let named = if by_player {
                    item.name
                } else {
                    None
                };
                let hit = match item.inflicts_damage {
                    Some(d) => hurt_upto(b, targets, d.damage, named, targets.len()),
                    None => b,
                };
                if item.inflicts_damage is Some {
                    lemma_hurt_still(b, targets, item.inflicts_damage->0.damage, named, targets.len());
                }
                let c = after_harming(b, item, by_player, targets);
                if item.confusion is Some {
                    lemma_confuse_still(hit, targets, item.confusion->0.turns, named, targets.len());
                }
                lemma_still_chain(b, hit, c);
                lemma_still_chain(w, b, c);
            }
        },
    }
}

/// The use of items moves nobody.
pub proof fn lemma_use_still(w: WorldView, n: nat)
    requires
        n <= w.slots.len(),
    ensures
        still(w, use_upto(w, n)),
    decreases n,
{
    if n > 0 {
        let v = use_upto(w, (n - 1) as nat);
        lemma_use_still(w, (n - 1) as nat);
        lemma_use_one_still(v, n - 1);
        lemma_still_chain(w, v, use_one(v, n - 1));
    }
}

/// Dropping lays things where somebody stands, so that everybody stays on
/// the map.
pub proof fn lemma_drop_on_map(w: WorldView, n: nat)
    requires
        n <= w.slots.len(),
        on_map(w),
    ensures
        on_map(drop_upto(w, n)),
        drop_upto(w, n).slots.len() == w.slots.len(),
        drop_upto(w, n).map == w.map,
    decreases n,
{
    if n > 0 {
        let v = drop_upto(w, (n - 1) as nat);
        lemma_drop_on_map(w, (n - 1) as nat);
        let u = drop_one(v, n - 1);
        assert forall|k: int| 0 <= k < u.slots.len() && (#[trigger] u.slots[k]).position is Some implies u.map.in_bounds(
            u.slots[k].position->0.x as int,
            u.slots[k].position->0.y as int,
        ) by {
            assert(v.slots[k].position is Some ==> v.map.in_bounds(
                v.slots[k].position->0.x as int,
                v.slots[k].position->0.y as int,
            ));
            assert(v.slots[n - 1].position is Some ==> v.map.in_bounds(
                v.slots[n - 1].position->0.x as int,
                v.slots[n - 1].position->0.y as int,
            ));
        }
    }
}

/// A pass of the systems leaves everybody on the map.
pub proof fn lemma_pass_keeps_on_map(w: WorldView)
    requires
        on_map(w),
    ensures
        on_map(resolved(w)),
{
    let a = indexed(w);
    assert(still(w, a));
    let b0 = melee_upto(a, a.slots.len());
    lemma_melee_still(a, a.slots.len());
    let b = melee_pass(a);
    assert(still(b0, b));
    let c0 = shoot_upto(b, b.slots.len());
    lemma_shoot_still(b, b.slots.len());
    let c = ranged_pass(b);
    assert(still(c0, c));
    let d = damage_pass(c);
    assert(still(c, d));
    let e = energy_pass(d);
    assert(still(d, e));
    let f0 = breathe_upto(e, e.slots.len());
    lemma_breathe_still(e, e.slots.len());
    let f = oxygen_pass(e);
    assert(still(f0, f));
    let g0 = collect_upto(f, f.slots.len());
    lemma_collect_still(f, f.slots.len());
    let g = collection_pass(f);
    assert(still(g0, g));
    let h0 = use_upto(g, g.slots.len());
    lemma_use_still(g, g.slots.len());
    let h = use_pass(g);
    assert(still(h0, h));
    lemma_still(w, a);
    lemma_still(a, b0);
    lemma_still(b0, b);
    lemma_still(b, c0);
    lemma_still(c0, c);
    lemma_still(c, d);
    lemma_still(d, e);
    lemma_still(e, f0);
    lemma_still(f0, f);
    lemma_still(f, g0);
    lemma_still(g0, g);
    lemma_still(g, h0);
    lemma_still(h0, h);
    let i0 = drop_upto(h, h.slots.len());
    lemma_drop_on_map(h, h.slots.len());
    let i = drop_pass(h);
    assert(still(i0, i));
    lemma_still(i0, i);
    let j0 = remove_upto(i, i.slots.len());
    lemma_remove_still(i, i.slots.len());
    let j = remove_pass(i);
    assert(still(j0, j));
    lemma_still(i, j0);
    lemma_still(j0, j);
    lemma_without_all_still(j, j.doomed, j.doomed.len());
    assert(still(j.without_all(j.doomed, j.doomed.len()), j.maintained()));
    lemma_still(j, j.without_all(j.doomed, j.doomed.len()));
    lemma_still(j.without_all(j.doomed, j.doomed.len()), j.maintained());
}

/// The steps of a pass that wait for an answer from outside leave everybody
/// on the map: looking and deciding move nobody, and a robot walks onto a
/// tile of the map.
pub proof fn lemma_driven_steps_keep_on_map(
    w: WorldView,
    who: Entity,
    seen: Seq<Position>,
    success: bool,
    steps: Seq<usize>,
)
    requires
        w.wf(),
        on_map(w),
    ensures
        on_map(saw(w, who, seen)),
        on_map(decided(w, who)),
        on_map(followed(w, who, success, steps)),
{
    assert(still(w, saw(w, who, seen)));
    lemma_still(w, saw(w, who, seen));
    assert(still(w, decided(w, who)));
    lemma_still(w, decided(w, who));
    let f = followed(w, who, success, steps);
    if steps_along(w, who, success, steps) {
        lemma_idx_to_xy(w.map, steps[1] as int);
        assert forall|k: int| 0 <= k < f.slots.len() && (#[trigger] f.slots[k]).position is Some implies f.map.in_bounds(
            f.slots[k].position->0.x as int,
            f.slots[k].position->0.y as int,
        ) by {
            assert(w.slots[k].position is Some ==> w.map.in_bounds(
                w.slots[k].position->0.x as int,
                w.slots[k].position->0.y as int,
            ));
        }
    }
}

/// The resolution of a turn leaves the map as the index made it, and the
/// arena as large as it was.
pub proof fn lemma_resolved_map(w: WorldView)
    ensures
        resolved(w).map == indexed(w).map,
        resolved(w).slots.len() == w.slots.len(),
        w.wf() ==> resolved(w).wf(),
{
    let a = indexed(w);
    lemma_melee_upto_keeps(a, a.slots.len());
    let b = melee_pass(a);
    lemma_shoot_upto_keeps(b, b.slots.len());
    let c = ranged_pass(b);
    let d = damage_pass(c);
    let e = energy_pass(d);
    lemma_breathe_upto_rest(e, e.slots.len());
    let f = oxygen_pass(e);
    lemma_collect_upto_keeps(f, f.slots.len());
    let g = collection_pass(f);
    lemma_use_upto(g, g.slots.len());
    let h = use_pass(g);
    lemma_drop_upto_keeps(h, h.slots.len());
    let i = drop_pass(h);
    lemma_remove_upto_keeps(i, i.slots.len());
    let j = remove_pass(i);
    lemma_without_all_keeps(j, j.doomed, j.doomed.len());
}

/// The robots' decisions and the resolution of the turn leave everybody on
/// the map.
pub proof fn lemma_robots_from_on_map(w: WorldView, n: nat)
    requires
        w.wf(),
        on_map(w),
    ensures
        on_map(robots_from(w, n).0),
        robots_from(w, n).0.wf(),
    decreases w.slots.len() - n,
{
    if n >= w.slots.len() {
        lemma_pass_keeps_on_map(w);
        lemma_resolved_map(w);
        assert(still(resolved(w), robots_from(w, n).0));
        lemma_still(resolved(w), robots_from(w, n).0);
    } else if acting_robot(w.slots[n as int]) {
        let robot = Entity { id: n as usize };
        let v = decided(w, robot);
        assert(still(w, v));
        lemma_still(w, v);
        match plan_of(w, robot) {
            RobotPlan::Approach { start, end } => {
                assert(still(v, robots_from(w, n).0));
                lemma_still(v, robots_from(w, n).0);
            },
            _ => {
                lemma_robots_from_on_map(v, n + 1);
            },
        }
    } else {
        lemma_robots_from_on_map(w, n + 1);
    }
}

/// The looks, the robots' decisions and the resolution of the turn leave
/// everybody on the map.
pub proof fn lemma_looks_from_on_map(w: WorldView, n: nat)
    requires
        w.wf(),
        on_map(w),
    ensures
        on_map(looks_from(w, n).0),
        looks_from(w, n).0.wf(),
    decreases w.slots.len() - n,
{
    if n >= w.slots.len() {
        lemma_robots_from_on_map(w, 0);
    } else if looks_again(w.slots[n as int]) {
        assert(still(w, looks_from(w, n).0));
        lemma_still(w, looks_from(w, n).0);
    } else {
        lemma_looks_from_on_map(w, n + 1);
    }
}

/// A step of a pass leaves everybody on the map, whatever is handed to
/// it.
pub proof fn lemma_pass_stepped_on_map(w: WorldView, event: PassEventView)
    requires
        w.wf(),
        on_map(w),
    ensures
        on_map(pass_stepped(w, event).0),
        pass_stepped(w, event).0.wf(),
{
    match w.pass {
        PassCursor::Idle => {
            lemma_looks_from_on_map(w, 0);
        },
        PassCursor::Looking { viewer } => {
            let v = match event {
                PassEventView::Seen { tiles } => saw(w, Entity { id: viewer }, tiles),
                _ => w,
            };
            lemma_driven_steps_keep_on_map(w, Entity { id: viewer }, match event {
                PassEventView::Seen { tiles } => tiles,
                _ => Seq::empty(),
            }, false, Seq::empty());
            lemma_looks_from_on_map(v, (viewer + 1) as nat);
        },
        PassCursor::Walking { robot } => {
            let v = match event {
                PassEventView::Path { success, steps } => followed(w, Entity { id: robot }, success, steps),
                _ => w,
            };
            match event {
                PassEventView::Path { success, steps } => {
                    lemma_driven_steps_keep_on_map(w, Entity { id: robot }, Seq::empty(), success, steps);
                },
                _ => {},
            }
            match event {
                PassEventView::Path { success, steps } => {
                    if steps_along(w, Entity { id: robot }, success, steps) {
                        let at = w.slot(Entity { id: robot }).position->0;
                        lemma_xy_idx_in_range(w.map, at.x as int, at.y as int);
                    }
                },
                _ => {},
            }
            assert(v.wf());
            lemma_robots_from_on_map(v, (robot + 1) as nat);
        },
    }
}

/// A tick leaves everybody on the map: the player steps only onto tiles of
/// the map, and nothing else that a tick does moves anybody off it.
pub proof fn lemma_tick_keeps_on_map(w: WorldView, event: TickEventView)
    requires
        w.wf(),
        on_map(w),
    ensures
        on_map(ticked(w, event)),
{
    let h = handled(w, event);
    assert(on_map(h)) by {
        match w.runstate {
            RunState::SaveGame => {
                let a = w.cleared(Transient::WantsToMelee);
                let b = a.cleared(Transient::WantsToShoot);
                let c = b.cleared(Transient::SufferDamage);
                let d = c.cleared(Transient::DrainEnergy);
                let e = d.cleared(Transient::BreathOxygen);
                let f = e.cleared(Transient::WantsToPickupItem);
                let g = f.cleared(Transient::WantsToUseItem);
                let i = g.cleared(Transient::WantsToDropItem);
                let j = i.cleared(Transient::WantsToRemoveItem);
                let k = j.cleared(Transient::Target);
                assert(still(w, a) && still(a, b) && still(b, c) && still(c, d) && still(d, e));
                assert(still(e, f) && still(f, g) && still(g, i) && still(i, j) && still(j, k));
                lemma_still(w, a);
                lemma_still(a, b);
                lemma_still(b, c);
                lemma_still(c, d);
                lemma_still(d, e);
                lemma_still(e, f);
                lemma_still(f, g);
                lemma_still(g, i);
                lemma_still(i, j);
                lemma_still(j, k);
                assert(still(k, h));
                lemma_still(k, h);
            },
            RunState::PreRun | RunState::PlayerTurn | RunState::MonsterTurn => {
                let b = turn_begun(w);
                assert(still(w, b));
                lemma_still(w, b);
                lemma_pass_stepped_on_map(b, pass_event(event));
                let r = pass_stepped(b, pass_event(event)).0;
                assert(still(r, retargeted(r)));
                lemma_still(r, retargeted(r));
                assert(still(r, h) || still(retargeted(r), h));
                if still(r, h) {
                    lemma_still(r, h);
                } else {
                    lemma_still(retargeted(r), h);
                }
            },
            RunState::AwaitingInput => {
                match event {
                    TickEventView::Command { command } => {
                        let u = input_world(w, command);
                        match command {
                            Command::Move { dx, dy } => {
                                assert forall|k: int| 0 <= k < u.slots.len() && (#[trigger] u.slots[k]).position
                                    is Some implies u.map.in_bounds(
                                    u.slots[k].position->0.x as int,
                                    u.slots[k].position->0.y as int,
                                ) by {
                                    assert(w.slots[k].position is Some ==> w.map.in_bounds(
                                        w.slots[k].position->0.x as int,
                                        w.slots[k].position->0.y as int,
                                    ));
                                }
                            },
                            _ => {
                                assert(still(w, u));
                                lemma_still(w, u);
                            },
                        }
                        assert(still(u, h));
                        lemma_still(u, h);
                    },
                    _ => {},
                }
            },
            _ => {
                assert(still(w, h));
                lemma_still(w, h);
            },
        }
    }
    lemma_swept_still(h, h.slots.len());
    lemma_still(h, swept(h));
}

/// What this library creates is in order: the player, every robot and
/// every item.
pub proof fn lemma_creatures_and_items_are_steady(roll: i32, x: i32, y: i32, owner: Entity)
    ensures
        steady(player_view(x, y)),
        steady(robot_for(roll, x, y)),
        steady(item_for(roll, x, y)),
        steady(artefact_view(x, y)),
        steady(carried(blaster_view(x, y), owner)),
        steady(carried(stim_pack_view(x, y), owner)),
        steady(carried(oxygen_view(x, y, 'O', "Oxygen Tank"@, 50), owner)),
        steady(carried(battery_view(x, y), owner)),
{
}

/// A world that is rebuilt is sound, whatever it was before: a game starts
/// in a sound world.
pub proof fn lemma_rebuilt_world_is_sound(
    before: WorldView,
    m: GameMapView,
    v: WorldView,
    x: i32,
    y: i32,
    ax: i32,
    ay: i32,
)
    requires
        furnished(cleared_onto(before, m), v, m.rooms.len() as int),
    ensures
        sound(outfitted(v, x, y, ax, ay)),
{
    let base = cleared_onto(before, m);
    let after = outfitted(v, x, y, ax, ay);
    let hero = Entity { id: v.slots.len() as usize };
    assert forall|k: int| 0 <= k < after.slots.len() implies steady(#[trigger] after.slots[k]) by {
        if k < base.slots.len() {
            assert(v.slots.take(base.slots.len() as int)[k] == v.slots[k]);
            assert(base.slots[k] == SlotView::bare(false));
        } else if k < v.slots.len() {
            let r = choose|r: int| 1 <= r < m.rooms.len() && (robot_in(#[trigger] v.slots[k], #[trigger] base.map.rooms[r])
                || item_in(v.slots[k], base.map.rooms[r]));
            if robot_in(v.slots[k], base.map.rooms[r]) {
                let (roll, p) = choose|roll: i32, p: Position| 1 <= roll <= 2 && in_room(base.map.rooms[r], p) && v.slots[k]
                    == #[trigger] robot_for(roll, p.x, p.y);
                lemma_creatures_and_items_are_steady(roll, p.x, p.y, hero);
            } else {
                let (roll, p) = choose|roll: i32, p: Position| 1 <= roll <= 6 && in_room(base.map.rooms[r], p) && v.slots[k]
                    == #[trigger] item_for(roll, p.x, p.y);
                lemma_creatures_and_items_are_steady(roll, p.x, p.y, hero);
            }
        } else {
            lemma_creatures_and_items_are_steady(1, x, y, hero);
            lemma_creatures_and_items_are_steady(1, ax, ay, hero);
        }
    }
}

/// Indexing blocks every wall, whatever was blocked before.
pub proof fn lemma_indexed_walls_blocked(slots: Seq<SlotView>, m: GameMapView)
    requires
        m.wf(),
    ensures
        indexed_map(slots, m).walls_blocked(),
        indexed_map(slots, m).wf(),
{
}

/// The robots' decisions and the resolution of the turn leave every wall
/// blocked.
pub proof fn lemma_robots_from_walls(w: WorldView, n: nat)
    requires
        w.wf(),
        w.map.walls_blocked(),
    ensures
        robots_from(w, n).0.map.walls_blocked(),
        robots_from(w, n).0.wf(),
    decreases w.slots.len() - n,
{
    if n >= w.slots.len() {
        lemma_resolved_map(w);
        lemma_indexed_walls_blocked(w.slots, w.map);
    } else if acting_robot(w.slots[n as int]) {
        let robot = Entity { id: n as usize };
        match plan_of(w, robot) {
            RobotPlan::Approach { start, end } => {},
            _ => {
                lemma_robots_from_walls(decided(w, robot), n + 1);
            },
        }
    } else {
        lemma_robots_from_walls(w, n + 1);
    }
}

/// The looks, the robots' decisions and the resolution of the turn leave
/// every wall blocked.
pub proof fn lemma_looks_from_walls(w: WorldView, n: nat)
    requires
        w.wf(),
        w.map.walls_blocked(),
    ensures
        looks_from(w, n).0.map.walls_blocked(),
        looks_from(w, n).0.wf(),
    decreases w.slots.len() - n,
{
    if n >= w.slots.len() {
        lemma_robots_from_walls(w, 0);
    } else if looks_again(w.slots[n as int]) {
    } else {
        lemma_looks_from_walls(w, n + 1);
    }
}

/// A step of a pass leaves every wall blocked, whatever is handed to it.
pub proof fn lemma_pass_stepped_walls(w: WorldView, event: PassEventView)
    requires
        w.wf(),
        w.map.walls_blocked(),
    ensures
        pass_stepped(w, event).0.map.walls_blocked(),
        pass_stepped(w, event).0.wf(),
{
    match w.pass {
        PassCursor::Idle => {
            lemma_looks_from_walls(w, 0);
        },
        PassCursor::Looking { viewer } => {
            let v = match event {
                PassEventView::Seen { tiles } => saw(w, Entity { id: viewer }, tiles),
                _ => w,
            };
            assert(v.map.tiles == w.map.tiles && v.map.blocked_tiles == w.map.blocked_tiles);
            assert(v.wf());
            lemma_looks_from_walls(v, (viewer + 1) as nat);
        },
        PassCursor::Walking { robot } => {
            let v = match event {
                PassEventView::Path { success, steps } => followed(w, Entity { id: robot }, success, steps),
                _ => w,
            };
            match event {
                PassEventView::Path { success, steps } => {
                    if steps_along(w, Entity { id: robot }, success, steps) {
                        let at = w.slot(Entity { id: robot }).position->0;
                        lemma_xy_idx_in_range(w.map, at.x as int, at.y as int);
                        lemma_walked_walls_blocked(w.map, w.map.xy_idx(at.x as int, at.y as int), steps[1] as int);
                    }
                },
                _ => {},
            }
            lemma_robots_from_walls(v, (robot + 1) as nat);
        },
    }
}

/// A tick leaves every wall blocked: the index of a pass blocks the walls,
/// and neither a robot that walks nor anything else that a tick does
/// unblocks one.
pub proof fn lemma_tick_keeps_walls_blocked(w: WorldView, event: TickEventView)
    requires
        w.wf(),
        w.map.walls_blocked(),
    ensures
        ticked(w, event).map.walls_blocked(),
        ticked(w, event).wf(),
{
    let h = handled(w, event);
    assert(h.map.walls_blocked() && h.wf()) by {
        match w.runstate {
            RunState::PreRun | RunState::PlayerTurn | RunState::MonsterTurn => {
                let b = turn_begun(w);
                lemma_pass_stepped_walls(b, pass_event(event));
                let r = pass_stepped(b, pass_event(event)).0;
                assert(retargeted(r).map == r.map);
            },
            RunState::SaveGame => {
                assert(wiped(w).map == w.map);
            },
            RunState::AwaitingInput => {
                match event {
                    TickEventView::Command { command } => {
                        assert(input_world(w, command).map == w.map);
                    },
                    _ => {},
                }
            },
            _ => {
                assert(h.map == w.map);
            },
        }
    }
    lemma_swept_upto_rest(h, h.slots.len());
}

/// The player never steps onto a wall: where every wall is blocked, a step
/// that moves the player takes it onto a floor tile.
pub proof fn lemma_step_avoids_walls(w: WorldView, dx: i32, dy: i32)
    requires
        w.wf(),
        w.map.walls_blocked(),
        step_acts(w, dx, dy),
        step_foe(w, dx, dy) is None,
    ensures
        w.map.tiles[step_tile(w, dx, dy)] == TileType::Floor,
        stepped(w, dx, dy).slot(w.player).position is Some,
        w.map.xy_idx(
            stepped(w, dx, dy).slot(w.player).position->0.x as int,
            stepped(w, dx, dy).slot(w.player).position->0.y as int,
        ) == step_tile(w, dx, dy),
        stepped(w, dx, dy).map == w.map,
{
    let at = w.slot(w.player).position->0;
    lemma_xy_idx_in_range(w.map, at.x + dx, at.y + dy);
}

/// Breathing touches nobody but those who breathe: an entity for which no
/// oxygen waits keeps all that it has through a pass of the oxygen system,
/// and after the pass no oxygen waits for anybody.
pub proof fn lemma_oxygen_pass_touches_breathers_only(w: WorldView, j: int)
    requires
        w.slots.len() <= usize::MAX,
        0 <= j < w.slots.len(),
    ensures
        oxygen_pass(w).slots.len() == w.slots.len(),
        oxygen_pass(w).slots[j].breath_oxygen is None,
        w.slots[j].breath_oxygen is None ==> oxygen_pass(w).slots[j] == w.slots[j],
{
    lemma_breathe_upto_spares(w, w.slots.len(), j);
}

/// Breathing leaves alone whoever has no oxygen waiting.
pub proof fn lemma_breathe_upto_spares(w: WorldView, n: nat, j: int)
    requires
        w.slots.len() <= usize::MAX,
        n <= w.slots.len(),
        0 <= j < w.slots.len(),
    ensures
        breathe_upto(w, n).slots.len() == w.slots.len(),
        w.slots[j].breath_oxygen is None ==> breathe_upto(w, n).slots[j] == w.slots[j],
    decreases n,
{
    if n > 0 {
        lemma_breathe_upto_spares(w, (n - 1) as nat, j);
        lemma_breathe_upto_rest(w, (n - 1) as nat);
    }
}

/// The damage that waits for the entity in the slot, in the order in which
/// it was dealt.
pub open spec fn waiting(s: SlotView) -> Seq<i32> {
    match s.suffer_damage {
        Some(amounts) => amounts,
        None => Seq::empty(),
    }
}

/// Whether the two slots differ in nothing but the damage that waits.
pub open spec fn same_but_damage(a: SlotView, b: SlotView) -> bool {
    b == (SlotView { suffer_damage: b.suffer_damage, ..a })
}

/// Whether the two worlds differ in nothing but the damage that waits and
/// the log.
pub open spec fn same_but_damage_and_log(w: WorldView, v: WorldView) -> bool {
    &&& v == (WorldView { slots: v.slots, log: v.log, ..w })
    &&& v.slots.len() == w.slots.len()
    &&& forall|j: int| 0 <= j < w.slots.len() ==> same_but_damage(w.slots[j], #[trigger] v.slots[j])
}

/// The damage that an attack of strength `power` does to `target`, if it
/// does any: the target must be alive, with health left and a name, and
/// the power must exceed its defense.
pub open spec fn blow(w: WorldView, target: Entity, power: int) -> Option<i32> {
    let d = w.slot(target);
    if w.alive(target) && d.combat_stats is Some && d.combat_stats->0.hp.current > 0 && d.name is Some
        && damage_dealt(power, d.combat_stats->0.defense as int) > 0 {
        Some(damage_dealt(power, d.combat_stats->0.defense as int) as i32)
    } else {
        None
    }
}

/// One attack changes nothing but the log and the damage that waits for
/// its target, to which it adds its blow.
pub proof fn lemma_struck_effect(w: WorldView, i: int, target: Entity, power: int, d: Entity)
    requires
        0 <= i < w.slots.len(),
    ensures
        same_but_damage_and_log(w, struck(w, i, target, power)),
        waiting(struck(w, i, target, power).slot(d)) == (if d == target && blow(w, target, power) is Some {
            waiting(w.slot(d)).push(blow(w, target, power)->0)
        } else {
            waiting(w.slot(d))
        }),
{
    let v = struck(w, i, target, power);
    assert forall|j: int| 0 <= j < w.slots.len() implies same_but_damage(w.slots[j], #[trigger] v.slots[j]) by {}
    if d == target && blow(w, target, power) is Some {
        assert(waiting(v.slot(d)) =~= waiting(w.slot(d)).push(blow(w, target, power)->0));
    }
}

/// What differs in nothing but waiting damage gives the same melee bonus.
pub proof fn lemma_melee_bonus_frame(w: WorldView, v: WorldView, attacker: Entity, n: nat)
    requires
        same_but_damage_and_log(w, v),
        n <= w.slots.len(),
    ensures
        melee_bonus(v, attacker, n) == melee_bonus(w, attacker, n),
    decreases n,
{
    if n > 0 {
        lemma_melee_bonus_frame(w, v, attacker, (n - 1) as nat);
        assert(same_but_damage(w.slots[n - 1], v.slots[n - 1]));
    }
}

/// What differs in nothing but waiting damage gives the same ranged power.
pub proof fn lemma_ranged_power_frame(w: WorldView, v: WorldView, attacker: Entity, n: nat)
    requires
        same_but_damage_and_log(w, v),
        n <= w.slots.len(),
    ensures
        ranged_power(v, attacker, n) == ranged_power(w, attacker, n),
    decreases n,
{
    if n > 0 {
        lemma_ranged_power_frame(w, v, attacker, (n - 1) as nat);
        assert(same_but_damage(w.slots[n - 1], v.slots[n - 1]));
    }
}

/// The blows that the attackers among the first `n` slots land on `d` in
/// close combat, in the order of the slots: each is what the attacker's
/// power and the bonuses of what it has equipped exceed the defense of `d`
/// by.
pub open spec fn melee_blows(w: WorldView, d: Entity, n: nat) -> Seq<i32>
    decreases n,
{
    if n == 0 {
        Seq::empty()
    } else {
        let before = melee_blows(w, d, (n - 1) as nat);
        let hit = blow(w, d, melee_power(w, Entity { id: (n - 1) as usize }));
        if melee_attacker(w, n - 1) && w.slots[n - 1].wants_to_melee->0.target == d && hit is Some {
            before.push(hit->0)
        } else {
            before
        }
    }
}

/// The blows that the shooters among the first `n` slots land on `d`, in
/// the order of the slots: each is what the damage of the shooter's weapon
/// exceeds the defense of `d` by.
pub open spec fn ranged_blows(w: WorldView, d: Entity, n: nat) -> Seq<i32>
    decreases n,
{
    if n == 0 {
        Seq::empty()
    } else {
        let before = ranged_blows(w, d, (n - 1) as nat);
        let hit = blow(w, d, ranged_power(w, Entity { id: (n - 1) as usize }, w.slots.len()));
        if shooter(w, n - 1) && w.slots[n - 1].wants_to_shoot->0.target == d && hit is Some {
            before.push(hit->0)
        } else {
            before
        }
    }
}

/// Being alike but for damage and log carries over from step to step.
pub proof fn lemma_same_but_damage_chain(a: WorldView, b: WorldView, c: WorldView)
    requires
        same_but_damage_and_log(a, b),
        same_but_damage_and_log(b, c),
    ensures
        same_but_damage_and_log(a, c),
{
    assert forall|j: int| 0 <= j < a.slots.len() implies same_but_damage(a.slots[j], #[trigger] c.slots[j]) by {
        assert(same_but_damage(a.slots[j], b.slots[j]));
    }
}

/// Close combat among the first `n` slots changes nothing but the log and
/// the damage that waits, and adds to what waits for `d` exactly the blows
/// that land on it, in the order of the attackers.
pub proof fn lemma_melee_upto_deals(w: WorldView, n: nat, d: Entity)
    requires
        n <= w.slots.len(),
        w.slots.len() <= usize::MAX,
    ensures
        same_but_damage_and_log(w, melee_upto(w, n)),
        waiting(melee_upto(w, n).slot(d)) == waiting(w.slot(d)) + melee_blows(w, d, n),
    decreases n,
{
    if n == 0 {
        assert(waiting(w.slot(d)) + melee_blows(w, d, 0) =~= waiting(w.slot(d)));
    } else {
        let v = melee_upto(w, (n - 1) as nat);
        lemma_melee_upto_deals(w, (n - 1) as nat, d);
        let a = Entity { id: (n - 1) as usize };
        assert(same_but_damage(w.slots[n - 1], v.slots[n - 1]));
        lemma_melee_bonus_frame(w, v, a, w.slots.len());
        assert(melee_attacker(v, n - 1) == melee_attacker(w, n - 1));
        if d.id < w.slots.len() {
            assert(same_but_damage(w.slots[d.id as int], v.slots[d.id as int]));
        }
        if melee_attacker(v, n - 1) {
            let target = v.slots[n - 1].wants_to_melee->0.target;
            let power = melee_power(v, a);
            assert(power == melee_power(w, a));
            lemma_struck_effect(v, n - 1, target, power, d);
            lemma_same_but_damage_chain(w, v, melee_one(v, n - 1));
            if target == d {
                assert(blow(v, d, power) == blow(w, d, power));
            }
        }
        assert(waiting(melee_upto(w, n).slot(d)) =~= waiting(w.slot(d)) + melee_blows(w, d, n));
    }
}

/// After a pass of close combat what waits for any entity is what waited
/// before and, behind that, the blows that landed on it, in the order of
/// the attackers; nothing else but the log and the intents has changed.
pub proof fn lemma_melee_pass_deals(w: WorldView, d: Entity)
    requires
        w.slots.len() <= usize::MAX,
    ensures
        waiting(melee_pass(w).slot(d)) == waiting(w.slot(d)) + melee_blows(w, d, w.slots.len()),
        melee_pass(w).slot(d).combat_stats == w.slot(d).combat_stats,
{
    lemma_melee_upto_deals(w, w.slots.len(), d);
    let v = melee_upto(w, w.slots.len());
    if d.id < w.slots.len() {
        assert(same_but_damage(w.slots[d.id as int], v.slots[d.id as int]));
    }
}

/// Shooting among the first `n` slots changes nothing but the log and the
/// damage that waits, and adds to what waits for `d` exactly the blows that
/// land on it, in the order of the shooters.
pub proof fn lemma_shoot_upto_deals(w: WorldView, n: nat, d: Entity)
    requires
        n <= w.slots.len(),
        w.slots.len() <= usize::MAX,
    ensures
        same_but_damage_and_log(w, shoot_upto(w, n)),
        waiting(shoot_upto(w, n).slot(d)) == waiting(w.slot(d)) + ranged_blows(w, d, n),
    decreases n,
{
    if n == 0 {
        assert(waiting(w.slot(d)) + ranged_blows(w, d, 0) =~= waiting(w.slot(d)));
    } else {
        let v = shoot_upto(w, (n - 1) as nat);
        lemma_shoot_upto_deals(w, (n - 1) as nat, d);
        let a = Entity { id: (n - 1) as usize };
        assert(same_but_damage(w.slots[n - 1], v.slots[n - 1]));
        lemma_ranged_power_frame(w, v, a, w.slots.len());
        assert(shooter(v, n - 1) == shooter(w, n - 1));
        if d.id < w.slots.len() {
            assert(same_but_damage(w.slots[d.id as int], v.slots[d.id as int]));
        }
        if shooter(v, n - 1) {
            let target = v.slots[n - 1].wants_to_shoot->0.target;
            let power = ranged_power(v, a, v.slots.len());
            assert(power == ranged_power(w, a, w.slots.len()));
            lemma_struck_effect(v, n - 1, target, power, d);
            lemma_same_but_damage_chain(w, v, shoot_one(v, n - 1));
            if target == d {
                assert(blow(v, d, power) == blow(w, d, power));
            }
        }
        assert(waiting(shoot_upto(w, n).slot(d)) =~= waiting(w.slot(d)) + ranged_blows(w, d, n));
    }
}

/// After a pass of ranged combat what waits for any entity is what waited
/// before and, behind that, the blows that landed on it, in the order of
/// the shooters; the health of nobody is changed by it.
pub proof fn lemma_ranged_pass_deals(w: WorldView, d: Entity)
    requires
        w.slots.len() <= usize::MAX,
    ensures
        waiting(ranged_pass(w).slot(d)) == waiting(w.slot(d)) + ranged_blows(w, d, w.slots.len()),
        ranged_pass(w).slot(d).combat_stats == w.slot(d).combat_stats,
{
    lemma_shoot_upto_deals(w, w.slots.len(), d);
    let v = shoot_upto(w, w.slots.len());
    if d.id < w.slots.len() {
        assert(same_but_damage(w.slots[d.id as int], v.slots[d.id as int]));
    }
}

/// Where the robots' part of a pass ends the pass, no energy waits to be
/// drained and no oxygen waits to be breathed.
pub proof fn lemma_robots_from_clears(w: WorldView, n: nat)
    requires
        w.slots.len() <= usize::MAX,
    ensures
        robots_from(w, n).1 == PassAction::Done ==> drainless(robots_from(w, n).0) && breathless(
            robots_from(w, n).0,
        ),
    decreases w.slots.len() - n,
{
    if n >= w.slots.len() {
        lemma_pass(w);
        let r = resolved(w);
        let v = robots_from(w, n).0;
        assert forall|i: int| 0 <= i < v.slots.len() implies (#[trigger] v.slots[i]).drain_energy is None by {
            assert(r.slots[i].drain_energy is None);
        }
        assert forall|i: int| 0 <= i < v.slots.len() implies (#[trigger] v.slots[i]).breath_oxygen is None by {
            assert(r.slots[i].breath_oxygen is None);
        }
    } else if acting_robot(w.slots[n as int]) {
        let robot = Entity { id: n as usize };
        match plan_of(w, robot) {
            RobotPlan::Approach { start, end } => {},
            _ => {
                lemma_robots_from_clears(decided(w, robot), n + 1);
            },
        }
    } else {
        lemma_robots_from_clears(w, n + 1);
    }
}

/// Where the looks and the robots' part of a pass end the pass, no energy
/// waits to be drained and no oxygen waits to be breathed.
pub proof fn lemma_looks_from_clears(w: WorldView, n: nat)
    requires
        w.slots.len() <= usize::MAX,
    ensures
        looks_from(w, n).1 == PassAction::Done ==> drainless(looks_from(w, n).0) && breathless(
            looks_from(w, n).0,
        ),
    decreases w.slots.len() - n,
{
    if n >= w.slots.len() {
        lemma_robots_from_clears(w, 0);
    } else if looks_again(w.slots[n as int]) {
    } else {
        lemma_looks_from_clears(w, n + 1);
    }
}

/// When a step ends a pass, whatever the pass started from and whatever
/// was handed to it, no energy waits to be drained and no oxygen waits to
/// be breathed in a world that fits in memory.
pub proof fn lemma_pass_end_clears_accumulators(w: WorldView, event: PassEventView)
    requires
        w.slots.len() <= usize::MAX,
    ensures
        pass_stepped(w, event).1 == PassAction::Done ==> drainless(pass_stepped(w, event).0)
            && breathless(pass_stepped(w, event).0),
{
    match w.pass {
        PassCursor::Idle => {
            lemma_looks_from_clears(w, 0);
        },
        PassCursor::Looking { viewer } => {
            let v = match event {
                PassEventView::Seen { tiles } => saw(w, Entity { id: viewer }, tiles),
                _ => w,
            };
            lemma_looks_from_clears(v, (viewer + 1) as nat);
        },
        PassCursor::Walking { robot } => {
            let v = match event {
                PassEventView::Path { success, steps } => followed(w, Entity { id: robot }, success, steps),
                _ => w,
            };
            lemma_robots_from_clears(v, (robot + 1) as nat);
        },
    }
}

/// On a map of rooms and corridors every wall is blocked.
pub proof fn lemma_generated_walls_blocked(map: GameMap)
    requires
        map.rooms_and_corridors(),
    ensures
        map@.walls_blocked(),
{
    assert forall|i: int| 0 <= i < map@.tiles.len() && map@.tiles[i] == TileType::Wall implies #[trigger] map@.blocked_tiles[i] by {
        assert(map@.blocked_tiles[i] == (map@.tiles[i] == TileType::Wall));
    }
}

} // verus!
