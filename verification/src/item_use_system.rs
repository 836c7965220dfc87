//! Using items: every entity that wants to use an item does so.

use vstd::prelude::*;
use crate::components::{
    Confusion, Entity, InflictsDamage, ProvidesEnergy, ProvidesHealing, ProvidesOxygen,
    WantsToUseItem,
};
use crate::gamelog::{stale_message, stale_text};
use crate::item_use::{
    any_reached, confuse_all, confuse_upto, equip, equipped_by, gather_targets, hurt_all,
    hurt_upto, lemma_confuse_upto_keeps, lemma_hurt_upto_keeps, lemma_restore_upto_keeps,
    lemma_unequip_upto_keeps, reaches, restore_all, restore_message, restore_text,
    restore_upto, targets_of, text_of, Restores,
};
use crate::world::{SlotView, Transient, World, WorldView};

verus! {

/// Resolves the use of every kind of item, stim packs among them.
pub struct StimPackUseSystem {}

/// Whether the use of `item` on `targets` uses the item up, if it is a
/// consumable: the last of its effects, in the order healing, oxygen,
/// energy, damage, confusion, must have reached somebody; an item without
/// any of these effects always counts as used.
pub open spec fn spent(w: WorldView, item: SlotView, targets: Seq<Entity>) -> bool {
    if item.confusion is Some || item.inflicts_damage is Some {
        targets.len() > 0
    } else if item.provides_energy is Some || item.provides_oxygen is Some
        || item.provides_healing is Some {
        reaches(w, targets, targets.len())
    } else {
        true
    }
}

/// The message for filling up a pool, where the player uses an item that
/// has a name.
pub open spec fn told(by_player: bool, item: SlotView, what: Restores, amount: i32) -> Option<Seq<char>> {
    if by_player && item.name is Some {
        Some(restore_text(item.name->0, what, amount as int))
    } else {
        None
    }
}

/// The world after the item of `intent` is put on by the first of
/// `targets`, where it can be worn and reaches anybody.
pub open spec fn after_equip(w: WorldView, intent: WantsToUseItem, targets: Seq<Entity>) -> WorldView {
    let item = w.slot(intent.item);
    if item.equippable is Some && targets.len() > 0 {
        equipped_by(w, intent.item, targets[0], item.equippable->0.slot, targets[0] == w.player)
    } else {
        w
    }
}

/// The world after the item `item`, used by the player or not, has filled
/// up the pools of `targets` that it provides for: health, then oxygen,
/// then energy.
pub open spec fn after_restoring(w: WorldView, item: SlotView, by_player: bool, targets: Seq<Entity>) -> WorldView {
    let healed = match item.provides_healing {
        Some(p) => restore_upto(
            w,
            targets,
            Restores::Health,
            p.heal_amount,
            told(by_player, item, Restores::Health, p.heal_amount),
            targets.len(),
        ),
        None => w,
    };
    let aired = match item.provides_oxygen {
        Some(p) => restore_upto(
            healed,
            targets,
            Restores::Oxygen,
            p.oxygen_amount,
            told(by_player, item, Restores::Oxygen, p.oxygen_amount),
            targets.len(),
        ),
        None => healed,
    };
    match item.provides_energy {
        Some(p) => restore_upto(
            aired,
            targets,
            Restores::Energy,
            p.energy_amount,
            told(by_player, item, Restores::Energy, p.energy_amount),
            targets.len(),
        ),
        None => aired,
    }
}

/// The world after the item `item` has done to `targets` the harm that it
/// does: damage, then confusion.
pub open spec fn after_harming(w: WorldView, item: SlotView, by_player: bool, targets: Seq<Entity>) -> WorldView {
    let named = if by_player {
        item.name
    } else {
        None
    };
    let hit = match item.inflicts_damage {
        Some(d) => hurt_upto(w, targets, d.damage, named, targets.len()),
        None => w,
    };
    match item.confusion {
        Some(c) => confuse_upto(hit, targets, c.turns, named, targets.len()),
        None => hit,
    }
}

/// The world after the intent to use an item in slot `i`, if there is one,
/// is carried out.
///
/// An item that is gone is not used, and the log says so. Otherwise the
/// item is put on, where it can be worn; it fills up pools and does harm
/// according to what it is; and a consumable that was used up is put down
/// for deletion at the end of the pass.
pub open spec fn use_one(w: WorldView, i: int) -> WorldView {
    match w.slots[i].wants_to_use_item {
        None => w,
        Some(intent) => if !w.alive(intent.item) {
            w.logged(stale_text())
        } else {
            let item = w.slot(intent.item);
            let targets = targets_of(w, i, intent);
            let by_player = w.player == (Entity { id: i as usize });
            let done = after_harming(
                after_restoring(after_equip(w, intent, targets), item, by_player, targets),
                item,
                by_player,
                targets,
            );
            if item.consumable is Some && spent(w, item, targets) {
                WorldView { doomed: done.doomed.push(intent.item), ..done }
            } else {
                done
            }
        },
    }
}

/// Using an item changes neither the number of slots nor the map.
pub proof fn lemma_use_one_keeps(w: WorldView, i: int)
    requires
        0 <= i < w.slots.len(),
    ensures
        use_one(w, i).slots.len() == w.slots.len(),
        use_one(w, i).map == w.map,
{
    match w.slots[i].wants_to_use_item {
        None => {},
        Some(intent) => {
            if w.alive(intent.item) {
                let item = w.slot(intent.item);
                let targets = targets_of(w, i, intent);
                let by_player = w.player == (Entity { id: i as usize });
                let a = after_equip(w, intent, targets);
                if item.equippable is Some && targets.len() > 0 {
                    lemma_unequip_upto_keeps(w, targets[0], item.equippable->0.slot, targets[0] == w.player, w.slots.len());
                }
                lemma_after_restoring_keeps(a, item, by_player, targets);
                let b = after_restoring(a, item, by_player, targets);
                lemma_after_harming_keeps(b, item, by_player, targets);
            }
        },
    }
}

/// Filling up pools changes neither the number of slots nor the map.
pub proof fn lemma_after_restoring_keeps(w: WorldView, item: SlotView, by_player: bool, targets: Seq<Entity>)
    ensures
        after_restoring(w, item, by_player, targets).slots.len() == w.slots.len(),
        after_restoring(w, item, by_player, targets).map == w.map,
{
    let healed = match item.provides_healing {
        Some(p) => restore_upto(w, targets, Restores::Health, p.heal_amount, told(by_player, item, Restores::Health, p.heal_amount), targets.len()),
        None => w,
    };
    if item.provides_healing is Some {
        let p = item.provides_healing->0;
        lemma_restore_upto_keeps(w, targets, Restores::Health, p.heal_amount, told(by_player, item, Restores::Health, p.heal_amount), targets.len());
    }
    let aired = match item.provides_oxygen {
        Some(p) => restore_upto(healed, targets, Restores::Oxygen, p.oxygen_amount, told(by_player, item, Restores::Oxygen, p.oxygen_amount), targets.len()),
        None => healed,
    };
    if item.provides_oxygen is Some {
        let p = item.provides_oxygen->0;
        lemma_restore_upto_keeps(healed, targets, Restores::Oxygen, p.oxygen_amount, told(by_player, item, Restores::Oxygen, p.oxygen_amount), targets.len());
    }
    if item.provides_energy is Some {
        let p = item.provides_energy->0;
        lemma_restore_upto_keeps(aired, targets, Restores::Energy, p.energy_amount, told(by_player, item, Restores::Energy, p.energy_amount), targets.len());
    }
}

/// Doing harm changes neither the number of slots nor the map.
pub proof fn lemma_after_harming_keeps(w: WorldView, item: SlotView, by_player: bool, targets: Seq<Entity>)
    ensures
        after_harming(w, item, by_player, targets).slots.len() == w.slots.len(),
        after_harming(w, item, by_player, targets).map == w.map,
{
    let named = if by_player {
        item.name
    } else {
        None
    };
    let hit = match item.inflicts_damage {
        Some(d) => hurt_upto(w, targets, d.damage, named, targets.len()),
        None => w,
    };
    if item.inflicts_damage is Some {
        lemma_hurt_upto_keeps(w, targets, item.inflicts_damage->0.damage, named, targets.len());
    }
    if item.confusion is Some {
        lemma_confuse_upto_keeps(hit, targets, item.confusion->0.turns, named, targets.len());
    }
}

pub open spec fn use_upto(w: WorldView, n: nat) -> WorldView
    decreases n,
{
    if n == 0 {
        w
    } else {
        use_one(use_upto(w, (n - 1) as nat), n - 1)
    }
}

/// One pass of using items, after which no intent to use an item is left.
pub open spec fn use_pass(w: WorldView) -> WorldView {
    use_upto(w, w.slots.len()).cleared(Transient::WantsToUseItem)
}

/// The name of the item in the slot, where the player is the one who uses
/// it.
fn name_for_log(ecs: &World, item: Entity, by_player: bool) -> (named: Option<String>)
    requires
        ecs@.alive(item),
    ensures
        text_of(named) == (if by_player {
            ecs@.slot(item).name
        } else {
            None
        }),
{
    match &ecs.slots[item.id].name {
        Some(name) => if by_player {
            Some(name.name.clone())
        } else {
            None
        },
        None => None,
    }
}

fn equip_phase(ecs: &mut World, intent: WantsToUseItem, targets: &Vec<Entity>)
    requires
        old(ecs)@.alive(intent.item),
    ensures
        final(ecs)@ == after_equip(old(ecs)@, intent, targets@),
{
    match ecs.slots[intent.item.id].equippable {
        Some(e) => {
            if targets.len() > 0 {
                let wearer = targets[0];
                equip(ecs, intent.item, wearer, e.slot, wearer == ecs.player);
            }
        },
        None => {},
    }
}

fn restore_message_for(named: &Option<String>, what: Restores, amount: i32) -> (message: Option<String>)
    ensures
        text_of(message) == (match text_of(*named) {
            Some(name) => Some(restore_text(name, what, amount as int)),
            None => None,
        }),
{
    match named {
        Some(name) => Some(restore_message(name, what, amount)),
        None => None,
    }
}

fn restore_phase(ecs: &mut World, item: Ghost<SlotView>, by_player: bool, targets: &Vec<Entity>, healing: Option<ProvidesHealing>, oxygen: Option<ProvidesOxygen>, energy: Option<ProvidesEnergy>, named: &Option<String>)
    requires
        healing == item@.provides_healing,
        oxygen == item@.provides_oxygen,
        energy == item@.provides_energy,
        text_of(*named) == (if by_player {
            item@.name
        } else {
            None
        }),
    ensures
        final(ecs)@ == after_restoring(old(ecs)@, item@, by_player, targets@),
{
    match healing {
        Some(p) => {
            let message = restore_message_for(named, Restores::Health, p.heal_amount);
            restore_all(ecs, targets, Restores::Health, p.heal_amount, &message);
        },
        None => {},
    }
    match oxygen {
        Some(p) => {
            let message = restore_message_for(named, Restores::Oxygen, p.oxygen_amount);
            restore_all(ecs, targets, Restores::Oxygen, p.oxygen_amount, &message);
        },
        None => {},
    }
    match energy {
        Some(p) => {
            let message = restore_message_for(named, Restores::Energy, p.energy_amount);
            restore_all(ecs, targets, Restores::Energy, p.energy_amount, &message);
        },
        None => {},
    }
}

fn harm_phase(ecs: &mut World, item: Ghost<SlotView>, by_player: bool, targets: &Vec<Entity>, damage: Option<InflictsDamage>, confusion: Option<Confusion>, named: &Option<String>)
    requires
        damage == item@.inflicts_damage,
        confusion == item@.confusion,
        text_of(*named) == (if by_player {
            item@.name
        } else {
            None
        }),
    ensures
        final(ecs)@ == after_harming(old(ecs)@, item@, by_player, targets@),
{
    match damage {
        Some(d) => {
            hurt_all(ecs, targets, d.damage, named);
        },
        None => {},
    }
    match confusion {
        Some(c) => {
            confuse_all(ecs, targets, c.turns, named);
        },
        None => {},
    }
}

impl StimPackUseSystem {
    fn use_item(ecs: &mut World, i: usize)
        requires
            i < old(ecs)@.slots.len(),
            old(ecs).wf(),
        ensures
            final(ecs)@ == use_one(old(ecs)@, i as int),
    {
        let intent = match ecs.slots[i].wants_to_use_item {
            None => {
                return ;
            },
            Some(intent) => intent,
        };
        if !ecs.is_alive(intent.item) {
            ecs.log.push(stale_message());
            return ;
        }
        let by_player = ecs.player.id == i;
        let targets = gather_targets(ecs, i, intent);
        let reached = any_reached(ecs, &targets);
        let healing = ecs.slots[intent.item.id].provides_healing;
        let oxygen = ecs.slots[intent.item.id].provides_oxygen;
        let energy = ecs.slots[intent.item.id].provides_energy;
        let damage = ecs.slots[intent.item.id].inflicts_damage;
        let confusion = ecs.slots[intent.item.id].confusion;
        let consumable = ecs.slots[intent.item.id].consumable.is_some();
        let named = name_for_log(ecs, intent.item, by_player);
        let ghost item = old(ecs)@.slot(intent.item);
        equip_phase(ecs, intent, &targets);
        restore_phase(ecs, Ghost(item), by_player, &targets, healing, oxygen, energy, &named);
        harm_phase(ecs, Ghost(item), by_player, &targets, damage, confusion, &named);
        let used_up = if confusion.is_some() || damage.is_some() {
            targets.len() > 0
        } else if energy.is_some() || oxygen.is_some() || healing.is_some() {
            reached
        } else {
            true
        };
        if consumable && used_up {
            ecs.delete_later(intent.item);
        }
    }

    /// Carries out every intent to use an item, in the order of the slots,
    /// and clears the intents.
    pub fn run(&mut self, ecs: &mut World)
        requires
            old(ecs).wf(),
        ensures
            final(ecs).wf(),
            final(ecs)@ == use_pass(old(ecs)@),
            final(ecs)@.slots.len() == old(ecs)@.slots.len(),
            final(ecs)@.map == old(ecs)@.map,
    {
        let n = ecs.slots.len();
        let mut i: usize = 0;
        while i < n
            invariant
                i <= n,
                n == ecs@.slots.len(),
                n == old(ecs)@.slots.len(),
                ecs@.map == old(ecs)@.map,
                ecs.wf(),
                ecs@ == use_upto(old(ecs)@, i as nat),
            decreases n - i,
        {
            Self::use_item(ecs, i);
            proof {
                lemma_use_one_keeps(use_upto(old(ecs)@, i as nat), i as int);
            }
            i = i + 1;
        }
        ecs.clear(Transient::WantsToUseItem);
    }
}

} // verus!
