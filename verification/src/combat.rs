//! What melee and ranged attacks share: the damage formula and the
//! resolution of one attack against its target.

use vstd::prelude::*;
use crate::components::{saturate, saturating, Entity, SufferDamage};
use crate::gamelog::{
    hit_message, hit_text, stale_message, stale_text, unable_to_hurt_message,
    unable_to_hurt_text,
};
use crate::world::{World, WorldView};

verus! {

/// The damage of an attack of strength `power` against `defense`: what the
/// power exceeds the defense by, and never less than nothing. A difference
/// beyond the largest `i32` counts as that.
pub open spec fn damage_dealt(power: int, defense: int) -> int {
    if power - defense > 0 {
        saturate(power - defense)
    } else {
        0
    }
}

/// The damage formula never yields a negative amount, and yields exactly
/// the excess of power over defense wherever that fits.
pub proof fn lemma_damage_formula(power: int, defense: int)
    ensures
        damage_dealt(power, defense) >= 0,
        power - defense <= i32::MAX ==> damage_dealt(power, defense) == (if power - defense > 0 {
            power - defense
        } else {
            0
        }),
{
}

pub fn compute_damage(power: i128, defense: i32) -> (damage: i32)
    requires
        -0x1_0000_0000_0000_0000_0000_0000 <= power <= 0x1_0000_0000_0000_0000_0000_0000,
    ensures
        damage == damage_dealt(power as int, defense as int),
{
    let excess: i128 = power - defense as i128;
    if excess > 0 {
        saturating(excess)
    } else {
        0
    }
}

/// The world after the entity in slot `i`, which has a name, attacks
/// `target` with strength `power`.
///
/// A target without combat statistics, or a living one without a name,
/// makes the attack void: the log says so. A target with no health left is
/// passed over. Otherwise the log tells of the attack, and damage, where
/// there is any, is put down to wait for the target.
pub open spec fn struck(w: WorldView, i: int, target: Entity, power: int) -> WorldView {
    let attacker = w.slots[i];
    let defender = w.slot(target);
    match defender.combat_stats {
        None => w.logged(stale_text()),
        Some(stats) => if stats.hp.current > 0 {
            match defender.name {
                None => w.logged(stale_text()),
                Some(defender_name) => {
                    let damage = damage_dealt(power, stats.defense as int);
                    if damage == 0 {
                        w.logged(unable_to_hurt_text(attacker.name->0, defender_name))
                    } else {
                        w.logged(hit_text(attacker.name->0, defender_name, damage)).hurt(
                            target,
                            damage as i32,
                        )
                    }
                },
            }
        } else {
            w
        },
    }
}

/// An attack on a living target that has a name puts down for it exactly
/// what the power exceeds the defense by, behind what already waits; an
/// attack that does not exceed the defense puts down nothing.
pub proof fn lemma_attack_deals_the_excess(w: WorldView, i: int, target: Entity, power: int)
    requires
        0 <= i < w.slots.len(),
        w.alive(target),
        w.slot(target).name is Some,
        w.slot(target).combat_stats is Some,
        w.slot(target).combat_stats->0.hp.current > 0,
        power - w.slot(target).combat_stats->0.defense <= i32::MAX,
    ensures
        struck(w, i, target, power).slot(target).suffer_damage == (if power - w.slot(
            target,
        ).combat_stats->0.defense > 0 {
            let damage = (power - w.slot(target).combat_stats->0.defense) as i32;
            Some(
                match w.slot(target).suffer_damage {
                    Some(waiting) => waiting.push(damage),
                    None => seq![damage],
                },
            )
        } else {
            w.slot(target).suffer_damage
        }),
{
}

/// Resolves one attack of the entity in slot `i` on `target`.
pub fn strike(ecs: &mut World, i: usize, target: Entity, power: i128)
    requires
        i < old(ecs)@.slots.len(),
        old(ecs)@.slots[i as int].name is Some,
        -0x1_0000_0000_0000_0000_0000_0000 <= power <= 0x1_0000_0000_0000_0000_0000_0000,
    ensures
        final(ecs)@ == struck(old(ecs)@, i as int, target, power as int),
{
    if target.id >= ecs.slots.len() {
        ecs.log.push(stale_message());
        return ;
    }
    let defense: i32;
    let health: i32;
    match &ecs.slots[target.id].combat_stats {
        None => {
            ecs.log.push(stale_message());
            return ;
        },
        Some(stats) => {
            defense = stats.defense;
            health = stats.hp.current;
        },
    }
    if health > 0 {
        let damage = compute_damage(power, defense);
        let message: String;
        match (&ecs.slots[i].name, &ecs.slots[target.id].name) {
            (Some(attacker_name), Some(defender_name)) => {
                if damage == 0 {
                    message = unable_to_hurt_message(&attacker_name.name, &defender_name.name);
                } else {
                    message = hit_message(&attacker_name.name, &defender_name.name, damage);
                }
            },
            _ => {
                message = stale_message();
            },
        }
        ecs.log.push(message);
        let named = ecs.slots[target.id].name.is_some();
        if named && damage != 0 {
            SufferDamage::new_damage(ecs, target, damage);
        }
    }
}

} // verus!
