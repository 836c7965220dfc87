//! Ranged combat: every entity that wants to shoot another does so.

use vstd::prelude::*;
use crate::combat::{strike, struck};
use crate::components::Entity;
use crate::world::{Transient, World, WorldView};

verus! {

pub struct RangedCombatSystem {}

/// The damage of the ranged weapon that `shooter` has equipped, looking at
/// the first `n` slots: that of the last such weapon, and nothing where
/// there is none.
pub open spec fn ranged_power(w: WorldView, shooter: Entity, n: nat) -> int
    decreases n,
{
    if n == 0 {
        0
    } else {
        let item = w.slots[n - 1];
        if item.ranged_weapon is Some && item.equipped is Some && item.equipped->0.owner == shooter {
            item.ranged_weapon->0.damage as int
        } else {
            ranged_power(w, shooter, (n - 1) as nat)
        }
    }
}

/// Whether the entity in slot `i` shoots in this pass: it wants to, has a
/// name and statistics, and is not dead.
pub open spec fn shooter(w: WorldView, i: int) -> bool {
    let s = w.slots[i];
    s.wants_to_shoot is Some && s.name is Some && s.combat_stats is Some
        && s.combat_stats->0.hp.current > 0
}

/// The world after the entity in slot `i` has had its turn at shooting. The
/// strength of a shot is that of the weapon alone.
pub open spec fn shoot_one(w: WorldView, i: int) -> WorldView {
    if shooter(w, i) {
        struck(
            w,
            i,
            w.slots[i].wants_to_shoot->0.target,
            ranged_power(w, Entity { id: i as usize }, w.slots.len()),
        )
    } else {
        w
    }
}

/// The world after the entities in the first `n` slots have had their turn,
/// in the order of the slots.
pub open spec fn shoot_upto(w: WorldView, n: nat) -> WorldView
    decreases n,
{
    if n == 0 {
        w
    } else {
        shoot_one(shoot_upto(w, (n - 1) as nat), n - 1)
    }
}

/// One pass of ranged combat: every shot in the order of the slots, after
/// which no intent to shoot is left.
pub open spec fn ranged_pass(w: WorldView) -> WorldView {
    shoot_upto(w, w.slots.len()).cleared(Transient::WantsToShoot)
}

/// Shooting changes neither the number of slots nor anybody's statistics,
/// and nothing of the map.
pub proof fn lemma_shoot_upto_keeps(w: WorldView, n: nat)
    requires
        n <= w.slots.len(),
    ensures
        shoot_upto(w, n).slots.len() == w.slots.len(),
        shoot_upto(w, n).map == w.map,
        forall|j: int| 0 <= j < w.slots.len() ==> (#[trigger] shoot_upto(w, n).slots[j]).combat_stats
            == w.slots[j].combat_stats,
    decreases n,
{
    if n > 0 {
        lemma_shoot_upto_keeps(w, (n - 1) as nat);
    }
}

fn weapon_damage(ecs: &World, shooter: Entity) -> (power: i32)
    ensures
        power == ranged_power(ecs@, shooter, ecs@.slots.len()),
{
    let mut power: i32 = 0;
    let mut j: usize = 0;
    while j < ecs.slots.len()
        invariant
            j <= ecs.slots.len(),
            power == ranged_power(ecs@, shooter, j as nat),
        decreases ecs.slots.len() - j,
    {
        let item = &ecs.slots[j];
        match (item.ranged_weapon, item.equipped) {
            (Some(weapon), Some(worn)) => {
                if worn.owner == shooter {
                    power = weapon.damage;
                }
            },
            _ => {},
        }
        j = j + 1;
    }
    power
}

impl RangedCombatSystem {
    /// Lets the entity in slot `i` shoot, if it is to.
    fn shoot(ecs: &mut World, i: usize)
        requires
            i < old(ecs)@.slots.len(),
        ensures
            final(ecs)@ == shoot_one(old(ecs)@, i as int),
    {
        let target: Entity;
        {
            let s = &ecs.slots[i];
            match (s.wants_to_shoot, &s.name, &s.combat_stats) {
                (Some(intent), Some(_), Some(stats)) => {
                    if stats.hp.current <= 0 {
                        return ;
                    }
                    target = intent.target;
                },
                _ => {
                    return ;
                },
            }
        }
        let power = weapon_damage(ecs, Entity { id: i });
        strike(ecs, i, target, power as i128);
    }

    /// Resolves every intent to shoot, in the order of the slots, and
    /// clears the intents.
    pub fn run(&mut self, ecs: &mut World)
        ensures
            final(ecs)@ == ranged_pass(old(ecs)@),
            final(ecs)@.slots.len() == old(ecs)@.slots.len(),
            final(ecs)@.map == old(ecs)@.map,
    {
        let n = ecs.slots.len();
        let mut i: usize = 0;
        while i < n
            invariant
                i <= n,
                n == ecs@.slots.len(),
                n == old(ecs)@.slots.len(),
                ecs@.map == old(ecs)@.map,
                ecs@ == shoot_upto(old(ecs)@, i as nat),
            decreases n - i,
        {
            Self::shoot(ecs, i);
            proof {
                lemma_shoot_upto_keeps(old(ecs)@, (i + 1) as nat);
            }
            i = i + 1;
        }
        ecs.clear(Transient::WantsToShoot);
    }
}

} // verus!
