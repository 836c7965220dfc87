//! Close combat: every entity that wants to hit another does so.

use vstd::prelude::*;
use crate::combat::{strike, struck};
use crate::components::Entity;
use crate::world::{Transient, World, WorldView};

verus! {

pub struct MeleeCombatSystem {}

/// The sum of the melee bonuses of the items among the first `n` slots that
/// `attacker` has equipped.
pub open spec fn melee_bonus(w: WorldView, attacker: Entity, n: nat) -> int
    decreases n,
{
    if n == 0 {
        0
    } else {
        let item = w.slots[n - 1];
        melee_bonus(w, attacker, (n - 1) as nat) + if item.melee_power_bonus is Some
            && item.equipped is Some && item.equipped->0.owner == attacker {
            item.melee_power_bonus->0.power as int
        } else {
            0
        }
    }
}

/// The strength with which `attacker` hits: its own power and the bonuses
/// of all that it has equipped.
pub open spec fn melee_power(w: WorldView, attacker: Entity) -> int {
    w.slot(attacker).combat_stats->0.power + melee_bonus(w, attacker, w.slots.len())
}

/// Whether the entity in slot `i` attacks in this pass: it wants to, has a
/// name and statistics, and is not dead.
pub open spec fn melee_attacker(w: WorldView, i: int) -> bool {
    let s = w.slots[i];
    s.wants_to_melee is Some && s.name is Some && s.combat_stats is Some
        && s.combat_stats->0.hp.current > 0
}

/// The world after the entity in slot `i` has had its turn at close combat.
pub open spec fn melee_one(w: WorldView, i: int) -> WorldView {
    if melee_attacker(w, i) {
        struck(w, i, w.slots[i].wants_to_melee->0.target, melee_power(w, Entity { id: i as usize }))
    } else {
        w
    }
}

/// The world after the entities in the first `n` slots have had their turn,
/// in the order of the slots.
pub open spec fn melee_upto(w: WorldView, n: nat) -> WorldView
    decreases n,
{
    if n == 0 {
        w
    } else {
        melee_one(melee_upto(w, (n - 1) as nat), n - 1)
    }
}

/// One pass of close combat: every attack in the order of the slots, after
/// which no intent to attack is left.
pub open spec fn melee_pass(w: WorldView) -> WorldView {
    melee_upto(w, w.slots.len()).cleared(Transient::WantsToMelee)
}

/// Close combat changes neither the number of slots nor anybody's
/// statistics, and nothing of the map.
pub proof fn lemma_melee_upto_keeps(w: WorldView, n: nat)
    requires
        n <= w.slots.len(),
    ensures
        melee_upto(w, n).slots.len() == w.slots.len(),
        melee_upto(w, n).map == w.map,
        forall|j: int| 0 <= j < w.slots.len() ==> (#[trigger] melee_upto(w, n).slots[j]).combat_stats
            == w.slots[j].combat_stats,
    decreases n,
{
    if n > 0 {
        lemma_melee_upto_keeps(w, (n - 1) as nat);
    }
}

fn gather_melee_bonus(ecs: &World, attacker: Entity) -> (bonus: i128)
    ensures
        bonus == melee_bonus(ecs@, attacker, ecs@.slots.len()),
        -(ecs@.slots.len() as int) * 0x8000_0000 <= bonus <= (ecs@.slots.len() as int) * 0x8000_0000,
{
    let mut bonus: i128 = 0;
    let mut j: usize = 0;
    while j < ecs.slots.len()
        invariant
            j <= ecs.slots.len(),
            bonus == melee_bonus(ecs@, attacker, j as nat),
            -(j as int) * 0x8000_0000 <= bonus <= (j as int) * 0x8000_0000,
        decreases ecs.slots.len() - j,
    {
        assert((j as int + 1) * 0x8000_0000 == (j as int) * 0x8000_0000 + 0x8000_0000) by (nonlinear_arith);
        assert((j as int) * 0x8000_0000 <= 0x1_0000_0000_0000_0000 * 0x8000_0000) by (nonlinear_arith)
            requires j <= 0x1_0000_0000_0000_0000;
        let item = &ecs.slots[j];
        match (item.melee_power_bonus, item.equipped) {
            (Some(b), Some(worn)) => {
                if worn.owner == attacker {
                    bonus = bonus + b.power as i128;
                }
            },
            _ => {},
        }
        j = j + 1;
    }
    bonus
}

impl MeleeCombatSystem {
    /// Lets the entity in slot `i` attack, if it is to.
    fn attack(ecs: &mut World, i: usize)
        requires
            i < old(ecs)@.slots.len(),
        ensures
            final(ecs)@ == melee_one(old(ecs)@, i as int),
    {
        let target: Entity;
        let power: i32;
        {
            let s = &ecs.slots[i];
            match (s.wants_to_melee, &s.name, &s.combat_stats) {
                (Some(intent), Some(_), Some(stats)) => {
                    if stats.hp.current <= 0 {
                        return ;
                    }
                    target = intent.target;
                    power = stats.power;
                },
                _ => {
                    return ;
                },
            }
        }
        let bonus = gather_melee_bonus(ecs, Entity { id: i });
        assert((ecs.slots.len() as int) * 0x8000_0000 <= 0x1_0000_0000_0000_0000 * 0x8000_0000) by (nonlinear_arith)
            requires ecs.slots.len() <= 0x1_0000_0000_0000_0000;
        strike(ecs, i, target, power as i128 + bonus);
    }

    /// Resolves every melee intent, in the order of the slots, and clears
    /// the intents.
    pub fn run(&mut self, ecs: &mut World)
        ensures
            final(ecs)@ == melee_pass(old(ecs)@),
            final(ecs)@.slots.len() == old(ecs)@.slots.len(),
            final(ecs)@.map == old(ecs)@.map,
    {
        let n = ecs.slots.len();
        let mut i: usize = 0;
        while i < n
            invariant
                i <= n,
                n == ecs@.slots.len(),
                n == old(ecs)@.slots.len(),
                ecs@.map == old(ecs)@.map,
                ecs@ == melee_upto(old(ecs)@, i as nat),
            decreases n - i,
        {
            Self::attack(ecs, i);
            proof {
                lemma_melee_upto_keeps(old(ecs)@, (i + 1) as nat);
            }
            i = i + 1;
        }
        ecs.clear(Transient::WantsToMelee);
    }
}

} // verus!
