//! Breathing: oxygen is used up, and who runs out of it suffers.

use vstd::prelude::*;
use crate::components::{sum_amounts, total, CombatStatsView, Entity, PoolView, SufferDamage};
use crate::damage_system::{deplete, depleted, lemma_total_range};
use crate::gamelog::{low_oxygen_message, low_oxygen_text, out_of_air_message, out_of_air_text};
use crate::world::{SlotView, Transient, World, WorldView};

verus! {

pub struct OxygenSystem {}

/// The level of oxygen at which a warning is given.
pub const OXYGEN_WARNING_LEVEL: i32 = 25;

/// Whether the entity in the slot breathes in this pass: it has statistics
/// and oxygen to use up.
pub open spec fn breathes(s: SlotView) -> bool {
    s.combat_stats is Some && s.breath_oxygen is Some
}

/// The oxygen that the entity in the slot, which breathes, has left after
/// this pass.
pub open spec fn oxygen_left(s: SlotView) -> i32 {
    depleted(s.combat_stats->0.oxygen.current, total(s.breath_oxygen->0))
}

/// The world after the entity in slot `i` has breathed: its oxygen is
/// lowered, not below nothing; with none left it suffers one point of
/// damage and the log says so; at exactly the warning level the log warns.
pub open spec fn breathe_one(w: WorldView, i: int) -> WorldView {
    let s = w.slots[i];
    if breathes(s) {
        let stats = s.combat_stats->0;
        let left = oxygen_left(s);
        let after = w.with_slot(
            i,
            SlotView {
                combat_stats: Some(
                    CombatStatsView { oxygen: PoolView { current: left, ..stats.oxygen }, ..stats },
                ),
                ..s
            },
        );
        if left == 0 {
            after.hurt(Entity { id: i as usize }, 1).logged(out_of_air_text())
        } else if left == OXYGEN_WARNING_LEVEL {
            after.logged(low_oxygen_text())
        } else {
            after
        }
    } else {
        w
    }
}

/// The world after the entities in the first `n` slots have breathed, in
/// the order of the slots.
pub open spec fn breathe_upto(w: WorldView, n: nat) -> WorldView
    decreases n,
{
    if n == 0 {
        w
    } else {
        breathe_one(breathe_upto(w, (n - 1) as nat), n - 1)
    }
}

/// One pass of the oxygen system, after which no oxygen is left waiting.
pub open spec fn oxygen_pass(w: WorldView) -> WorldView {
    breathe_upto(w, w.slots.len()).cleared(Transient::BreathOxygen)
}

/// Breathing leaves the slots after those that have breathed as they were.
pub proof fn lemma_breathe_upto_rest(w: WorldView, n: nat)
    requires
        n <= w.slots.len(),
    ensures
        breathe_upto(w, n).slots.len() == w.slots.len(),
        breathe_upto(w, n).map == w.map,
        forall|j: int| n <= j < w.slots.len() ==> breathe_upto(w, n).slots[j] == w.slots[j],
    decreases n,
{
    if n > 0 {
        lemma_breathe_upto_rest(w, (n - 1) as nat);
    }
}

impl OxygenSystem {
    /// Lets the entity in slot `i` breathe, if it is to.
    fn breathe(ecs: &mut World, i: usize)
        requires
            i < old(ecs)@.slots.len(),
        ensures
            final(ecs)@ == breathe_one(old(ecs)@, i as int),
    {
        let left: i32;
        match (&ecs.slots[i].combat_stats, &ecs.slots[i].breath_oxygen) {
            (Some(stats), Some(waiting)) => {
                let amount = sum_amounts(&waiting.amount);
                proof {
                    lemma_total_range(waiting.amount@);
                    assert((waiting.amount.len() as int) * 0x8000_0000 <= 0x1_0000_0000_0000_0000 * 0x8000_0000) by (nonlinear_arith)
                        requires waiting.amount.len() <= 0x1_0000_0000_0000_0000;
                }
                left = deplete(stats.oxygen.current, amount);
            },
            _ => {
                return ;
            },
        }
        match &mut ecs.slots[i].combat_stats {
            Some(stats) => {
                stats.oxygen.current = left;
            },
            None => {},
        }
        let ghost s = old(ecs)@.slots[i as int];
        let ghost after = old(ecs)@.with_slot(
            i as int,
            SlotView {
                combat_stats: Some(
                    CombatStatsView {
                        oxygen: PoolView { current: left, ..s.combat_stats->0.oxygen },
                        ..s.combat_stats->0
                    },
                ),
                ..s
            },
        );
        assert(ecs@.slots =~= after.slots);
        if left == 0 {
            SufferDamage::new_damage(ecs, Entity { id: i }, 1);
            ecs.log.push(out_of_air_message());
        } else if left == OXYGEN_WARNING_LEVEL {
            ecs.log.push(low_oxygen_message());
        }
    }

    /// Lets every entity breathe, in the order of the slots, and clears the
    /// oxygen that waited.
    pub fn run(&mut self, ecs: &mut World)
        ensures
            final(ecs)@ == oxygen_pass(old(ecs)@),
            final(ecs)@.slots.len() == old(ecs)@.slots.len(),
            final(ecs)@.map == old(ecs)@.map,
    {
        let n = ecs.slots.len();
        let mut i: usize = 0;
        while i < n
            invariant
                i <= n,
                n == ecs@.slots.len(),
                n == old(ecs)@.slots.len(),
                ecs@.map == old(ecs)@.map,
                ecs@ == breathe_upto(old(ecs)@, i as nat),
            decreases n - i,
        {
            Self::breathe(ecs, i);
            proof {
                lemma_breathe_upto_rest(old(ecs)@, (i + 1) as nat);
            }
            i = i + 1;
        }
        ecs.clear(Transient::BreathOxygen);
    }
}

} // verus!
