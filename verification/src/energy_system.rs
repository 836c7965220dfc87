//! Draining energy.

use vstd::prelude::*;
use crate::components::{sum_amounts, total, CombatStatsView, PoolView};
use crate::damage_system::{deplete, depleted, lemma_total_range};
use crate::world::{SlotView, World, WorldView};

verus! {

pub struct EnergySystem {}

/// What is left of `current` after `amount` is taken away: never less than
/// nothing, and never more than an `i32` holds.
pub open spec fn lowered(current: i32, amount: int) -> i32 {
    depleted(current, amount)
}

/// The slot after the energy that it is to lose is taken from its energy
/// pool. What waits for an entity without statistics is dropped.
pub open spec fn drained(s: SlotView) -> SlotView {
    if s.combat_stats is Some && s.drain_energy is Some {
        let stats = s.combat_stats->0;
        SlotView {
            combat_stats: Some(
                CombatStatsView {
                    energy: PoolView {
                        current: lowered(stats.energy.current, total(s.drain_energy->0)),
                        ..stats.energy
                    },
                    ..stats
                },
            ),
            drain_energy: None,
            ..s
        }
    } else {
        SlotView { drain_energy: None, ..s }
    }
}

/// One pass of the energy system: every entity loses the energy that was
/// put down for it, and nothing is left waiting.
pub open spec fn energy_pass(w: WorldView) -> WorldView {
    WorldView { slots: Seq::new(w.slots.len(), |i: int| drained(w.slots[i])), ..w }
}

impl EnergySystem {
    /// Takes from every entity the energy that was put down for it, and
    /// clears what waited.
    pub fn run(&mut self, ecs: &mut World)
        ensures
            final(ecs)@ == energy_pass(old(ecs)@),
            final(ecs)@.slots.len() == old(ecs)@.slots.len(),
            final(ecs)@.map == old(ecs)@.map,
    {
        let n = ecs.slots.len();
        let mut i: usize = 0;
        while i < n
            invariant
                i <= n,
                n == ecs.slots@.len(),
                n == old(ecs).slots@.len(),
                ecs@ == (WorldView { slots: ecs@.slots, ..old(ecs)@ }),
                forall|j: int| 0 <= j < i ==> (#[trigger] ecs.slots@[j])@ == drained(old(ecs).slots@[j]@),
                forall|j: int| i <= j < n ==> (#[trigger] ecs.slots@[j]) == old(ecs).slots@[j],
            decreases n - i,
        {
            let slot = &mut ecs.slots[i];
            match (&mut slot.combat_stats, &slot.drain_energy) {
                (Some(stats), Some(waiting)) => {
                    let amount = sum_amounts(&waiting.amount);
                    proof {
                        lemma_total_range(waiting.amount@);
                        assert((waiting.amount.len() as int) * 0x8000_0000 <= 0x1_0000_0000_0000_0000 * 0x8000_0000) by (nonlinear_arith)
                            requires waiting.amount.len() <= 0x1_0000_0000_0000_0000;
                    }
                    stats.energy.current = deplete(stats.energy.current, amount);
                },
                _ => {},
            }
            slot.drain_energy = None;
            i = i + 1;
        }
        assert(ecs@.slots =~= energy_pass(old(ecs)@).slots);
    }
}

} // verus!
