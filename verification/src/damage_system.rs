//! Taking damage, and burying the dead.

use vstd::prelude::*;
use crate::components::{saturate, saturating, sum_amounts, total, CombatStatsView, PoolView};
use crate::gamelog::{dead_message, dead_text};
use crate::runstate::RunState;
use crate::world::{Slot, SlotView, World, WorldView};

verus! {

pub struct DamageSystem {}

/// What is left of `current` after `amount` is taken away, never less than
/// nothing and never more than an `i32` holds.
pub open spec fn depleted(current: i32, amount: int) -> i32 {
    if current - amount < 0 {
        0
    } else {
        saturate(current - amount) as i32
    }
}

pub fn deplete(current: i32, amount: i128) -> (left: i32)
    requires
        -0x1_0000_0000_0000_0000_0000_0000 <= amount <= 0x1_0000_0000_0000_0000_0000_0000,
    ensures
        left == depleted(current, amount as int),
{
    let rest: i128 = current as i128 - amount;
    if rest < 0 {
        0
    } else {
        saturating(rest)
    }
}

/// The slot after its waiting damage is taken from its health. Damage that
/// waits for an entity without statistics is dropped.
pub open spec fn damaged(s: SlotView) -> SlotView {
    if s.combat_stats is Some && s.suffer_damage is Some {
        let stats = s.combat_stats->0;
        SlotView {
            combat_stats: Some(
                CombatStatsView {
                    hp: PoolView {
                        current: depleted(stats.hp.current, total(s.suffer_damage->0)),
                        ..stats.hp
                    },
                    ..stats
                },
            ),
            suffer_damage: None,
            ..s
        }
    } else {
        SlotView { suffer_damage: None, ..s }
    }
}

/// One pass of the damage system: every entity takes the damage that waits
/// for it, and no damage is left waiting.
pub open spec fn damage_pass(w: WorldView) -> WorldView {
    WorldView { slots: Seq::new(w.slots.len(), |i: int| damaged(w.slots[i])), ..w }
}

/// No amount in the list is negative.
pub open spec fn none_negative(amounts: Seq<i32>) -> bool {
    forall|k: int| 0 <= k < amounts.len() ==> amounts[k] >= 0
}

/// A list without negative amounts has no negative sum.
pub proof fn lemma_total_not_negative(amounts: Seq<i32>)
    requires
        none_negative(amounts),
    ensures
        total(amounts) >= 0,
    decreases amounts.len(),
{
    if amounts.len() > 0 {
        lemma_total_not_negative(amounts.drop_last());
    }
}

/// The sum of a list lies within the range that its length allows.
pub proof fn lemma_total_range(amounts: Seq<i32>)
    ensures
        -(amounts.len() as int) * 0x8000_0000 <= total(amounts) <= (amounts.len() as int) * 0x8000_0000,
    decreases amounts.len(),
{
    if amounts.len() > 0 {
        lemma_total_range(amounts.drop_last());
        assert((amounts.len() as int) * 0x8000_0000 == (amounts.len() as int - 1) * 0x8000_0000 + 0x8000_0000) by (nonlinear_arith);
    }
}

impl DamageSystem {
    /// Applies the waiting damage of every entity to its health, and clears
    /// what waited.
    pub fn run(&mut self, ecs: &mut World)
        ensures
            final(ecs)@ == damage_pass(old(ecs)@),
            final(ecs)@.slots.len() == old(ecs)@.slots.len(),
            final(ecs)@.map == old(ecs)@.map,
    {
        let n = ecs.slots.len();
        let mut i: usize = 0;
        while i < n
            invariant
                i <= n,
                n == ecs.slots@.len(),
                n == old(ecs).slots@.len(),
                ecs@ == (WorldView { slots: ecs@.slots, ..old(ecs)@ }),
                forall|j: int| 0 <= j < i ==> (#[trigger] ecs.slots@[j])@ == damaged(old(ecs).slots@[j]@),
                forall|j: int| i <= j < n ==> (#[trigger] ecs.slots@[j]) == old(ecs).slots@[j],
            decreases n - i,
        {
            let slot = &mut ecs.slots[i];
            match (&mut slot.combat_stats, &slot.suffer_damage) {
                (Some(stats), Some(waiting)) => {
                    let amount = sum_amounts(&waiting.amount);
                    proof {
                        lemma_total_range(waiting.amount@);
                        assert((waiting.amount.len() as int) * 0x8000_0000 <= 0x1_0000_0000_0000_0000 * 0x8000_0000) by (nonlinear_arith)
                            requires waiting.amount.len() <= 0x1_0000_0000_0000_0000;
                    }
                    stats.hp.current = deplete(stats.hp.current, amount);
                },
                _ => {},
            }
            slot.suffer_damage = None;
            i = i + 1;
        }
        assert(ecs@.slots =~= damage_pass(old(ecs)@).slots);
    }
}

/// Whether the entity in the slot is dead: it has statistics and no health
/// left.
pub open spec fn dead(s: SlotView) -> bool {
    s.combat_stats is Some && s.combat_stats->0.hp.current < 1
}

/// The world after the entity in slot `i` is looked at by the sweep: who is
/// dead is announced, where it has a name, and removed; and the death of
/// the player ends the game.
pub open spec fn swept_one(w: WorldView, i: int) -> WorldView {
    let s = w.slots[i];
    if dead(s) {
        let told = if s.name is Some {
            w.logged(dead_text(s.name->0))
        } else {
            w
        };
        let buried = told.with_slot(i, SlotView::bare(false));
        if s.player is Some {
            WorldView { runstate: RunState::GameOver, ..buried }
        } else {
            buried
        }
    } else {
        w
    }
}

/// The world after the sweep has looked at the first `n` slots.
pub open spec fn swept_upto(w: WorldView, n: nat) -> WorldView
    decreases n,
{
    if n == 0 {
        w
    } else {
        swept_one(swept_upto(w, (n - 1) as nat), n - 1)
    }
}

/// The world after the dead are removed.
pub open spec fn swept(w: WorldView) -> WorldView {
    swept_upto(w, w.slots.len())
}

/// The sweep leaves the slots after those it has looked at as they were.
pub proof fn lemma_swept_upto_rest(w: WorldView, n: nat)
    requires
        n <= w.slots.len(),
    ensures
        swept_upto(w, n).slots.len() == w.slots.len(),
        swept_upto(w, n).map == w.map,
        forall|j: int| n <= j < w.slots.len() ==> swept_upto(w, n).slots[j] == w.slots[j],
    decreases n,
{
    if n > 0 {
        lemma_swept_upto_rest(w, (n - 1) as nat);
    }
}

/// Removes every entity that has no health left. The death of the player
/// ends the game.
pub fn delete_the_dead(ecs: &mut World)
    ensures
        final(ecs)@ == swept(old(ecs)@),
        final(ecs)@.slots.len() == old(ecs)@.slots.len(),
        final(ecs)@.map == old(ecs)@.map,
{
    let n = ecs.slots.len();
    let mut i: usize = 0;
    while i < n
        invariant
            i <= n,
            n == ecs.slots@.len(),
            n == old(ecs)@.slots.len(),
            ecs@.map == old(ecs)@.map,
            ecs@ == swept_upto(old(ecs)@, i as nat),
        decreases n - i,
    {
        let is_dead = match &ecs.slots[i].combat_stats {
            Some(stats) => stats.hp.current < 1,
            None => false,
        };
        if is_dead {
            let message = match &ecs.slots[i].name {
                Some(name) => Some(dead_message(&name.name)),
                None => None,
            };
            match message {
                Some(m) => {
                    ecs.log.push(m);
                },
                None => {},
            }
            if ecs.slots[i].player.is_some() {
                ecs.runstate = RunState::GameOver;
            }
            ecs.slots[i] = Slot::bare(false);
            assert(ecs@.slots =~= swept_one(swept_upto(old(ecs)@, i as nat), i as int).slots);
        }
        proof {
            lemma_swept_upto_rest(old(ecs)@, (i + 1) as nat);
        }
        i = i + 1;
    }
}

} // verus!
