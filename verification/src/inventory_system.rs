//! Picking items up, dropping them, and taking off what is worn.

use vstd::prelude::*;
use crate::components::{Entity, InBackpack};
use crate::gamelog::{drop_message, drop_text, pick_up_message, pick_up_text, stale_message, stale_text};
use crate::world::{SlotView, Transient, World, WorldView};

verus! {

pub struct ItemCollectionSystem {}

pub struct ItemDropSystem {}

pub struct ItemRemoveSystem {}

/// The world after the intent to pick up in slot `i`, if there is one, is
/// carried out.
///
/// The item leaves the map and goes into the backpack of its collector;
/// where that is the player and the item has a name, the log says so. An
/// item that is gone is not picked up, and the log says that instead.
pub open spec fn collect_one(w: WorldView, i: int) -> WorldView {
    match w.slots[i].wants_to_pickup_item {
        None => w,
        Some(pickup) => if !w.alive(pickup.item) {
            w.logged(stale_text())
        } else {
            let item = w.slot(pickup.item);
            let taken = w.with_slot(
                pickup.item.id as int,
                SlotView {
                    position: None,
                    in_backpack: Some(InBackpack { owner: pickup.collected_by }),
                    ..item
                },
            );
            if pickup.collected_by == w.player && item.name is Some {
                taken.logged(pick_up_text(item.name->0))
            } else {
                taken
            }
        },
    }
}

pub open spec fn collect_upto(w: WorldView, n: nat) -> WorldView
    decreases n,
{
    if n == 0 {
        w
    } else {
        collect_one(collect_upto(w, (n - 1) as nat), n - 1)
    }
}

/// One pass of picking up, after which no intent to pick up is left.
pub open spec fn collection_pass(w: WorldView) -> WorldView {
    collect_upto(w, w.slots.len()).cleared(Transient::WantsToPickupItem)
}

/// Picking up changes neither the number of slots, nor anybody's intents
/// or statistics, nor the map.
pub proof fn lemma_collect_upto_keeps(w: WorldView, n: nat)
    requires
        n <= w.slots.len(),
    ensures
        collect_upto(w, n).slots.len() == w.slots.len(),
        collect_upto(w, n).map == w.map,
        collect_upto(w, n).player == w.player,
        forall|j: int| 0 <= j < w.slots.len() ==> {
            &&& (#[trigger] collect_upto(w, n).slots[j]).wants_to_pickup_item
                == w.slots[j].wants_to_pickup_item
            &&& collect_upto(w, n).slots[j].combat_stats == w.slots[j].combat_stats
        },
    decreases n,
{
    if n > 0 {
        lemma_collect_upto_keeps(w, (n - 1) as nat);
    }
}

impl ItemCollectionSystem {
    fn collect(ecs: &mut World, i: usize)
        requires
            i < old(ecs)@.slots.len(),
        ensures
            final(ecs)@ == collect_one(old(ecs)@, i as int),
    {
        match ecs.slots[i].wants_to_pickup_item {
            None => {},
            Some(pickup) => {
                if !ecs.is_alive(pickup.item) {
                    ecs.log.push(stale_message());
                } else {
                    let message = match &ecs.slots[pickup.item.id].name {
                        Some(name) => if pickup.collected_by == ecs.player {
                            Some(pick_up_message(&name.name))
                        } else {
                            None
                        },
                        None => None,
                    };
                    let item = &mut ecs.slots[pickup.item.id];
                    item.position = None;
                    item.in_backpack = Some(InBackpack { owner: pickup.collected_by });
                    match message {
                        Some(m) => {
                            ecs.log.push(m);
                        },
                        None => {},
                    }
                    assert(ecs@.slots =~= collect_one(old(ecs)@, i as int).slots);
                }
            },
        }
    }

    /// Carries out every intent to pick up, in the order of the slots, and
    /// clears the intents.
    pub fn run(&mut self, ecs: &mut World)
        ensures
            final(ecs)@ == collection_pass(old(ecs)@),
            final(ecs)@.slots.len() == old(ecs)@.slots.len(),
            final(ecs)@.map == old(ecs)@.map,
    {
        let n = ecs.slots.len();
        let mut i: usize = 0;
        while i < n
            invariant
                i <= n,
                n == ecs@.slots.len(),
                n == old(ecs)@.slots.len(),
                ecs@.map == old(ecs)@.map,
                ecs@ == collect_upto(old(ecs)@, i as nat),
            decreases n - i,
        {
            Self::collect(ecs, i);
            proof {
                lemma_collect_upto_keeps(old(ecs)@, (i + 1) as nat);
            }
            i = i + 1;
        }
        ecs.clear(Transient::WantsToPickupItem);
    }
}

/// The world after the intent to drop in slot `i`, if there is one, is
/// carried out.
///
/// The item leaves the backpack and lies where the one who drops it stands;
/// where that is the player and the item has a name, the log says so. Who
/// stands nowhere drops nothing, nor is an item dropped that is gone: the
/// log says that instead.
pub open spec fn drop_one(w: WorldView, i: int) -> WorldView {
    match w.slots[i].wants_to_drop_item {
        None => w,
        Some(intent) => if w.slots[i].position is None || !w.alive(intent.item) {
            w.logged(stale_text())
        } else {
            let item = w.slot(intent.item);
            let dropped = w.with_slot(
                intent.item.id as int,
                SlotView { position: w.slots[i].position, in_backpack: None, ..item },
            );
            if w.player == (Entity { id: i as usize }) && item.name is Some {
                dropped.logged(drop_text(item.name->0))
            } else {
                dropped
            }
        },
    }
}

pub open spec fn drop_upto(w: WorldView, n: nat) -> WorldView
    decreases n,
{
    if n == 0 {
        w
    } else {
        drop_one(drop_upto(w, (n - 1) as nat), n - 1)
    }
}

/// One pass of dropping, after which no intent to drop is left.
pub open spec fn drop_pass(w: WorldView) -> WorldView {
    drop_upto(w, w.slots.len()).cleared(Transient::WantsToDropItem)
}

/// Dropping changes neither the number of slots, nor anybody's statistics,
/// nor the map.
pub proof fn lemma_drop_upto_keeps(w: WorldView, n: nat)
    requires
        n <= w.slots.len(),
    ensures
        drop_upto(w, n).slots.len() == w.slots.len(),
        drop_upto(w, n).map == w.map,
        forall|j: int| 0 <= j < w.slots.len() ==> (#[trigger] drop_upto(w, n).slots[j]).combat_stats
            == w.slots[j].combat_stats,
    decreases n,
{
    if n > 0 {
        lemma_drop_upto_keeps(w, (n - 1) as nat);
    }
}

impl ItemDropSystem {
    fn drop_item(ecs: &mut World, i: usize)
        requires
            i < old(ecs)@.slots.len(),
        ensures
            final(ecs)@ == drop_one(old(ecs)@, i as int),
    {
        match ecs.slots[i].wants_to_drop_item {
            None => {},
            Some(intent) => {
                let at = ecs.slots[i].position;
                if at.is_none() || !ecs.is_alive(intent.item) {
                    ecs.log.push(stale_message());
                } else {
                    let message = match &ecs.slots[intent.item.id].name {
                        Some(name) => if ecs.player.id == i {
                            Some(drop_message(&name.name))
                        } else {
                            None
                        },
                        None => None,
                    };
                    let item = &mut ecs.slots[intent.item.id];
                    item.position = at;
                    item.in_backpack = None;
                    match message {
                        Some(m) => {
                            ecs.log.push(m);
                        },
                        None => {},
                    }
                    assert(ecs@.slots =~= drop_one(old(ecs)@, i as int).slots);
                }
            },
        }
    }

    /// Carries out every intent to drop, in the order of the slots, and
    /// clears the intents.
    pub fn run(&mut self, ecs: &mut World)
        ensures
            final(ecs)@ == drop_pass(old(ecs)@),
            final(ecs)@.slots.len() == old(ecs)@.slots.len(),
            final(ecs)@.map == old(ecs)@.map,
    {
        let n = ecs.slots.len();
        let mut i: usize = 0;
        while i < n
            invariant
                i <= n,
                n == ecs@.slots.len(),
                n == old(ecs)@.slots.len(),
                ecs@.map == old(ecs)@.map,
                ecs@ == drop_upto(old(ecs)@, i as nat),
            decreases n - i,
        {
            Self::drop_item(ecs, i);
            proof {
                lemma_drop_upto_keeps(old(ecs)@, (i + 1) as nat);
            }
            i = i + 1;
        }
        ecs.clear(Transient::WantsToDropItem);
    }
}

/// The world after the intent in slot `i` to take off an item, if there is
/// one, is carried out: the item is no longer worn and lies in the backpack
/// of the one who wore it. An item that is gone is left alone, and the log
/// says so.
pub open spec fn remove_one(w: WorldView, i: int) -> WorldView {
    match w.slots[i].wants_to_remove_item {
        None => w,
        Some(intent) => if !w.alive(intent.item) {
            w.logged(stale_text())
        } else {
            w.with_slot(
                intent.item.id as int,
                SlotView {
                    equipped: None,
                    in_backpack: Some(InBackpack { owner: Entity { id: i as usize } }),
                    ..w.slot(intent.item)
                },
            )
        },
    }
}

pub open spec fn remove_upto(w: WorldView, n: nat) -> WorldView
    decreases n,
{
    if n == 0 {
        w
    } else {
        remove_one(remove_upto(w, (n - 1) as nat), n - 1)
    }
}

/// One pass of taking off, after which no intent to take off is left.
pub open spec fn remove_pass(w: WorldView) -> WorldView {
    remove_upto(w, w.slots.len()).cleared(Transient::WantsToRemoveItem)
}

/// Taking off changes neither the number of slots, nor anybody's
/// statistics, nor the map.
pub proof fn lemma_remove_upto_keeps(w: WorldView, n: nat)
    requires
        n <= w.slots.len(),
    ensures
        remove_upto(w, n).slots.len() == w.slots.len(),
        remove_upto(w, n).map == w.map,
        forall|j: int| 0 <= j < w.slots.len() ==> (#[trigger] remove_upto(w, n).slots[j]).combat_stats
            == w.slots[j].combat_stats,
    decreases n,
{
    if n > 0 {
        lemma_remove_upto_keeps(w, (n - 1) as nat);
    }
}

impl ItemRemoveSystem {
    fn take_off(ecs: &mut World, i: usize)
        requires
            i < old(ecs)@.slots.len(),
        ensures
            final(ecs)@ == remove_one(old(ecs)@, i as int),
    {
        match ecs.slots[i].wants_to_remove_item {
            None => {},
            Some(intent) => {
                if !ecs.is_alive(intent.item) {
                    ecs.log.push(stale_message());
                } else {
                    let item = &mut ecs.slots[intent.item.id];
                    item.equipped = None;
                    item.in_backpack = Some(InBackpack { owner: Entity { id: i } });
                    assert(ecs@.slots =~= remove_one(old(ecs)@, i as int).slots);
                }
            },
        }
    }

    /// Carries out every intent to take off an item, in the order of the
    /// slots, and clears the intents.
    pub fn run(&mut self, ecs: &mut World)
        ensures
            final(ecs)@ == remove_pass(old(ecs)@),
            final(ecs)@.slots.len() == old(ecs)@.slots.len(),
            final(ecs)@.map == old(ecs)@.map,
    {
        let n = ecs.slots.len();
        let mut i: usize = 0;
        while i < n
            invariant
                i <= n,
                n == ecs@.slots.len(),
                n == old(ecs)@.slots.len(),
                ecs@.map == old(ecs)@.map,
                ecs@ == remove_upto(old(ecs)@, i as nat),
            decreases n - i,
        {
            Self::take_off(ecs, i);
            proof {
                lemma_remove_upto_keeps(old(ecs)@, (i + 1) as nat);
            }
            i = i + 1;
        }
        ecs.clear(Transient::WantsToRemoveItem);
    }
}

} // verus!
