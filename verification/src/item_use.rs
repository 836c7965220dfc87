//! What using an item does: whom it reaches, and each of its effects.

use vstd::prelude::*;
use crate::components::{
    saturate, saturating, CombatStatsView, Confusion, Entity, EquipmentSlot, Equipped,
    InBackpack, PoolView, Position, SufferDamage, WantsToUseItem,
};
use crate::gamelog::{
    confuse_message, confuse_text, equip_message, equip_text, inflict_message, inflict_text,
    number, number_text, unequip_message, unequip_text,
};
use crate::map::{GameMap, GameMapView};
use crate::robot_ai_system::{distance_squared, squared_distance};
use crate::world::{SlotView, World, WorldView};

verus! {

/// The pools that an item can fill up.
#[derive(Clone, Copy, PartialEq, Eq, Structural, Debug)]
pub enum Restores {
    Health,
    Oxygen,
    Energy,
}

/// What a pool holds after `amount` is added: never more than its maximum,
/// and never less than an `i32` holds.
pub open spec fn raised(current: i32, amount: i32, max: i32) -> i32 {
    if current + amount > max {
        max
    } else {
        saturate(current + amount) as i32
    }
}

pub fn raise(current: i32, amount: i32, max: i32) -> (level: i32)
    ensures
        level == raised(current, amount, max),
{
    let sum: i128 = current as i128 + amount as i128;
    if sum > max as i128 {
        max
    } else {
        saturating(sum)
    }
}

/// The statistics after the pool `what` is given `amount`.
pub open spec fn restored(stats: CombatStatsView, what: Restores, amount: i32) -> CombatStatsView {
    match what {
        Restores::Health => CombatStatsView {
            hp: PoolView { current: raised(stats.hp.current, amount, stats.hp.max), ..stats.hp },
            ..stats
        },
        Restores::Oxygen => CombatStatsView {
            oxygen: PoolView {
                current: raised(stats.oxygen.current, amount, stats.oxygen.max),
                ..stats.oxygen
            },
            ..stats
        },
        Restores::Energy => CombatStatsView {
            energy: PoolView {
                current: raised(stats.energy.current, amount, stats.energy.max),
                ..stats.energy
            },
            ..stats
        },
    }
}

/// What the log says when the player fills up the pool `what` by `amount`
/// with the item called `item`.
pub open spec fn restore_text(item: Seq<char>, what: Restores, amount: int) -> Seq<char> {
    match what {
        Restores::Health => "You use the "@ + item + ", healing "@ + number_text(amount) + " hp."@,
        Restores::Oxygen => "You use the "@ + item + ", restoring "@ + number_text(amount)
            + " oxygen."@,
        Restores::Energy => "You use the "@ + item + ", restoring "@ + number_text(amount)
            + " energy."@,
    }
}

pub fn restore_message(item: &String, what: Restores, amount: i32) -> (s: String)
    ensures
        s@ == restore_text(item@, what, amount as int),
{
    let mut s = String::from_str("You use the ");
    s.append(item.as_str());
    let digits = number(amount);
    match what {
        Restores::Health => {
            s.append(", healing ");
            s.append(digits.as_str());
            s.append(" hp.");
        },
        Restores::Oxygen => {
            s.append(", restoring ");
            s.append(digits.as_str());
            s.append(" oxygen.");
        },
        Restores::Energy => {
            s.append(", restoring ");
            s.append(digits.as_str());
            s.append(" energy.");
        },
    }
    s
}

/// The text of a message that may be absent.
pub open spec fn text_of(message: Option<String>) -> Option<Seq<char>> {
    match message {
        Some(m) => Some(m@),
        None => None,
    }
}

/// Whether the tile with index `tile` lies within `radius` of `centre`, by
/// the straight-line distance between the two.
pub open spec fn in_blast(m: GameMapView, centre: Position, radius: i32, tile: int) -> bool {
    radius >= 0 && distance_squared(
        centre,
        Position { x: (tile % (m.width as int)) as i32, y: (tile / (m.width as int)) as i32 },
    ) <= radius * radius
}

/// Those who stand on the first `n` tiles of the map within `radius` of
/// `centre`, tile by tile.
pub open spec fn blast_upto(m: GameMapView, centre: Position, radius: i32, n: nat) -> Seq<Entity>
    decreases n,
{
    if n == 0 {
        Seq::empty()
    } else if in_blast(m, centre, radius, n - 1) {
        blast_upto(m, centre, radius, (n - 1) as nat) + m.tile_content[n - 1]
    } else {
        blast_upto(m, centre, radius, (n - 1) as nat)
    }
}

/// The blast reaches exactly those who stand on a tile within the radius:
/// whoever the map lists on such a tile is among those reached, and nobody
/// else is.
pub proof fn lemma_blast_reaches(m: GameMapView, centre: Position, radius: i32, n: nat, e: Entity)
    requires
        n <= m.tile_content.len(),
    ensures
        blast_upto(m, centre, radius, n).contains(e) <==> exists|tile: int|
            0 <= tile < n && in_blast(m, centre, radius, tile) && (#[trigger] m.tile_content[tile]).contains(e),
    decreases n,
{
    if n > 0 {
        lemma_blast_reaches(m, centre, radius, (n - 1) as nat, e);
        let before = blast_upto(m, centre, radius, (n - 1) as nat);
        let here = m.tile_content[n - 1];
        if in_blast(m, centre, radius, n - 1) {
            let all = before + here;
            if all.contains(e) {
                let k = choose|k: int| 0 <= k < all.len() && all[k] == e;
                if k < before.len() {
                    assert(before[k] == e);
                    assert(before.contains(e));
                } else {
                    assert(here[k - before.len()] == e);
                    assert(here.contains(e));
                }
            }
            if before.contains(e) {
                let k = choose|k: int| 0 <= k < before.len() && before[k] == e;
                assert(all[k] == e);
            }
            if here.contains(e) {
                let k = choose|k: int| 0 <= k < here.len() && here[k] == e;
                assert(all[before.len() + k] == e);
            }
        }
        if exists|tile: int| 0 <= tile < n && in_blast(m, centre, radius, tile) && (#[trigger] m.tile_content[tile]).contains(e) {
            let tile = choose|tile: int| 0 <= tile < n && in_blast(m, centre, radius, tile) && (#[trigger] m.tile_content[tile]).contains(e);
            if tile < n - 1 {
                assert(before.contains(e));
            }
        }
    }
}

/// Whom the use of an item by the entity in slot `user` reaches.
///
/// Without a target point that is the user. With one, it is whoever the
/// map lists on the targeted tile, or, for an item with an area of effect,
/// on any tile within its radius of the target point.
pub open spec fn targets_of(w: WorldView, user: int, intent: WantsToUseItem) -> Seq<Entity> {
    match intent.target {
        None => seq![Entity { id: user as usize }],
        Some(point) => match w.slot(intent.item).area_of_effect {
            None => if w.map.in_bounds(point.x as int, point.y as int) {
                w.map.tile_content[w.map.xy_idx(point.x as int, point.y as int)]
            } else {
                Seq::empty()
            },
            Some(area) => blast_upto(w.map, point, area.radius, w.map.area() as nat),
        },
    }
}

/// Whether one of `targets` has statistics.
pub open spec fn reaches(w: WorldView, targets: Seq<Entity>, n: nat) -> bool {
    exists|k: int| 0 <= k < n && w.slot(#[trigger] targets[k]).combat_stats is Some
}

/// The world after the first `n` of `targets` have had the pool `what`
/// filled up by `amount`. Those without statistics are passed over. For
/// each of the others `told`, if there is such a message, goes into the
/// log.
pub open spec fn restore_upto(
    w: WorldView,
    targets: Seq<Entity>,
    what: Restores,
    amount: i32,
    told: Option<Seq<char>>,
    n: nat,
) -> WorldView
    decreases n,
{
    if n == 0 {
        w
    } else {
        let v = restore_upto(w, targets, what, amount, told, (n - 1) as nat);
        let target = targets[n - 1];
        let s = v.slot(target);
        if s.combat_stats is Some {
            let filled = v.with_slot(
                target.id as int,
                SlotView { combat_stats: Some(restored(s.combat_stats->0, what, amount)), ..s },
            );
            if told is Some {
                filled.logged(told->0)
            } else {
                filled
            }
        } else {
            v
        }
    }
}

/// The world after the first `n` of `targets` have had `damage` put down
/// for them. Where `item` is given, the log tells of each target that has
/// a name.
pub open spec fn hurt_upto(
    w: WorldView,
    targets: Seq<Entity>,
    damage: i32,
    item: Option<Seq<char>>,
    n: nat,
) -> WorldView
    decreases n,
{
    if n == 0 {
        w
    } else {
        let v = hurt_upto(w, targets, damage, item, (n - 1) as nat);
        let target = targets[n - 1];
        let hit = v.hurt(target, damage);
        if item is Some && v.slot(target).name is Some {
            hit.logged(inflict_text(item->0, v.slot(target).name->0, damage as int))
        } else {
            hit
        }
    }
}

/// The world after those of the first `n` of `targets` that are alive have
/// been confused for `turns` turns. Where `item` is given, the log tells of
/// each of them that has a name.
pub open spec fn confuse_upto(
    w: WorldView,
    targets: Seq<Entity>,
    turns: i32,
    item: Option<Seq<char>>,
    n: nat,
) -> WorldView
    decreases n,
{
    if n == 0 {
        w
    } else {
        let v = confuse_upto(w, targets, turns, item, (n - 1) as nat);
        let target = targets[n - 1];
        if v.alive(target) {
            let dazed = v.with_slot(
                target.id as int,
                SlotView { confusion: Some(Confusion { turns }), ..v.slot(target) },
            );
            if item is Some && v.slot(target).name is Some {
                dazed.logged(confuse_text(item->0, v.slot(target).name->0))
            } else {
                dazed
            }
        } else {
            v
        }
    }
}

/// Whether the entity in the slot is worn by `wearer` in `slot`.
pub open spec fn worn_by(s: SlotView, wearer: Entity, slot: EquipmentSlot) -> bool {
    s.equipped is Some && s.equipped->0.owner == wearer && s.equipped->0.slot == slot
}

/// The world after `wearer` has taken off whatever among the first `n`
/// slots it wore in `slot`: each such item goes into its backpack, and
/// where `told` holds, the log tells of each that has a name.
pub open spec fn unequip_upto(
    w: WorldView,
    wearer: Entity,
    slot: EquipmentSlot,
    told: bool,
    n: nat,
) -> WorldView
    decreases n,
{
    if n == 0 {
        w
    } else {
        let v = unequip_upto(w, wearer, slot, told, (n - 1) as nat);
        let s = v.slots[n - 1];
        if worn_by(s, wearer, slot) {
            let off = v.with_slot(
                n - 1,
                SlotView { equipped: None, in_backpack: Some(InBackpack { owner: wearer }), ..s },
            );
            if told && s.name is Some {
                off.logged(unequip_text(s.name->0))
            } else {
                off
            }
        } else {
            v
        }
    }
}

/// The world after `wearer` has put on `item` in `slot`, having taken off
/// whatever it wore there before. Where `told` holds, the log tells of it.
pub open spec fn equipped_by(
    w: WorldView,
    item: Entity,
    wearer: Entity,
    slot: EquipmentSlot,
    told: bool,
) -> WorldView {
    let v = unequip_upto(w, wearer, slot, told, w.slots.len());
    let s = v.slot(item);
    let on = v.with_slot(
        item.id as int,
        SlotView { equipped: Some(Equipped { owner: wearer, slot }), in_backpack: None, ..s },
    );
    if told && s.name is Some {
        on.logged(equip_text(s.name->0))
    } else {
        on
    }
}

/// Taking off changes no slot count and nobody's life.
pub proof fn lemma_unequip_upto_keeps(w: WorldView, wearer: Entity, slot: EquipmentSlot, told: bool, n: nat)
    requires
        n <= w.slots.len(),
    ensures
        unequip_upto(w, wearer, slot, told, n).slots.len() == w.slots.len(),
        unequip_upto(w, wearer, slot, told, n).map == w.map,
        unequip_upto(w, wearer, slot, told, n).doomed == w.doomed,
        forall|j: int| n <= j < w.slots.len() ==> unequip_upto(w, wearer, slot, told, n).slots[j]
            == w.slots[j],
        forall|j: int| 0 <= j < w.slots.len() ==> (#[trigger] unequip_upto(w, wearer, slot, told, n).slots[j]).alive
            == w.slots[j].alive,
    decreases n,
{
    if n > 0 {
        lemma_unequip_upto_keeps(w, wearer, slot, told, (n - 1) as nat);
    }
}

/// Filling up pools changes neither the number of slots nor the map.
pub proof fn lemma_restore_upto_keeps(w: WorldView, targets: Seq<Entity>, what: Restores, amount: i32, told: Option<Seq<char>>, n: nat)
    ensures
        restore_upto(w, targets, what, amount, told, n).slots.len() == w.slots.len(),
        restore_upto(w, targets, what, amount, told, n).map == w.map,
    decreases n,
{
    if n > 0 {
        lemma_restore_upto_keeps(w, targets, what, amount, told, (n - 1) as nat);
    }
}

/// Putting damage down changes neither the number of slots nor the map.
pub proof fn lemma_hurt_upto_keeps(w: WorldView, targets: Seq<Entity>, damage: i32, item: Option<Seq<char>>, n: nat)
    ensures
        hurt_upto(w, targets, damage, item, n).slots.len() == w.slots.len(),
        hurt_upto(w, targets, damage, item, n).map == w.map,
    decreases n,
{
    if n > 0 {
        lemma_hurt_upto_keeps(w, targets, damage, item, (n - 1) as nat);
    }
}

/// Confusing changes neither the number of slots nor the map.
pub proof fn lemma_confuse_upto_keeps(w: WorldView, targets: Seq<Entity>, turns: i32, item: Option<Seq<char>>, n: nat)
    ensures
        confuse_upto(w, targets, turns, item, n).slots.len() == w.slots.len(),
        confuse_upto(w, targets, turns, item, n).map == w.map,
    decreases n,
{
    if n > 0 {
        lemma_confuse_upto_keeps(w, targets, turns, item, (n - 1) as nat);
    }
}

/// Appends the entities in `more` to `list`.
fn append_all(list: &mut Vec<Entity>, more: &Vec<Entity>)
    ensures
        final(list)@ == old(list)@ + more@,
{
    let mut k: usize = 0;
    assert(more@.take(0) =~= Seq::<Entity>::empty());
    assert(list@ =~= old(list)@ + more@.take(0));
    while k < more.len()
        invariant
            k <= more.len(),
            list@ == old(list)@ + more@.take(k as int),
        decreases more.len() - k,
    {
        list.push(more[k]);
        assert(list@ =~= old(list)@ + more@.take(k + 1));
        k = k + 1;
    }
    assert(more@.take(k as int) =~= more@);
}

/// Those who stand within `radius` of `centre`.
fn blast(map: &GameMap, centre: Position, radius: i32) -> (hit: Vec<Entity>)
    requires
        map.wf(),
    ensures
        hit@ == blast_upto(map@, centre, radius, map@.area() as nat),
{
    let mut hit: Vec<Entity> = Vec::new();
    let area = map.tile_content.len();
    let mut t: usize = 0;
    while t < area
        invariant
            t <= area,
            area == map@.area(),
            map.wf(),
            hit@ == blast_upto(map@, centre, radius, t as nat),
        decreases area - t,
    {
        let (x, y) = map.idx_xy(t);
        let far = squared_distance(centre, Position { x, y });
        let reach: i128 = radius as i128;
        assert(0 <= reach * reach <= 0x4000_0000_0000_0000) by (nonlinear_arith)
            requires -0x8000_0000 <= reach <= 0x7fff_ffff;
        assert(reach * reach == radius * radius);
        if radius >= 0 && far <= reach * reach {
            assert(map@.tile_content[t as int] == map.tile_content@[t as int]@);
            append_all(&mut hit, &map.tile_content[t]);
        }
        t = t + 1;
    }
    hit
}

/// Whom the use of an item by the entity in slot `user` reaches.
pub fn gather_targets(ecs: &World, user: usize, intent: WantsToUseItem) -> (targets: Vec<Entity>)
    requires
        ecs.wf(),
    ensures
        targets@ == targets_of(ecs@, user as int, intent),
{
    match intent.target {
        None => {
            let mut targets: Vec<Entity> = Vec::new();
            targets.push(Entity { id: user });
            assert(targets@ =~= seq![Entity { id: user }]);
            targets
        },
        Some(point) => {
            let area = if intent.item.id < ecs.slots.len() {
                ecs.slots[intent.item.id].area_of_effect
            } else {
                None
            };
            match area {
                None => {
                    let mut targets: Vec<Entity> = Vec::new();
                    match ecs.map.index_of(point.x, point.y) {
                        Some(idx) => {
                            assert(ecs@.map.tile_content[idx as int] == ecs.map.tile_content@[idx as int]@);
                            append_all(&mut targets, &ecs.map.tile_content[idx]);
                            assert(targets@ =~= ecs.map.tile_content@[idx as int]@);
                        },
                        None => {},
                    }
                    targets
                },
                Some(a) => blast(&ecs.map, point, a.radius),
            }
        },
    }
}

/// Whether one of `targets` has statistics.
pub fn any_reached(ecs: &World, targets: &Vec<Entity>) -> (found: bool)
    ensures
        found == reaches(ecs@, targets@, targets@.len()),
{
    let mut k: usize = 0;
    while k < targets.len()
        invariant
            k <= targets.len(),
            !reaches(ecs@, targets@, k as nat),
        decreases targets.len() - k,
    {
        let target = targets[k];
        if target.id < ecs.slots.len() && ecs.slots[target.id].combat_stats.is_some() {
            return true;
        }
        k = k + 1;
    }
    false
}

/// Fills up the pool `what` of each of `targets` by `amount`.
pub fn restore_all(
    ecs: &mut World,
    targets: &Vec<Entity>,
    what: Restores,
    amount: i32,
    told: &Option<String>,
)
    ensures
        final(ecs)@ == restore_upto(old(ecs)@, targets@, what, amount, text_of(*told), targets@.len()),
{
    let mut k: usize = 0;
    while k < targets.len()
        invariant
            k <= targets.len(),
            ecs@ == restore_upto(old(ecs)@, targets@, what, amount, text_of(*told), k as nat),
        decreases targets.len() - k,
    {
        let target = targets[k];
        let ghost v = ecs@;
        if target.id < ecs.slots.len() {
            let filled = match &mut ecs.slots[target.id].combat_stats {
                Some(stats) => {
                    match what {
                        Restores::Health => {
                            stats.hp.current = raise(stats.hp.current, amount, stats.hp.max);
                        },
                        Restores::Oxygen => {
                            stats.oxygen.current = raise(stats.oxygen.current, amount, stats.oxygen.max);
                        },
                        Restores::Energy => {
                            stats.energy.current = raise(stats.energy.current, amount, stats.energy.max);
                        },
                    }
                    true
                },
                None => false,
            };
            if filled {
                assert(ecs@.slots =~= v.with_slot(
                    target.id as int,
                    SlotView {
                        combat_stats: Some(restored(v.slot(target).combat_stats->0, what, amount)),
                        ..v.slot(target)
                    },
                ).slots);
                match told {
                    Some(message) => {
                        ecs.log.push(message.clone());
                    },
                    None => {},
                }
            } else {
                assert(ecs@.slots =~= v.slots);
            }
        }
        k = k + 1;
    }
}

/// Puts `damage` down for each of `targets`.
pub fn hurt_all(ecs: &mut World, targets: &Vec<Entity>, damage: i32, item: &Option<String>)
    ensures
        final(ecs)@ == hurt_upto(old(ecs)@, targets@, damage, text_of(*item), targets@.len()),
{
    let mut k: usize = 0;
    while k < targets.len()
        invariant
            k <= targets.len(),
            ecs@ == hurt_upto(old(ecs)@, targets@, damage, text_of(*item), k as nat),
        decreases targets.len() - k,
    {
        let target = targets[k];
        let message = if target.id < ecs.slots.len() {
            match (item, &ecs.slots[target.id].name) {
                (Some(item_name), Some(name)) => Some(inflict_message(item_name, &name.name, damage)),
                _ => None,
            }
        } else {
            None
        };
        SufferDamage::new_damage(ecs, target, damage);
        match message {
            Some(m) => {
                ecs.log.push(m);
            },
            None => {},
        }
        k = k + 1;
    }
}

/// Confuses each of `targets` that is alive for `turns` turns.
pub fn confuse_all(ecs: &mut World, targets: &Vec<Entity>, turns: i32, item: &Option<String>)
    ensures
        final(ecs)@ == confuse_upto(old(ecs)@, targets@, turns, text_of(*item), targets@.len()),
{
    let mut k: usize = 0;
    while k < targets.len()
        invariant
            k <= targets.len(),
            ecs@ == confuse_upto(old(ecs)@, targets@, turns, text_of(*item), k as nat),
        decreases targets.len() - k,
    {
        let target = targets[k];
        let ghost v = ecs@;
        if ecs.is_alive(target) {
            let message = match (item, &ecs.slots[target.id].name) {
                (Some(item_name), Some(name)) => Some(confuse_message(item_name, &name.name)),
                _ => None,
            };
            ecs.slots[target.id].confusion = Some(Confusion { turns });
            assert(ecs@.slots =~= v.with_slot(
                target.id as int,
                SlotView { confusion: Some(Confusion { turns }), ..v.slot(target) },
            ).slots);
            match message {
                Some(m) => {
                    ecs.log.push(m);
                },
                None => {},
            }
        }
        k = k + 1;
    }
}

/// Lets `wearer` put on `item` in `slot`, after taking off what it wore
/// there.
pub fn equip(ecs: &mut World, item: Entity, wearer: Entity, slot: EquipmentSlot, told: bool)
    requires
        old(ecs)@.alive(item),
    ensures
        final(ecs)@ == equipped_by(old(ecs)@, item, wearer, slot, told),
{
    let n = ecs.slots.len();
    let mut j: usize = 0;
    while j < n
        invariant
            j <= n,
            n == ecs@.slots.len(),
            n == old(ecs)@.slots.len(),
            ecs@ == unequip_upto(old(ecs)@, wearer, slot, told, j as nat),
        decreases n - j,
    {
        let ghost v = ecs@;
        let worn = match ecs.slots[j].equipped {
            Some(e) => e.owner == wearer && e.slot == slot,
            None => false,
        };
        if worn {
            let message = match &ecs.slots[j].name {
                Some(name) => if told {
                    Some(unequip_message(&name.name))
                } else {
                    None
                },
                None => None,
            };
            let s = &mut ecs.slots[j];
            s.equipped = None;
            s.in_backpack = Some(InBackpack { owner: wearer });
            assert(ecs@.slots =~= v.with_slot(
                j as int,
                SlotView {
                    equipped: None,
                    in_backpack: Some(InBackpack { owner: wearer }),
                    ..v.slots[j as int]
                },
            ).slots);
            match message {
                Some(m) => {
                    ecs.log.push(m);
                },
                None => {},
            }
        }
        proof {
            lemma_unequip_upto_keeps(old(ecs)@, wearer, slot, told, (j + 1) as nat);
        }
        j = j + 1;
    }
    proof {
        lemma_unequip_upto_keeps(old(ecs)@, wearer, slot, told, n as nat);
    }
    let ghost v = ecs@;
    let message = match &ecs.slots[item.id].name {
        Some(name) => if told {
            Some(equip_message(&name.name))
        } else {
            None
        },
        None => None,
    };
    let s = &mut ecs.slots[item.id];
    s.equipped = Some(Equipped { owner: wearer, slot });
    s.in_backpack = None;
    assert(ecs@.slots =~= v.with_slot(
        item.id as int,
        SlotView {
            equipped: Some(Equipped { owner: wearer, slot }),
            in_backpack: None,
            ..v.slot(item)
        },
    ).slots);
    match message {
        Some(m) => {
            ecs.log.push(m);
        },
        None => {},
    }
}

} // verus!
