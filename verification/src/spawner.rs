//! Populating the world: the player, the robots, the items, and what a room
//! holds when the game starts.

use vstd::prelude::*;
use crate::components::{
    AreaOfEffect, ArtefactFromYendoria, BlocksTile, Colour, CombatStats, CombatStatsView,
    Confusion, Consumable, Entity, EquipmentSlot, Equippable, InflictsDamage, Item,
    MeleePowerBonus, Name, Player, Pool, PoolView, Position, ProvidesEnergy, ProvidesHealing,
    ProvidesOxygen, Ranged, RangedWeapon, Renderable, Robot, SerializeMe, Viewshed,
    ViewshedView,
};
use crate::map::Rect;
use crate::outside::{cp437_of, roll_dice, to_cp437};
use crate::world::{Slot, SlotView, World, WorldView};

verus! {

/// A room holds at most this many robots, less one.
pub const MAX_ROBOTS: i32 = 4;

/// A room holds at most this many items, less one.
pub const MAX_ITEMS: i32 = 2;

/// How often a free spot for one robot or item is looked for before the
/// search is given up.
pub const MAX_TRIES: u32 = 1000;

pub open spec fn spec_black() -> Colour {
    Colour { r: 0, g: 0, b: 0 }
}

#[verifier::when_used_as_spec(spec_black)]
pub fn black() -> (c: Colour)
    ensures
        c == spec_black(),
{
    Colour { r: 0, g: 0, b: 0 }
}

pub open spec fn spec_yellow() -> Colour {
    Colour { r: 255, g: 255, b: 0 }
}

#[verifier::when_used_as_spec(spec_yellow)]
pub fn yellow() -> (c: Colour)
    ensures
        c == spec_yellow(),
{
    Colour { r: 255, g: 255, b: 0 }
}

pub open spec fn spec_blue() -> Colour {
    Colour { r: 0, g: 0, b: 255 }
}

#[verifier::when_used_as_spec(spec_blue)]
pub fn blue() -> (c: Colour)
    ensures
        c == spec_blue(),
{
    Colour { r: 0, g: 0, b: 255 }
}

pub open spec fn spec_magenta() -> Colour {
    Colour { r: 255, g: 0, b: 255 }
}

#[verifier::when_used_as_spec(spec_magenta)]
pub fn magenta() -> (c: Colour)
    ensures
        c == spec_magenta(),
{
    Colour { r: 255, g: 0, b: 255 }
}

pub open spec fn spec_dark_olive() -> Colour {
    Colour { r: 85, g: 107, b: 47 }
}

#[verifier::when_used_as_spec(spec_dark_olive)]
pub fn dark_olive() -> (c: Colour)
    ensures
        c == spec_dark_olive(),
{
    Colour { r: 85, g: 107, b: 47 }
}

pub open spec fn spec_light_yellow() -> Colour {
    Colour { r: 255, g: 255, b: 224 }
}

#[verifier::when_used_as_spec(spec_light_yellow)]
pub fn light_yellow() -> (c: Colour)
    ensures
        c == spec_light_yellow(),
{
    Colour { r: 255, g: 255, b: 224 }
}

pub open spec fn spec_pink() -> Colour {
    Colour { r: 255, g: 192, b: 203 }
}

#[verifier::when_used_as_spec(spec_pink)]
pub fn pink() -> (c: Colour)
    ensures
        c == spec_pink(),
{
    Colour { r: 255, g: 192, b: 203 }
}

pub open spec fn spec_aqua() -> Colour {
    Colour { r: 0, g: 255, b: 255 }
}

#[verifier::when_used_as_spec(spec_aqua)]
pub fn aqua() -> (c: Colour)
    ensures
        c == spec_aqua(),
{
    Colour { r: 0, g: 255, b: 255 }
}

pub open spec fn spec_gold() -> Colour {
    Colour { r: 255, g: 215, b: 0 }
}

#[verifier::when_used_as_spec(spec_gold)]
pub fn gold() -> (c: Colour)
    ensures
        c == spec_gold(),
{
    Colour { r: 255, g: 215, b: 0 }
}

/// A pool filled to its maximum.
pub open spec fn full_pool(max: i32, name: Seq<char>) -> PoolView {
    PoolView { max, current: max, name }
}

fn pool(max: i32, name: &str) -> (p: Pool)
    ensures
        p@ == full_pool(max, name@),
{
    Pool { max, current: max, name: String::from_str(name) }
}

/// What a creature is made of: it stands at `(x, y)`, shows as `glyph` in
/// `fg`, sees eight tiles far and has not looked yet, and has full pools
/// of the given sizes.
pub open spec fn creature_view(
    x: i32,
    y: i32,
    glyph: char,
    fg: Colour,
    render_order: i32,
    name: Seq<char>,
    hp: i32,
    energy: i32,
    oxygen: i32,
    defense: i32,
    power: i32,
) -> SlotView {
    SlotView {
        position: Some(Position { x, y }),
        renderable: Some(Renderable { glyph: cp437_of(glyph), fg, bg: black(), render_order }),
        viewshed: Some(ViewshedView { visible_tiles: Seq::empty(), range: 8, dirty: true }),
        name: Some(name),
        combat_stats: Some(
            CombatStatsView {
                hp: full_pool(hp, "Health"@),
                energy: full_pool(energy, "Energy"@),
                oxygen: full_pool(oxygen, "Oxygen"@),
                defense,
                power,
            },
        ),
        serialize_me: Some(SerializeMe),
        ..SlotView::bare(true)
    }
}

fn creature(
    x: i32,
    y: i32,
    glyph: char,
    fg: Colour,
    render_order: i32,
    name: &str,
    hp: i32,
    energy: i32,
    oxygen: i32,
    defense: i32,
    power: i32,
) -> (slot: Slot)
    ensures
        slot@ == creature_view(x, y, glyph, fg, render_order, name@, hp, energy, oxygen, defense, power),
{
    let mut slot = Slot::new();
    slot.position = Some(Position { x, y });
    slot.renderable = Some(Renderable { glyph: to_cp437(glyph), fg, bg: black(), render_order });
    slot.viewshed = Some(Viewshed { visible_tiles: Vec::new(), range: 8, dirty: true });
    slot.name = Some(Name { name: String::from_str(name) });
    slot.combat_stats = Some(
        CombatStats {
            hp: pool(hp, "Health"),
            energy: pool(energy, "Energy"),
            oxygen: pool(oxygen, "Oxygen"),
            defense,
            power,
        },
    );
    slot.serialize_me = Some(SerializeMe);
    assert(slot@.viewshed->0.visible_tiles =~= Seq::empty());
    slot
}

/// What the player is made of.
pub open spec fn player_view(x: i32, y: i32) -> SlotView {
    SlotView {
        player: Some(Player {}),
        ..creature_view(x, y, '@', yellow(), 0, "Player"@, 30, 30, 100, 2, 5)
    }
}

/// The world with one more entity, made of `slot`.
pub open spec fn spawned(w: WorldView, slot: SlotView) -> WorldView {
    WorldView { slots: w.slots.push(slot), ..w }
}

/// Creates the player at `(player_x, player_y)`.
pub fn player(ecs: &mut World, player_x: i32, player_y: i32) -> (e: Entity)
    ensures
        e.id == old(ecs)@.slots.len(),
        final(ecs)@ == spawned(old(ecs)@, player_view(player_x, player_y)),
{
    let mut slot = creature(player_x, player_y, '@', yellow(), 0, "Player", 30, 30, 100, 2, 5);
    slot.player = Some(Player {});
    ecs.create_entity(slot)
}

/// What a robot is made of: a creature without energy or oxygen that
/// blocks its tile.
pub open spec fn mob_view(x: i32, y: i32, glyph: char, name: Seq<char>) -> SlotView {
    SlotView {
        robot: Some(Robot {}),
        blocks_tile: Some(BlocksTile {}),
        ..creature_view(x, y, glyph, blue(), 1, name, 16, 0, 0, 1, 4)
    }
}

fn mob(ecs: &mut World, x: i32, y: i32, glyph: char, name: &str)
    ensures
        final(ecs)@ == spawned(old(ecs)@, mob_view(x, y, glyph, name@)),
{
    let mut slot = creature(x, y, glyph, blue(), 1, name, 16, 0, 0, 1, 4);
    slot.robot = Some(Robot {});
    slot.blocks_tile = Some(BlocksTile {});
    ecs.create_entity(slot);
}

fn robot(ecs: &mut World, x: i32, y: i32)
    ensures
        final(ecs)@ == spawned(old(ecs)@, mob_view(x, y, 'R', "Robot"@)),
{
    mob(ecs, x, y, 'R', "Robot");
}

fn minin_robot(ecs: &mut World, x: i32, y: i32)
    ensures
        final(ecs)@ == spawned(old(ecs)@, mob_view(x, y, 'm', "Miningrobot"@)),
{
    mob(ecs, x, y, 'm', "Miningrobot");
}

/// The robot that a roll of the die stands for: a plain robot for a one, a
/// mining robot for anything else.
pub open spec fn robot_for(roll: i32, x: i32, y: i32) -> SlotView {
    if roll == 1 {
        mob_view(x, y, 'R', "Robot"@)
    } else {
        mob_view(x, y, 'm', "Miningrobot"@)
    }
}

/// Creates at `(x, y)` the robot that `roll` stands for.
pub fn robot_for_roll(ecs: &mut World, x: i32, y: i32, roll: i32)
    ensures
        final(ecs)@ == spawned(old(ecs)@, robot_for(roll, x, y)),
{
    if roll == 1 {
        robot(ecs, x, y)
    } else {
        minin_robot(ecs, x, y)
    }
}

/// Creates a robot at `(x, y)`, of a kind chosen by a roll of a die with
/// two sides.
pub fn random_robot(ecs: &mut World, x: i32, y: i32, rng: &mut rltk::RandomNumberGenerator)
    ensures
        exists|roll: i32| 1 <= roll <= 2 && final(ecs)@ == spawned(old(ecs)@, #[trigger] robot_for(roll, x, y)),
{
    let roll = roll_dice(rng, 1, 2);
    robot_for_roll(ecs, x, y, roll);
}

/// What every item is made of: it lies at `(x, y)` and shows as `glyph` in
/// `fg`.
pub open spec fn item_view(x: i32, y: i32, glyph: char, fg: Colour, name: Seq<char>) -> SlotView {
    SlotView {
        position: Some(Position { x, y }),
        renderable: Some(Renderable { glyph: cp437_of(glyph), fg, bg: black(), render_order: 2 }),
        name: Some(name),
        item: Some(Item {}),
        serialize_me: Some(SerializeMe),
        ..SlotView::bare(true)
    }
}

fn item(x: i32, y: i32, glyph: char, fg: Colour, name: &str) -> (slot: Slot)
    ensures
        slot@ == item_view(x, y, glyph, fg, name@),
{
    let mut slot = Slot::new();
    slot.position = Some(Position { x, y });
    slot.renderable = Some(Renderable { glyph: to_cp437(glyph), fg, bg: black(), render_order: 2 });
    slot.name = Some(Name { name: String::from_str(name) });
    slot.item = Some(Item {});
    slot.serialize_me = Some(SerializeMe);
    slot
}

/// A stim pack: a consumable that heals eight points.
pub open spec fn stim_pack_view(x: i32, y: i32) -> SlotView {
    SlotView {
        consumable: Some(Consumable {}),
        provides_healing: Some(ProvidesHealing { heal_amount: 8 }),
        ..item_view(x, y, '\u{a1}', magenta(), "Basic Stim Pack"@)
    }
}

pub fn stim_packs(ecs: &mut World, x: i32, y: i32)
    ensures
        final(ecs)@ == spawned(old(ecs)@, stim_pack_view(x, y)),
{
    let mut slot = item(x, y, '\u{a1}', magenta(), "Basic Stim Pack");
    slot.consumable = Some(Consumable {});
    slot.provides_healing = Some(ProvidesHealing { heal_amount: 8 });
    ecs.create_entity(slot);
}

/// A grenade: a consumable thrown up to six tiles far that does eight
/// points of damage within three tiles.
pub open spec fn grenade_view(x: i32, y: i32) -> SlotView {
    SlotView {
        consumable: Some(Consumable {}),
        ranged: Some(Ranged { range: 6 }),
        inflicts_damage: Some(InflictsDamage { damage: 8 }),
        area_of_effect: Some(AreaOfEffect { radius: 3 }),
        ..item_view(x, y, 'g', dark_olive(), "Grenade"@)
    }
}

fn grenades(ecs: &mut World, x: i32, y: i32)
    ensures
        final(ecs)@ == spawned(old(ecs)@, grenade_view(x, y)),
{
    let mut slot = item(x, y, 'g', dark_olive(), "Grenade");
    slot.consumable = Some(Consumable {});
    slot.ranged = Some(Ranged { range: 6 });
    slot.inflicts_damage = Some(InflictsDamage { damage: 8 });
    slot.area_of_effect = Some(AreaOfEffect { radius: 3 });
    ecs.create_entity(slot);
}

/// A laser torch: a weapon that adds four to the power of a blow.
pub open spec fn laser_torch_view(x: i32, y: i32) -> SlotView {
    SlotView {
        melee_power_bonus: Some(MeleePowerBonus { power: 4 }),
        equippable: Some(Equippable { slot: EquipmentSlot::Weapon }),
        ..item_view(x, y, 't', light_yellow(), "Laser torch"@)
    }
}

fn laser_torch(ecs: &mut World, x: i32, y: i32)
    ensures
        final(ecs)@ == spawned(old(ecs)@, laser_torch_view(x, y)),
{
    let mut slot = item(x, y, 't', light_yellow(), "Laser torch");
    slot.melee_power_bonus = Some(MeleePowerBonus { power: 4 });
    slot.equippable = Some(Equippable { slot: EquipmentSlot::Weapon });
    ecs.create_entity(slot);
}

/// A blaster: a weapon that shoots four tiles far for four points of
/// damage.
pub open spec fn blaster_view(x: i32, y: i32) -> SlotView {
    SlotView {
        ranged_weapon: Some(RangedWeapon { range: 4, damage: 4 }),
        equippable: Some(Equippable { slot: EquipmentSlot::Weapon }),
        ..item_view(x, y, 't', light_yellow(), "Blaster"@)
    }
}

pub fn blaster(ecs: &mut World, x: i32, y: i32)
    ensures
        final(ecs)@ == spawned(old(ecs)@, blaster_view(x, y)),
{
    let mut slot = item(x, y, 't', light_yellow(), "Blaster");
    slot.ranged_weapon = Some(RangedWeapon { range: 4, damage: 4 });
    slot.equippable = Some(Equippable { slot: EquipmentSlot::Weapon });
    ecs.create_entity(slot);
}

/// An EMP bomb: a consumable thrown up to six tiles far that confuses for
/// four turns.
pub open spec fn emp_bomb_view(x: i32, y: i32) -> SlotView {
    SlotView {
        consumable: Some(Consumable {}),
        ranged: Some(Ranged { range: 6 }),
        confusion: Some(Confusion { turns: 4 }),
        ..item_view(x, y, ')', pink(), "EMP Bomb"@)
    }
}

fn emp_bombs(ecs: &mut World, x: i32, y: i32)
    ensures
        final(ecs)@ == spawned(old(ecs)@, emp_bomb_view(x, y)),
{
    let mut slot = item(x, y, ')', pink(), "EMP Bomb");
    slot.consumable = Some(Consumable {});
    slot.ranged = Some(Ranged { range: 6 });
    slot.confusion = Some(Confusion { turns: 4 });
    ecs.create_entity(slot);
}

/// A consumable that gives back `amount` of oxygen.
pub open spec fn oxygen_view(x: i32, y: i32, glyph: char, name: Seq<char>, amount: i32) -> SlotView {
    SlotView {
        consumable: Some(Consumable {}),
        provides_oxygen: Some(ProvidesOxygen { oxygen_amount: amount }),
        ..item_view(x, y, glyph, aqua(), name)
    }
}

fn oxygen_canister(ecs: &mut World, x: i32, y: i32)
    ensures
        final(ecs)@ == spawned(old(ecs)@, oxygen_view(x, y, 'o', "Oxygen Canister"@, 10)),
{
    let mut slot = item(x, y, 'o', aqua(), "Oxygen Canister");
    slot.consumable = Some(Consumable {});
    slot.provides_oxygen = Some(ProvidesOxygen { oxygen_amount: 10 });
    ecs.create_entity(slot);
}

pub fn oxygen_tank(ecs: &mut World, x: i32, y: i32)
    ensures
        final(ecs)@ == spawned(old(ecs)@, oxygen_view(x, y, 'O', "Oxygen Tank"@, 50)),
{
    let mut slot = item(x, y, 'O', aqua(), "Oxygen Tank");
    slot.consumable = Some(Consumable {});
    slot.provides_oxygen = Some(ProvidesOxygen { oxygen_amount: 50 });
    ecs.create_entity(slot);
}

/// A battery: a consumable that gives back ten points of energy.
pub open spec fn battery_view(x: i32, y: i32) -> SlotView {
    SlotView {
        consumable: Some(Consumable {}),
        provides_energy: Some(ProvidesEnergy { energy_amount: 10 }),
        ..item_view(x, y, 'b', yellow(), "Battery"@)
    }
}

pub fn battery(ecs: &mut World, x: i32, y: i32)
    ensures
        final(ecs)@ == spawned(old(ecs)@, battery_view(x, y)),
{
    let mut slot = item(x, y, 'b', yellow(), "Battery");
    slot.consumable = Some(Consumable {});
    slot.provides_energy = Some(ProvidesEnergy { energy_amount: 10 });
    ecs.create_entity(slot);
}

/// The artefact: the item whose retrieval wins the game.
pub open spec fn artefact_view(x: i32, y: i32) -> SlotView {
    SlotView {
        artefact_from_yendoria: Some(ArtefactFromYendoria {}),
        ..item_view(x, y, 'Y', gold(), "Artefact from Yendoria"@)
    }
}

pub fn artefact(ecs: &mut World, x: i32, y: i32)
    ensures
        final(ecs)@ == spawned(old(ecs)@, artefact_view(x, y)),
{
    let mut slot = item(x, y, 'Y', gold(), "Artefact from Yendoria");
    slot.artefact_from_yendoria = Some(ArtefactFromYendoria {});
    ecs.create_entity(slot);
}

/// The item that a roll of the die stands for.
pub open spec fn item_for(roll: i32, x: i32, y: i32) -> SlotView {
    if roll == 1 {
        stim_pack_view(x, y)
    } else if roll == 2 {
        laser_torch_view(x, y)
    } else if roll == 3 {
        emp_bomb_view(x, y)
    } else if roll == 4 {
        oxygen_view(x, y, 'o', "Oxygen Canister"@, 10)
    } else if roll == 5 {
        battery_view(x, y)
    } else {
        grenade_view(x, y)
    }
}

/// Creates at `(x, y)` the item that `roll` stands for.
pub fn item_for_roll(ecs: &mut World, x: i32, y: i32, roll: i32)
    ensures
        final(ecs)@ == spawned(old(ecs)@, item_for(roll, x, y)),
{
    if roll == 1 {
        stim_packs(ecs, x, y)
    } else if roll == 2 {
        laser_torch(ecs, x, y)
    } else if roll == 3 {
        emp_bombs(ecs, x, y)
    } else if roll == 4 {
        oxygen_canister(ecs, x, y)
    } else if roll == 5 {
        battery(ecs, x, y)
    } else {
        grenades(ecs, x, y)
    }
}

fn random_item(ecs: &mut World, x: i32, y: i32, rng: &mut rltk::RandomNumberGenerator)
    ensures
        exists|roll: i32| 1 <= roll <= 6 && final(ecs)@ == spawned(old(ecs)@, #[trigger] item_for(roll, x, y)),
{
    let roll = roll_dice(rng, 1, 6);
    item_for_roll(ecs, x, y, roll);
}

/// How far the room reaches from its first corner along x.
pub open spec fn reach_x(room: Rect) -> int {
    if room.x2 >= room.x1 {
        room.x2 - room.x1
    } else {
        room.x1 - room.x2
    }
}

/// How far the room reaches from its first corner along y.
pub open spec fn reach_y(room: Rect) -> int {
    if room.y2 >= room.y1 {
        room.y2 - room.y1
    } else {
        room.y1 - room.y2
    }
}

/// Whether a spot can be drawn in the room: it reaches at least one tile
/// each way, and no spot in it lies beyond what an `i32` holds.
pub open spec fn roomy(room: Rect) -> bool {
    &&& 1 <= reach_x(room) < i32::MAX
    &&& 1 <= reach_y(room) < i32::MAX
    &&& room.x1 + reach_x(room) <= i32::MAX
    &&& room.y1 + reach_y(room) <= i32::MAX
}

/// Whether `p` is a spot that can be drawn in the room.
pub open spec fn in_room(room: Rect, p: Position) -> bool {
    room.x1 < p.x <= room.x1 + reach_x(room) && room.y1 < p.y <= room.y1 + reach_y(room)
}

/// Draws a spot in the room.
fn draw_spot(room: &Rect, rng: &mut rltk::RandomNumberGenerator) -> (p: Position)
    requires
        roomy(*room),
    ensures
        in_room(*room, p),
{
    let wide: i64 = if room.x2 >= room.x1 {
        room.x2 as i64 - room.x1 as i64
    } else {
        room.x1 as i64 - room.x2 as i64
    };
    let high: i64 = if room.y2 >= room.y1 {
        room.y2 as i64 - room.y1 as i64
    } else {
        room.y1 as i64 - room.y2 as i64
    };
    assert(1 * wide == wide) by (nonlinear_arith);
    assert(1 * high == high) by (nonlinear_arith);
    let dx = roll_dice(rng, 1, wide as i32);
    let dy = roll_dice(rng, 1, high as i32);
    Position { x: room.x1 + dx, y: room.y1 + dy }
}

/// No spot is held twice.
pub open spec fn distinct(spots: Seq<Position>) -> bool {
    forall|a: int, b: int| 0 <= a < b < spots.len() ==> spots[a] != spots[b]
}

/// Adds `p` to `spots` unless it is there already, and says whether it was
/// added.
pub fn add_spot(spots: &mut Vec<Position>, p: Position) -> (added: bool)
    ensures
        added == !old(spots)@.contains(p),
        final(spots)@ == (if added {
            old(spots)@.push(p)
        } else {
            old(spots)@
        }),
{
    let mut k: usize = 0;
    while k < spots.len()
        invariant
            k <= spots.len(),
            spots@ == old(spots)@,
            forall|j: int| 0 <= j < k ==> spots@[j] != p,
        decreases spots.len() - k,
    {
        if spots[k] == p {
            return false;
        }
        k = k + 1;
    }
    spots.push(p);
    true
}

/// Draws up to `count` spots in the room, no two the same. A spot that
/// cannot be found within `MAX_TRIES` draws is left out. The first spot is
/// always found, since no spot is taken when it is drawn; whether the
/// others are is up to the dice.
fn draw_spots(room: &Rect, count: i32, rng: &mut rltk::RandomNumberGenerator) -> (spots: Vec<Position>)
    requires
        roomy(*room),
    ensures
        spots@.len() <= (if count > 0 {
            count as int
        } else {
            0
        }),
        count > 0 ==> spots@.len() >= 1,
        distinct(spots@),
        forall|k: int| 0 <= k < spots@.len() ==> in_room(*room, #[trigger] spots@[k]),
{
    let mut spots: Vec<Position> = Vec::new();
    let mut i: i32 = 0;
    while i < count
        invariant
            0 <= i,
            i <= count || i == 0,
            roomy(*room),
            spots@.len() <= i,
            i > 0 ==> spots@.len() >= 1,
            distinct(spots@),
            forall|k: int| 0 <= k < spots@.len() ==> in_room(*room, #[trigger] spots@[k]),
        decreases count - i,
    {
        let mut added = false;
        let mut tries: u32 = 0;
        while !added && tries < MAX_TRIES
            invariant
                tries <= MAX_TRIES,
                roomy(*room),
                spots@.len() <= i + (if added { 1int } else { 0int }),
                i > 0 || tries > 0 ==> spots@.len() >= 1,
                added ==> tries > 0,
                distinct(spots@),
                forall|k: int| 0 <= k < spots@.len() ==> in_room(*room, #[trigger] spots@[k]),
            decreases MAX_TRIES - tries + (if added { 0int } else { 1int }),
        {
            let p = draw_spot(room, rng);
            added = add_spot(&mut spots, p);
            tries = tries + 1;
        }
        i = i + 1;
    }
    spots
}

/// Whether the slot holds a robot as this library creates them, at a spot
/// of the room.
pub open spec fn robot_in(s: SlotView, room: Rect) -> bool {
    exists|roll: i32, p: Position| 1 <= roll <= 2 && in_room(room, p) && s == #[trigger] robot_for(roll, p.x, p.y)
}

/// Whether the slot holds an item as this library scatters them, at a spot
/// of the room.
pub open spec fn item_in(s: SlotView, room: Rect) -> bool {
    exists|roll: i32, p: Position| 1 <= roll <= 6 && in_room(room, p) && s == #[trigger] item_for(roll, p.x, p.y)
}

/// Whether no two of the slots from `from` up to `to` hold entities at the
/// same spot.
pub open spec fn apart(slots: Seq<SlotView>, from: int, to: int) -> bool {
    forall|j: int, k: int| from <= j < k < to ==> (#[trigger] slots[j]).position != (#[trigger] slots[k]).position
}

/// Whether `after` is `before` with `robots` robots and then `items` items
/// created in the room, no two robots and no two items at the same spot,
/// and nothing else changed.
pub open spec fn populated(before: WorldView, after: WorldView, room: Rect, robots: int, items: int) -> bool {
    &&& after == (WorldView { slots: after.slots, ..before })
    &&& after.slots.len() == before.slots.len() + robots + items
    &&& after.slots.take(before.slots.len() as int) == before.slots
    &&& forall|k: int| before.slots.len() <= k < before.slots.len() + robots ==> robot_in(#[trigger] after.slots[k], room)
    &&& forall|k: int| before.slots.len() + robots <= k < after.slots.len() ==> item_in(#[trigger] after.slots[k], room)
    &&& apart(after.slots, before.slots.len() as int, before.slots.len() + robots)
    &&& apart(after.slots, before.slots.len() + robots, after.slots.len() as int)
}

/// Fills a room: up to three robots and up to one item, each at a spot of
/// its own. How many there are, of which kind and where is decided by dice.
pub fn spawn_room(ecs: &mut World, room: &Rect, rng: &mut rltk::RandomNumberGenerator)
    requires
        roomy(*room),
    ensures
        exists|robots: int, items: int| 0 <= robots <= MAX_ROBOTS - 1 && 0 <= items <= MAX_ITEMS - 1
            && #[trigger] populated(old(ecs)@, final(ecs)@, *room, robots, items),
{
    let num_robots = roll_dice(rng, 1, MAX_ROBOTS + 2) - 3;
    let robots_spawn_points = draw_spots(room, num_robots, rng);
    let num_items = roll_dice(rng, 1, MAX_ITEMS + 2) - 3;
    let item_spawn_points = draw_spots(room, num_items, rng);
    let ghost before = ecs@;
    let mut k: usize = 0;
    assert(ecs@.slots.take(before.slots.len() as int) =~= before.slots);
    while k < robots_spawn_points.len()
        invariant
            k <= robots_spawn_points.len(),
            forall|j: int| 0 <= j < robots_spawn_points@.len() ==> in_room(*room, #[trigger] robots_spawn_points@[j]),
            distinct(robots_spawn_points@),
            forall|j: int| 0 <= j < k ==> (#[trigger] ecs@.slots[before.slots.len() + j]).position == Some(
                robots_spawn_points@[j],
            ),
            populated(before, ecs@, *room, k as int, 0),
        decreases robots_spawn_points.len() - k,
    {
        let p = robots_spawn_points[k];
        let ghost prior = ecs@;
        random_robot(ecs, p.x, p.y, rng);
        proof {
            let roll = choose|roll: i32| 1 <= roll <= 2 && ecs@ == spawned(prior, #[trigger] robot_for(roll, p.x, p.y));
            assert(ecs@.slots[prior.slots.len() as int] == robot_for(roll, p.x, p.y));
            assert(robot_in(ecs@.slots[prior.slots.len() as int], *room));
            assert(ecs@.slots.take(before.slots.len() as int) =~= before.slots);
            assert forall|j: int| before.slots.len() <= j < before.slots.len() + k + 1 implies robot_in(#[trigger] ecs@.slots[j], *room) by {
                if j < prior.slots.len() {
                    assert(ecs@.slots[j] == prior.slots[j]);
                }
            }
            assert forall|j: int| 0 <= j < k + 1 implies (#[trigger] ecs@.slots[before.slots.len() + j]).position == Some(
                robots_spawn_points@[j],
            ) by {
                if j < k {
                    assert(ecs@.slots[before.slots.len() + j] == prior.slots[before.slots.len() + j]);
                }
            }
            assert(apart(ecs@.slots, before.slots.len() as int, before.slots.len() + k + 1)) by {
                assert forall|a: int, b: int| before.slots.len() <= a < b < before.slots.len() + k + 1 implies (
                #[trigger] ecs@.slots[a]).position != (#[trigger] ecs@.slots[b]).position by {
                    let ja = a - before.slots.len();
                    let jb = b - before.slots.len();
                    assert(ecs@.slots[before.slots.len() + ja].position == Some(robots_spawn_points@[ja]));
                    assert(ecs@.slots[before.slots.len() + jb].position == Some(robots_spawn_points@[jb]));
                    assert(robots_spawn_points@[ja] != robots_spawn_points@[jb]);
                }
            }
        }
        k = k + 1;
    }
    let ghost robots = robots_spawn_points@.len() as int;
    let mut m: usize = 0;
    while m < item_spawn_points.len()
        invariant
            m <= item_spawn_points.len(),
            robots == robots_spawn_points@.len(),
            forall|j: int| 0 <= j < item_spawn_points@.len() ==> in_room(*room, #[trigger] item_spawn_points@[j]),
            distinct(item_spawn_points@),
            forall|j: int| 0 <= j < m ==> (#[trigger] ecs@.slots[before.slots.len() + robots + j]).position
                == Some(item_spawn_points@[j]),
            populated(before, ecs@, *room, robots, m as int),
        decreases item_spawn_points.len() - m,
    {
        let p = item_spawn_points[m];
        let ghost prior = ecs@;
        random_item(ecs, p.x, p.y, rng);
        proof {
            let roll = choose|roll: i32| 1 <= roll <= 6 && ecs@ == spawned(prior, #[trigger] item_for(roll, p.x, p.y));
            assert(ecs@.slots[prior.slots.len() as int] == item_for(roll, p.x, p.y));
            assert(item_in(ecs@.slots[prior.slots.len() as int], *room));
            assert(ecs@.slots.take(before.slots.len() as int) =~= before.slots);
            assert forall|j: int| before.slots.len() <= j < before.slots.len() + robots implies robot_in(#[trigger] ecs@.slots[j], *room) by {
                assert(ecs@.slots[j] == prior.slots[j]);
            }
            assert forall|j: int| before.slots.len() + robots <= j < ecs@.slots.len() implies item_in(#[trigger] ecs@.slots[j], *room) by {
                if j < prior.slots.len() {
                    assert(ecs@.slots[j] == prior.slots[j]);
                }
            }
            assert forall|j: int| 0 <= j < m + 1 implies (#[trigger] ecs@.slots[before.slots.len() + robots + j]).position
                == Some(item_spawn_points@[j]) by {
                if j < m {
                    assert(ecs@.slots[before.slots.len() + robots + j] == prior.slots[before.slots.len() + robots + j]);
                }
            }
            assert(apart(ecs@.slots, before.slots.len() as int, before.slots.len() + robots)) by {
                assert forall|a: int, b: int| before.slots.len() <= a < b < before.slots.len() + robots implies (
                #[trigger] ecs@.slots[a]).position != (#[trigger] ecs@.slots[b]).position by {
                    assert(ecs@.slots[a] == prior.slots[a]);
                    assert(ecs@.slots[b] == prior.slots[b]);
                }
            }
            assert(apart(ecs@.slots, before.slots.len() + robots, ecs@.slots.len() as int)) by {
                assert forall|a: int, b: int| before.slots.len() + robots <= a < b < ecs@.slots.len() implies (
                #[trigger] ecs@.slots[a]).position != (#[trigger] ecs@.slots[b]).position by {
                    let ja = a - before.slots.len() - robots;
                    let jb = b - before.slots.len() - robots;
                    assert(ecs@.slots[before.slots.len() + robots + ja].position == Some(item_spawn_points@[ja]));
                    assert(ecs@.slots[before.slots.len() + robots + jb].position == Some(item_spawn_points@[jb]));
                    assert(item_spawn_points@[ja] != item_spawn_points@[jb]);
                }
            }
        }
        m = m + 1;
    }
    assert(populated(old(ecs)@, ecs@, *room, robots, item_spawn_points@.len() as int));
}

} // verus!
