use salvager::components::{
    AreaOfEffect, CombatStats, Confusion, Consumable, Entity, EquipmentSlot, Equippable,
    Equipped, InBackpack, InflictsDamage, Item, MeleePowerBonus, Name, Player, Pool, Position,
    ProvidesEnergy, ProvidesHealing, ProvidesOxygen, RangedWeapon, Robot, WantsToDropItem,
    WantsToPickupItem, WantsToRemoveItem, WantsToUseItem,
};
use salvager::inventory_system::{ItemCollectionSystem, ItemDropSystem, ItemRemoveSystem};
use salvager::item_use::{gather_targets, raise};
use salvager::item_use_system::StimPackUseSystem;
use salvager::map::GameMap;
use salvager::map_indexing_system::MapIndexingSystem;
use salvager::player::use_consumable_hotkey;
use salvager::runstate::RunState;
use salvager::state::State;
use salvager::world::{Slot, World};

fn inventory_being(name: &str, x: i32, y: i32, hp: i32) -> Slot {
    let mut slot = Slot::new();
    slot.name = Some(Name { name: name.to_string() });
    slot.position = Some(Position { x, y });
    slot.combat_stats = Some(CombatStats {
        hp: Pool { max: 30, current: hp, name: "Health".to_string() },
        energy: Pool { max: 30, current: 10, name: "Energy".to_string() },
        oxygen: Pool { max: 100, current: 60, name: "Oxygen".to_string() },
        defense: 2,
        power: 5,
    });
    slot
}

fn inventory_world() -> (World, Entity) {
    let mut map = GameMap::new(20, 20);
    map.dig(1, 18, 1, 18);
    map.populate_blocked();
    let mut ecs = World::new(map);
    let mut hero = inventory_being("Player", 5, 5, 20);
    hero.player = Some(Player {});
    let e = ecs.create_entity(hero);
    ecs.player = e;
    ecs.player_pos = Position { x: 5, y: 5 };
    (ecs, e)
}

fn inventory_item(ecs: &mut World, name: &str, owner: Entity) -> Entity {
    let mut slot = Slot::new();
    slot.item = Some(Item {});
    slot.name = Some(Name { name: name.to_string() });
    slot.in_backpack = Some(InBackpack { owner });
    ecs.create_entity(slot)
}

fn inventory_robot(ecs: &mut World, x: i32, y: i32) -> Entity {
    let mut robot = inventory_being("Robot", x, y, 16);
    robot.robot = Some(Robot {});
    ecs.create_entity(robot)
}

fn inventory_use(ecs: &mut World, user: Entity, item: Entity, target: Option<Position>) {
    let mut index = MapIndexingSystem {};
    index.run(ecs);
    ecs.slots[user.id].wants_to_use_item = Some(WantsToUseItem { item, target });
    let mut system = StimPackUseSystem {};
    system.run(ecs);
}

fn inventory_hp(ecs: &World, e: Entity) -> i32 {
    ecs.slots[e.id].combat_stats.as_ref().unwrap().hp.current
}

#[test]
fn a_pool_is_filled_up_to_its_maximum() {
    assert_eq!(raise(20, 8, 30), 28);
    assert_eq!(raise(25, 8, 30), 30);
    assert_eq!(raise(30, 8, 30), 30);
    assert_eq!(raise(0, 0, 30), 0);
    assert_eq!(raise(i32::MAX, i32::MAX, i32::MAX), i32::MAX);
    assert_eq!(raise(i32::MIN, i32::MIN, 0), i32::MIN);
}

#[test]
fn pickup_puts_the_item_into_the_backpack() {
    let (mut ecs, hero) = inventory_world();
    let robot = inventory_robot(&mut ecs, 9, 9);
    let mut lying = Slot::new();
    lying.item = Some(Item {});
    lying.name = Some(Name { name: "Battery".to_string() });
    lying.position = Some(Position { x: 5, y: 5 });
    let first = ecs.create_entity(lying);
    let mut other = Slot::new();
    other.item = Some(Item {});
    other.name = Some(Name { name: "Grenade".to_string() });
    other.position = Some(Position { x: 9, y: 9 });
    let second = ecs.create_entity(other);
    ecs.slots[hero.id].wants_to_pickup_item = Some(WantsToPickupItem { collected_by: hero, item: first });
    ecs.slots[robot.id].wants_to_pickup_item = Some(WantsToPickupItem { collected_by: robot, item: second });
    let mut system = ItemCollectionSystem {};
    system.run(&mut ecs);
    assert_eq!(ecs.slots[first.id].in_backpack, Some(InBackpack { owner: hero }));
    assert_eq!(ecs.slots[second.id].in_backpack, Some(InBackpack { owner: robot }));
    assert!(ecs.slots[first.id].position.is_none() && ecs.slots[second.id].position.is_none());
    assert_eq!(ecs.log.entries, vec!["You pick up the Battery.".to_string()]);
    assert!(ecs.slots.iter().all(|s| s.wants_to_pickup_item.is_none()));
}

#[test]
fn an_item_that_is_gone_is_not_picked_up() {
    let (mut ecs, hero) = inventory_world();
    let item = inventory_item(&mut ecs, "Battery", hero);
    ecs.delete_entity(item);
    ecs.slots[hero.id].wants_to_pickup_item = Some(WantsToPickupItem { collected_by: hero, item });
    let mut system = ItemCollectionSystem {};
    system.run(&mut ecs);
    assert!(ecs.slots[item.id].in_backpack.is_none());
    assert_eq!(ecs.log.entries, vec!["Something that was meant is no longer there.".to_string()]);
    assert!(ecs.slots[hero.id].wants_to_pickup_item.is_none());
}

#[test]
fn dropping_lays_the_item_where_one_stands() {
    let (mut ecs, hero) = inventory_world();
    let item = inventory_item(&mut ecs, "Battery", hero);
    ecs.slots[hero.id].wants_to_drop_item = Some(WantsToDropItem { item });
    let mut system = ItemDropSystem {};
    system.run(&mut ecs);
    assert_eq!(ecs.slots[item.id].position, Some(Position { x: 5, y: 5 }));
    assert!(ecs.slots[item.id].in_backpack.is_none());
    assert_eq!(ecs.log.entries, vec!["You drop the Battery.".to_string()]);
    assert!(ecs.slots[hero.id].wants_to_drop_item.is_none());
}

#[test]
fn who_stands_nowhere_drops_nothing() {
    let (mut ecs, hero) = inventory_world();
    let item = inventory_item(&mut ecs, "Battery", hero);
    ecs.slots[hero.id].position = None;
    ecs.slots[hero.id].wants_to_drop_item = Some(WantsToDropItem { item });
    let mut system = ItemDropSystem {};
    system.run(&mut ecs);
    assert!(ecs.slots[item.id].position.is_none());
    assert_eq!(ecs.slots[item.id].in_backpack, Some(InBackpack { owner: hero }));
    assert_eq!(ecs.log.entries, vec!["Something that was meant is no longer there.".to_string()]);
}

#[test]
fn taking_off_puts_the_item_into_the_backpack() {
    let (mut ecs, hero) = inventory_world();
    let item = inventory_item(&mut ecs, "Blaster", hero);
    ecs.slots[item.id].in_backpack = None;
    ecs.slots[item.id].equipped = Some(Equipped { owner: hero, slot: EquipmentSlot::Weapon });
    ecs.slots[hero.id].wants_to_remove_item = Some(WantsToRemoveItem { item });
    let mut system = ItemRemoveSystem {};
    system.run(&mut ecs);
    assert!(ecs.slots[item.id].equipped.is_none());
    assert_eq!(ecs.slots[item.id].in_backpack, Some(InBackpack { owner: hero }));
    assert!(ecs.slots[hero.id].wants_to_remove_item.is_none());
    assert!(ecs.log.entries.is_empty());
}

#[test]
fn a_stim_pack_heals_up_to_the_maximum_and_is_used_up() {
    let (mut ecs, hero) = inventory_world();
    let pack = inventory_item(&mut ecs, "Basic Stim Pack", hero);
    ecs.slots[pack.id].consumable = Some(Consumable {});
    ecs.slots[pack.id].provides_healing = Some(ProvidesHealing { heal_amount: 8 });
    inventory_use(&mut ecs, hero, pack, None);
    assert_eq!(inventory_hp(&ecs, hero), 28);
    assert_eq!(ecs.log.entries, vec!["You use the Basic Stim Pack, healing 8 hp.".to_string()]);
    assert!(ecs.slots[hero.id].wants_to_use_item.is_none());
    assert!(ecs.is_alive(pack));
    assert_eq!(ecs.doomed, vec![pack]);
    ecs.maintain();
    assert!(!ecs.is_alive(pack));
    assert!(ecs.doomed.is_empty());

    let second = inventory_item(&mut ecs, "Basic Stim Pack", hero);
    ecs.slots[second.id].consumable = Some(Consumable {});
    ecs.slots[second.id].provides_healing = Some(ProvidesHealing { heal_amount: 8 });
    inventory_use(&mut ecs, hero, second, None);
    assert_eq!(inventory_hp(&ecs, hero), 30);
}

#[test]
fn oxygen_and_energy_are_restored_likewise() {
    let (mut ecs, hero) = inventory_world();
    let tank = inventory_item(&mut ecs, "Oxygen Tank", hero);
    ecs.slots[tank.id].consumable = Some(Consumable {});
    ecs.slots[tank.id].provides_oxygen = Some(ProvidesOxygen { oxygen_amount: 50 });
    let battery = inventory_item(&mut ecs, "Battery", hero);
    ecs.slots[battery.id].consumable = Some(Consumable {});
    ecs.slots[battery.id].provides_energy = Some(ProvidesEnergy { energy_amount: 10 });
    inventory_use(&mut ecs, hero, tank, None);
    inventory_use(&mut ecs, hero, battery, None);
    let stats = ecs.slots[hero.id].combat_stats.as_ref().unwrap();
    assert_eq!((stats.hp.current, stats.energy.current, stats.oxygen.current), (20, 20, 100));
    assert_eq!(
        ecs.log.entries,
        vec![
            "You use the Oxygen Tank, restoring 50 oxygen.".to_string(),
            "You use the Battery, restoring 10 energy.".to_string()
        ]
    );
    assert_eq!(ecs.doomed, vec![tank, battery]);
}

#[test]
fn a_grenade_hurts_everybody_within_its_radius() {
    let (mut ecs, hero) = inventory_world();
    let grenade = inventory_item(&mut ecs, "Grenade", hero);
    ecs.slots[grenade.id].consumable = Some(Consumable {});
    ecs.slots[grenade.id].inflicts_damage = Some(InflictsDamage { damage: 8 });
    ecs.slots[grenade.id].area_of_effect = Some(AreaOfEffect { radius: 3 });
    let centre = inventory_robot(&mut ecs, 10, 10);
    let edge = inventory_robot(&mut ecs, 13, 10);
    let diagonal = inventory_robot(&mut ecs, 12, 12);
    let corner = inventory_robot(&mut ecs, 13, 13);
    let outside = inventory_robot(&mut ecs, 14, 10);
    inventory_use(&mut ecs, hero, grenade, Some(Position { x: 10, y: 10 }));
    let hit = |e: Entity| ecs.slots[e.id].suffer_damage.as_ref().map(|d| d.amount.clone());
    assert_eq!(hit(centre), Some(vec![8]));
    assert_eq!(hit(edge), Some(vec![8]));
    assert_eq!(hit(diagonal), Some(vec![8]));
    assert_eq!(hit(corner), None);
    assert_eq!(hit(outside), None);
    assert_eq!(hit(hero), None);
    assert_eq!(ecs.log.entries.len(), 3);
    assert_eq!(ecs.log.entries[0], "You use Grenade on Robot, inflicting 8 hp.");
    assert_eq!(ecs.doomed, vec![grenade]);
    assert_eq!(inventory_hp(&ecs, centre), 16);
}

#[test]
fn an_item_thrown_at_nobody_is_kept() {
    let (mut ecs, hero) = inventory_world();
    let grenade = inventory_item(&mut ecs, "Grenade", hero);
    ecs.slots[grenade.id].consumable = Some(Consumable {});
    ecs.slots[grenade.id].inflicts_damage = Some(InflictsDamage { damage: 8 });
    inventory_use(&mut ecs, hero, grenade, Some(Position { x: 10, y: 10 }));
    assert!(ecs.doomed.is_empty());
    assert!(ecs.log.entries.is_empty());
    inventory_use(&mut ecs, hero, grenade, Some(Position { x: -10, y: 10 }));
    assert!(ecs.doomed.is_empty());
}

#[test]
fn whom_the_use_of_an_item_reaches() {
    let (mut ecs, hero) = inventory_world();
    let plain = inventory_item(&mut ecs, "Dart", hero);
    let wide = inventory_item(&mut ecs, "Grenade", hero);
    ecs.slots[wide.id].area_of_effect = Some(AreaOfEffect { radius: 1 });
    let a = inventory_robot(&mut ecs, 10, 10);
    let b = inventory_robot(&mut ecs, 10, 10);
    let c = inventory_robot(&mut ecs, 11, 10);
    let d = inventory_robot(&mut ecs, 10, 9);
    inventory_robot(&mut ecs, 11, 11);
    let mut index = MapIndexingSystem {};
    index.run(&mut ecs);
    let at = Some(Position { x: 10, y: 10 });
    assert_eq!(gather_targets(&ecs, hero.id, WantsToUseItem { item: plain, target: None }), vec![hero]);
    assert_eq!(gather_targets(&ecs, hero.id, WantsToUseItem { item: plain, target: at }), vec![a, b]);
    assert_eq!(gather_targets(&ecs, hero.id, WantsToUseItem { item: wide, target: at }), vec![d, a, b, c]);
}

#[test]
fn an_emp_bomb_confuses() {
    let (mut ecs, hero) = inventory_world();
    let bomb = inventory_item(&mut ecs, "EMP Bomb", hero);
    ecs.slots[bomb.id].consumable = Some(Consumable {});
    ecs.slots[bomb.id].confusion = Some(Confusion { turns: 4 });
    let robot = inventory_robot(&mut ecs, 10, 10);
    inventory_use(&mut ecs, hero, bomb, Some(Position { x: 10, y: 10 }));
    assert_eq!(ecs.slots[robot.id].confusion, Some(Confusion { turns: 4 }));
    assert_eq!(ecs.log.entries, vec!["You use EMP Bomb on Robot, confusing them.".to_string()]);
    assert_eq!(ecs.doomed, vec![bomb]);
}

#[test]
fn confusion_wears_off() {
    let (mut ecs, _hero) = inventory_world();
    let robot = inventory_robot(&mut ecs, 6, 5);
    ecs.slots[robot.id].viewshed = Some(salvager::components::Viewshed {
        visible_tiles: Vec::new(),
        range: 8,
        dirty: false,
    });
    ecs.slots[robot.id].confusion = Some(Confusion { turns: 2 });
    ecs.runstate = RunState::MonsterTurn;
    let mut ai = salvager::robot_ai_system::RobotAI {};
    assert_eq!(ai.run(&mut ecs, robot), salvager::robot_ai_system::RobotPlan::Idle);
    assert_eq!(ecs.slots[robot.id].confusion, Some(Confusion { turns: 1 }));
    assert_eq!(ai.run(&mut ecs, robot), salvager::robot_ai_system::RobotPlan::Idle);
    assert_eq!(ecs.slots[robot.id].confusion, None);
    assert!(ecs.slots[robot.id].wants_to_melee.is_none());
    assert_eq!(ai.run(&mut ecs, robot), salvager::robot_ai_system::RobotPlan::Attack);
}

#[test]
fn equipping_swaps_what_was_worn() {
    let (mut ecs, hero) = inventory_world();
    let torch = inventory_item(&mut ecs, "Laser torch", hero);
    ecs.slots[torch.id].equippable = Some(Equippable { slot: EquipmentSlot::Weapon });
    ecs.slots[torch.id].melee_power_bonus = Some(MeleePowerBonus { power: 4 });
    let blaster = inventory_item(&mut ecs, "Blaster", hero);
    ecs.slots[blaster.id].equippable = Some(Equippable { slot: EquipmentSlot::Weapon });
    ecs.slots[blaster.id].ranged_weapon = Some(RangedWeapon { range: 4, damage: 4 });

    inventory_use(&mut ecs, hero, torch, None);
    assert_eq!(ecs.slots[torch.id].equipped, Some(Equipped { owner: hero, slot: EquipmentSlot::Weapon }));
    assert!(ecs.slots[torch.id].in_backpack.is_none());
    assert_eq!(ecs.log.entries, vec!["You equip Laser torch.".to_string()]);

    inventory_use(&mut ecs, hero, blaster, None);
    assert!(ecs.slots[torch.id].equipped.is_none());
    assert_eq!(ecs.slots[torch.id].in_backpack, Some(InBackpack { owner: hero }));
    assert_eq!(ecs.slots[blaster.id].equipped, Some(Equipped { owner: hero, slot: EquipmentSlot::Weapon }));
    assert!(ecs.slots[blaster.id].in_backpack.is_none());
    assert_eq!(
        ecs.log.entries[1..],
        ["You unequip Laser torch.".to_string(), "You equip Blaster.".to_string()]
    );
    assert!(ecs.doomed.is_empty());
    assert!(ecs.is_alive(torch) && ecs.is_alive(blaster));
}

#[test]
fn an_item_that_is_gone_is_not_used() {
    let (mut ecs, hero) = inventory_world();
    let pack = inventory_item(&mut ecs, "Basic Stim Pack", hero);
    ecs.slots[pack.id].provides_healing = Some(ProvidesHealing { heal_amount: 8 });
    ecs.delete_entity(pack);
    inventory_use(&mut ecs, hero, pack, None);
    assert_eq!(inventory_hp(&ecs, hero), 20);
    assert_eq!(ecs.log.entries, vec!["Something that was meant is no longer there.".to_string()]);
}

#[test]
fn what_others_use_is_not_told() {
    let (mut ecs, _hero) = inventory_world();
    let robot = inventory_robot(&mut ecs, 9, 9);
    ecs.slots[robot.id].combat_stats.as_mut().unwrap().hp.current = 3;
    let pack = inventory_item(&mut ecs, "Basic Stim Pack", robot);
    ecs.slots[pack.id].provides_healing = Some(ProvidesHealing { heal_amount: 8 });
    inventory_use(&mut ecs, robot, pack, None);
    assert_eq!(inventory_hp(&ecs, robot), 11);
    assert!(ecs.log.entries.is_empty());
    assert!(ecs.doomed.is_empty());
}

#[test]
fn hotkeys_use_the_carried_consumables_in_order() {
    let (mut ecs, hero) = inventory_world();
    let torch = inventory_item(&mut ecs, "Laser torch", hero);
    let pack = inventory_item(&mut ecs, "Basic Stim Pack", hero);
    ecs.slots[pack.id].consumable = Some(Consumable {});
    let grenade = inventory_item(&mut ecs, "Grenade", hero);
    ecs.slots[grenade.id].consumable = Some(Consumable {});
    ecs.slots[grenade.id].ranged = Some(salvager::components::Ranged { range: 6 });
    let lying = inventory_item(&mut ecs, "Battery", hero);
    ecs.slots[lying.id].consumable = Some(Consumable {});
    ecs.slots[lying.id].in_backpack = None;
    let mut gs = State::new(ecs);
    assert_eq!(use_consumable_hotkey(&mut gs, 1), RunState::ShowTargeting { range: 6, item: grenade });
    assert!(gs.ecs.slots[hero.id].wants_to_use_item.is_none());
    assert_eq!(use_consumable_hotkey(&mut gs, 2), RunState::AwaitingInput);
    assert_eq!(use_consumable_hotkey(&mut gs, -1), RunState::AwaitingInput);
    assert_eq!(use_consumable_hotkey(&mut gs, i32::MAX), RunState::AwaitingInput);
    assert!(gs.ecs.slots[hero.id].wants_to_use_item.is_none());
    assert_eq!(use_consumable_hotkey(&mut gs, 0), RunState::PlayerTurn);
    assert_eq!(
        gs.ecs.slots[hero.id].wants_to_use_item,
        Some(WantsToUseItem { item: pack, target: None })
    );
    assert!(gs.ecs.is_alive(torch));
}
