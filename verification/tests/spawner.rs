use rltk::RandomNumberGenerator;
use salvager::components::{
    AreaOfEffect, Colour, Confusion, Entity, EquipmentSlot, Equippable, InBackpack,
    InflictsDamage, MeleePowerBonus, Position, ProvidesEnergy, ProvidesHealing, ProvidesOxygen,
    Ranged, RangedWeapon, Renderable,
};
use salvager::map::{GameMap, Rect, TileType, MAP_HEIGHT, MAP_WIDTH};
use salvager::spawner::{
    add_spot, artefact, battery, blaster, item_for_roll, oxygen_tank, player, random_robot,
    robot_for_roll, spawn_room, stim_packs,
};
use salvager::state::State;
use salvager::world::{Slot, World};

fn spawner_world() -> World {
    World::new(GameMap::new(80, 43))
}

fn spawner_last(ecs: &World) -> &Slot {
    ecs.slots.last().unwrap()
}

fn spawner_name(slot: &Slot) -> &str {
    slot.name.as_ref().unwrap().name.as_str()
}

#[test]
fn the_player_is_made_as_described() {
    let mut ecs = spawner_world();
    ecs.create_entity(Slot::new());
    let e = player(&mut ecs, 40, 25);
    assert_eq!(e, Entity { id: 1 });
    let s = &ecs.slots[1];
    assert_eq!(s.position, Some(Position { x: 40, y: 25 }));
    assert_eq!(
        s.renderable,
        Some(Renderable {
            glyph: 64,
            fg: Colour { r: 255, g: 255, b: 0 },
            bg: Colour { r: 0, g: 0, b: 0 },
            render_order: 0
        })
    );
    assert!(s.player.is_some() && s.robot.is_none() && s.blocks_tile.is_none());
    assert!(s.serialize_me.is_some());
    let view = s.viewshed.as_ref().unwrap();
    assert!(view.visible_tiles.is_empty() && view.dirty);
    assert_eq!(view.range, 8);
    assert_eq!(spawner_name(s), "Player");
    let stats = s.combat_stats.as_ref().unwrap();
    assert_eq!((stats.hp.current, stats.hp.max, stats.hp.name.as_str()), (30, 30, "Health"));
    assert_eq!((stats.energy.current, stats.energy.max, stats.energy.name.as_str()), (30, 30, "Energy"));
    assert_eq!((stats.oxygen.current, stats.oxygen.max, stats.oxygen.name.as_str()), (100, 100, "Oxygen"));
    assert_eq!((stats.defense, stats.power), (2, 5));
}

#[test]
fn robots_are_made_as_described() {
    let mut ecs = spawner_world();
    robot_for_roll(&mut ecs, 3, 4, 1);
    robot_for_roll(&mut ecs, 5, 6, 2);
    let plain = &ecs.slots[0];
    let mining = &ecs.slots[1];
    assert_eq!((spawner_name(plain), plain.renderable.unwrap().glyph), ("Robot", 82));
    assert_eq!((spawner_name(mining), mining.renderable.unwrap().glyph), ("Miningrobot", 109));
    for s in [plain, mining] {
        assert!(s.robot.is_some() && s.blocks_tile.is_some() && s.player.is_none());
        assert_eq!(s.renderable.unwrap().fg, Colour { r: 0, g: 0, b: 255 });
        assert_eq!(s.renderable.unwrap().render_order, 1);
        let stats = s.combat_stats.as_ref().unwrap();
        assert_eq!((stats.hp.current, stats.hp.max), (16, 16));
        assert_eq!((stats.energy.current, stats.energy.max), (0, 0));
        assert_eq!((stats.oxygen.current, stats.oxygen.max), (0, 0));
        assert_eq!((stats.defense, stats.power), (1, 4));
        assert!(s.viewshed.as_ref().unwrap().dirty);
    }
    assert_eq!(mining.position, Some(Position { x: 5, y: 6 }));
}

#[test]
fn a_random_robot_is_one_of_the_two_kinds() {
    let mut rng = RandomNumberGenerator::seeded(7);
    let mut ecs = spawner_world();
    let mut kinds = Vec::new();
    for i in 0..40 {
        random_robot(&mut ecs, i, 2, &mut rng);
        let s = spawner_last(&ecs);
        assert_eq!(s.position, Some(Position { x: i, y: 2 }));
        kinds.push(spawner_name(s).to_string());
    }
    assert!(kinds.iter().all(|k| k == "Robot" || k == "Miningrobot"));
    assert!(kinds.iter().any(|k| k == "Robot") && kinds.iter().any(|k| k == "Miningrobot"));
}

#[test]
fn items_are_made_as_described() {
    let mut ecs = spawner_world();
    for roll in 1..=7 {
        item_for_roll(&mut ecs, roll, 9, roll);
    }
    let names: Vec<&str> = ecs.slots.iter().map(spawner_name).collect();
    assert_eq!(
        names,
        vec!["Basic Stim Pack", "Laser torch", "EMP Bomb", "Oxygen Canister", "Battery", "Grenade", "Grenade"]
    );
    let glyphs: Vec<u16> = ecs.slots.iter().map(|s| s.renderable.unwrap().glyph).collect();
    assert_eq!(glyphs, vec![173, 116, 41, 111, 98, 103, 103]);
    for (i, s) in ecs.slots.iter().enumerate() {
        assert!(s.item.is_some() && s.serialize_me.is_some() && s.combat_stats.is_none());
        assert_eq!(s.position, Some(Position { x: i as i32 + 1, y: 9 }));
        assert_eq!(s.renderable.unwrap().render_order, 2);
    }
    let pack = &ecs.slots[0];
    assert!(pack.consumable.is_some());
    assert_eq!(pack.provides_healing, Some(ProvidesHealing { heal_amount: 8 }));
    let torch = &ecs.slots[1];
    assert!(torch.consumable.is_none());
    assert_eq!(torch.melee_power_bonus, Some(MeleePowerBonus { power: 4 }));
    assert_eq!(torch.equippable, Some(Equippable { slot: EquipmentSlot::Weapon }));
    let bomb = &ecs.slots[2];
    assert_eq!((bomb.ranged, bomb.confusion), (Some(Ranged { range: 6 }), Some(Confusion { turns: 4 })));
    assert!(bomb.consumable.is_some());
    assert_eq!(ecs.slots[3].provides_oxygen, Some(ProvidesOxygen { oxygen_amount: 10 }));
    assert_eq!(ecs.slots[4].provides_energy, Some(ProvidesEnergy { energy_amount: 10 }));
    let grenade = &ecs.slots[5];
    assert_eq!(grenade.ranged, Some(Ranged { range: 6 }));
    assert_eq!(grenade.inflicts_damage, Some(InflictsDamage { damage: 8 }));
    assert_eq!(grenade.area_of_effect, Some(AreaOfEffect { radius: 3 }));
    assert_eq!(grenade.renderable.unwrap().fg, Colour { r: 85, g: 107, b: 47 });
}

#[test]
fn the_other_items_are_made_as_described() {
    let mut ecs = spawner_world();
    stim_packs(&mut ecs, 1, 1);
    blaster(&mut ecs, 2, 1);
    oxygen_tank(&mut ecs, 3, 1);
    battery(&mut ecs, 4, 1);
    artefact(&mut ecs, 5, 1);
    let names: Vec<&str> = ecs.slots.iter().map(spawner_name).collect();
    assert_eq!(names, vec!["Basic Stim Pack", "Blaster", "Oxygen Tank", "Battery", "Artefact from Yendoria"]);
    assert_eq!(ecs.slots[1].ranged_weapon, Some(RangedWeapon { range: 4, damage: 4 }));
    assert_eq!(ecs.slots[1].equippable, Some(Equippable { slot: EquipmentSlot::Weapon }));
    assert_eq!(ecs.slots[2].provides_oxygen, Some(ProvidesOxygen { oxygen_amount: 50 }));
    assert_eq!(ecs.slots[2].renderable.unwrap().glyph, 79);
    assert!(ecs.slots[4].artefact_from_yendoria.is_some() && ecs.slots[4].consumable.is_none());
    assert_eq!(ecs.slots[4].renderable.unwrap().fg, Colour { r: 255, g: 215, b: 0 });
    assert_eq!(ecs.slots[4].renderable.unwrap().glyph, 89);
}

#[test]
fn a_spot_is_held_once() {
    let mut spots = Vec::new();
    assert!(add_spot(&mut spots, Position { x: 1, y: 2 }));
    assert!(add_spot(&mut spots, Position { x: 2, y: 1 }));
    assert!(!add_spot(&mut spots, Position { x: 1, y: 2 }));
    assert_eq!(spots, vec![Position { x: 1, y: 2 }, Position { x: 2, y: 1 }]);
}

#[test]
fn a_room_is_filled_within_its_walls() {
    let room = Rect::new(10, 20, 6, 4);
    let mut most_robots = 0;
    let mut most_items = 0;
    for seed in 0..200 {
        let mut rng = RandomNumberGenerator::seeded(seed);
        let mut ecs = spawner_world();
        ecs.create_entity(Slot::new());
        spawn_room(&mut ecs, &room, &mut rng);
        assert!(ecs.slots[0].position.is_none());
        let robots = ecs.slots.iter().filter(|s| s.robot.is_some()).count();
        let items = ecs.slots.iter().filter(|s| s.item.is_some()).count();
        assert_eq!(ecs.slots.len(), 1 + robots + items);
        assert!(robots <= 3 && items <= 1);
        assert!(ecs.slots[1..1 + robots].iter().all(|s| s.robot.is_some()));
        let mut at: Vec<Position> = ecs.slots[1..1 + robots].iter().map(|s| s.position.unwrap()).collect();
        at.sort_by_key(|p| (p.x, p.y));
        at.dedup();
        assert_eq!(at.len(), robots);
        for s in &ecs.slots[1..] {
            let p = s.position.unwrap();
            assert!(10 < p.x && p.x <= 16 && 20 < p.y && p.y <= 24);
        }
        most_robots = most_robots.max(robots);
        most_items = most_items.max(items);
    }
    assert_eq!((most_robots, most_items), (3, 1));
}

#[test]
fn a_tiny_room_holds_what_fits() {
    let room = Rect::new(3, 3, 1, 1);
    let mut filled = 0;
    for seed in 0..100 {
        let mut rng = RandomNumberGenerator::seeded(seed);
        let mut ecs = spawner_world();
        spawn_room(&mut ecs, &room, &mut rng);
        let robots = ecs.slots.iter().filter(|s| s.robot.is_some()).count();
        assert!(robots <= 1);
        assert!(ecs.slots.iter().all(|s| s.position == Some(Position { x: 4, y: 4 })));
        filled += robots;
    }
    assert!(filled > 0);
}

#[test]
fn a_generated_map_has_rooms_of_floor_that_do_not_touch() {
    for seed in 0..20 {
        let mut rng = RandomNumberGenerator::seeded(seed);
        let map = GameMap::new_map_rooms_and_corridors(MAP_WIDTH, MAP_HEIGHT, &mut rng);
        assert_eq!((map.width, map.height), (80, 43));
        assert_eq!(map.tiles.len(), 80 * 43);
        assert!(!map.rooms.is_empty() && map.rooms.len() <= 30);
        for (k, room) in map.rooms.iter().enumerate() {
            assert!(0 <= room.x1 && room.x2 < 79 && 0 <= room.y1 && room.y2 < 42);
            assert!((6..10).contains(&(room.x2 - room.x1)) && (6..10).contains(&(room.y2 - room.y1)));
            for y in room.y1 + 1..=room.y2 {
                for x in room.x1 + 1..=room.x2 {
                    assert_eq!(map.tiles[map.xy_idx(x, y)], TileType::Floor);
                }
            }
            for other in &map.rooms[..k] {
                assert!(!room.intersect(other));
            }
        }
        for i in 0..map.tiles.len() {
            assert_eq!(map.blocked_tiles[i], map.tiles[i] == TileType::Wall);
            assert!(!map.revealed_tiles[i] && !map.visible_tiles[i] && map.tile_content[i].is_empty());
        }
        for x in 0..80 {
            assert_eq!(map.tiles[map.xy_idx(x, 0)], TileType::Wall);
            assert_eq!(map.tiles[map.xy_idx(x, 42)], TileType::Wall);
        }
    }
}

#[test]
fn the_map_depends_on_the_seed_alone() {
    let mut first = RandomNumberGenerator::seeded(11);
    let mut second = RandomNumberGenerator::seeded(11);
    let a = GameMap::new_map_rooms_and_corridors(80, 43, &mut first);
    let b = GameMap::new_map_rooms_and_corridors(80, 43, &mut second);
    assert_eq!(a.tiles, b.tiles);
    assert_eq!(a.rooms, b.rooms);
    let small = GameMap::new_map_rooms_and_corridors(12, 12, &mut first);
    assert_eq!(small.rooms.len(), 1);
}

#[test]
fn a_new_game_has_a_player_with_its_kit_and_an_artefact() {
    let mut rng = RandomNumberGenerator::seeded(3);
    let mut gs = State::new(spawner_world());
    gs.ecs.create_entity(Slot::new());
    gs.ecs.create_entity(Slot::new());
    gs.ecs.log.push("The salvager take a deep breath.".to_string());
    gs.game_over_cleanup(&mut rng);
    assert!(!gs.ecs.is_alive(Entity { id: 0 }) && !gs.ecs.is_alive(Entity { id: 1 }));
    let hero = gs.ecs.player;
    assert!(gs.ecs.is_alive(hero));
    assert_eq!(hero.id + 6, gs.ecs.slots.len());
    let centre = gs.ecs.map.rooms[0].center();
    let at = Position { x: centre.0, y: centre.1 };
    assert_eq!(gs.ecs.player_pos, at);
    let s = &gs.ecs.slots[hero.id];
    assert!(s.player.is_some());
    assert_eq!(s.position, Some(at));
    assert!(s.viewshed.as_ref().unwrap().dirty);
    let kit: Vec<&str> = gs.ecs.slots[hero.id + 1..hero.id + 5].iter().map(spawner_name).collect();
    assert_eq!(kit, vec!["Blaster", "Basic Stim Pack", "Oxygen Tank", "Battery"]);
    for s in &gs.ecs.slots[hero.id + 1..hero.id + 5] {
        assert_eq!(s.in_backpack, Some(InBackpack { owner: hero }));
        assert!(s.position.is_none());
    }
    let last = gs.ecs.map.rooms.last().unwrap().center();
    let prize = spawner_last(&gs.ecs);
    assert!(prize.artefact_from_yendoria.is_some());
    assert_eq!(prize.position, Some(Position { x: last.0, y: last.1 }));
    assert_eq!(gs.ecs.slots.iter().filter(|s| s.player.is_some()).count(), 1);
    let first = gs.ecs.map.rooms[0];
    for s in &gs.ecs.slots[2..hero.id] {
        let p = s.position.unwrap();
        assert!(s.robot.is_some() || s.item.is_some());
        assert!(!(first.x1 < p.x && p.x <= first.x2 && first.y1 < p.y && p.y <= first.y2));
        assert_eq!(gs.ecs.map.tiles[gs.ecs.map.xy_idx(p.x, p.y)], TileType::Floor);
    }
    assert_eq!(gs.ecs.log.entries.len(), 1);
    assert!(gs.ecs.doomed.is_empty());
}
