use salvager::components::{
    CombatStats, Entity, EquipmentSlot, Equipped, Name, Player, Pool, Position, RangedWeapon,
    Robot, Target, Viewshed,
};
use salvager::map::GameMap;
use salvager::map_indexing_system::MapIndexingSystem;
use salvager::player::{cycle_target, end_turn_targeting, fire_on_target};
use salvager::sorting::sort_ascending;
use salvager::targeting::{cycle_choice, find_target, get_player_target_list, keep_target};
use salvager::world::{Slot, World};

fn targeting_world(range: i32) -> World {
    let mut map = GameMap::new(20, 20);
    map.dig(1, 18, 1, 18);
    map.populate_blocked();
    let mut ecs = World::new(map);
    let mut hero = Slot::new();
    hero.player = Some(Player {});
    hero.name = Some(Name { name: "Player".to_string() });
    hero.position = Some(Position { x: 5, y: 5 });
    let mut seen = Vec::new();
    for y in 1..19 {
        for x in 1..19 {
            seen.push(Position { x, y });
        }
    }
    hero.viewshed = Some(Viewshed { visible_tiles: seen, range: 8, dirty: false });
    let e = ecs.create_entity(hero);
    ecs.player = e;
    ecs.player_pos = Position { x: 5, y: 5 };
    let mut gun = Slot::new();
    gun.ranged_weapon = Some(RangedWeapon { range, damage: 4 });
    gun.equipped = Some(Equipped { owner: e, slot: EquipmentSlot::Weapon });
    ecs.create_entity(gun);
    ecs
}

fn targeting_robot(ecs: &mut World, x: i32, y: i32) -> Entity {
    let mut robot = Slot::new();
    robot.robot = Some(Robot {});
    robot.name = Some(Name { name: "Robot".to_string() });
    robot.position = Some(Position { x, y });
    robot.combat_stats = Some(CombatStats {
        hp: Pool { max: 16, current: 16, name: "Health".to_string() },
        energy: Pool { max: 0, current: 0, name: "Energy".to_string() },
        oxygen: Pool { max: 0, current: 0, name: "Oxygen".to_string() },
        defense: 1,
        power: 4,
    });
    ecs.create_entity(robot)
}

fn targeting_index(ecs: &mut World) {
    let mut index = MapIndexingSystem {};
    index.run(ecs);
}

#[test]
fn sorting_is_ascending_and_keeps_the_order_of_equals() {
    let e = |id| Entity { id };
    let list = vec![(9, e(0)), (4, e(1)), (9, e(2)), (1, e(3)), (4, e(4)), (4, e(5))];
    assert_eq!(
        sort_ascending(&list),
        vec![(1, e(3)), (4, e(1)), (4, e(4)), (4, e(5)), (9, e(0)), (9, e(2))]
    );
    assert_eq!(sort_ascending(&Vec::new()), Vec::new());
    assert_eq!(sort_ascending(&vec![(-3, e(1))]), vec![(-3, e(1))]);
}

#[test]
fn cycling_visits_the_targets_in_order_and_wraps() {
    let a = Entity { id: 10 };
    let b = Entity { id: 11 };
    let c = Entity { id: 12 };
    let list = vec![(4, a), (16, b), (36, c)];
    assert_eq!(cycle_choice(&list, None), Some(a));
    assert_eq!(cycle_choice(&list, Some(a)), Some(b));
    assert_eq!(cycle_choice(&list, Some(b)), Some(c));
    assert_eq!(cycle_choice(&list, Some(c)), Some(a));
}

#[test]
fn cycling_at_the_edges() {
    let a = Entity { id: 10 };
    let b = Entity { id: 11 };
    let stranger = Entity { id: 99 };
    assert_eq!(cycle_choice(&Vec::new(), None), None);
    assert_eq!(cycle_choice(&Vec::new(), Some(a)), None);
    assert_eq!(cycle_choice(&vec![(4, a)], Some(a)), Some(a));
    assert_eq!(cycle_choice(&vec![(4, a)], Some(stranger)), Some(a));
    assert_eq!(cycle_choice(&vec![(4, a), (5, b)], Some(stranger)), Some(b));
}

#[test]
fn the_target_is_kept_while_it_can_be_shot_at() {
    let a = Entity { id: 10 };
    let b = Entity { id: 11 };
    let list = vec![(4, a), (16, b)];
    assert_eq!(keep_target(&list, Some(b)), Some(b));
    assert_eq!(keep_target(&list, Some(Entity { id: 3 })), Some(a));
    assert_eq!(keep_target(&list, None), Some(a));
    assert_eq!(keep_target(&Vec::new(), Some(a)), None);
}

#[test]
fn the_target_list_holds_the_robots_in_range_nearest_first() {
    let mut ecs = targeting_world(7);
    let far = targeting_robot(&mut ecs, 11, 5);
    let near = targeting_robot(&mut ecs, 7, 5);
    let middle = targeting_robot(&mut ecs, 5, 9);
    let beyond = targeting_robot(&mut ecs, 12, 5);
    let diagonal = targeting_robot(&mut ecs, 9, 9);
    targeting_index(&mut ecs);
    let list = get_player_target_list(&ecs);
    assert_eq!(list, vec![(4, near), (16, middle), (32, diagonal), (36, far)]);
    assert!(!list.iter().any(|t| t.1 == beyond || t.1 == ecs.player));
}

#[test]
fn robots_at_the_same_distance_come_in_the_order_in_which_they_are_seen() {
    let mut ecs = targeting_world(7);
    let below = targeting_robot(&mut ecs, 5, 7);
    let right = targeting_robot(&mut ecs, 7, 5);
    let above = targeting_robot(&mut ecs, 5, 3);
    targeting_index(&mut ecs);
    assert_eq!(get_player_target_list(&ecs), vec![(4, above), (4, right), (4, below)]);
}

#[test]
fn what_is_not_seen_is_no_target() {
    let mut ecs = targeting_world(7);
    targeting_robot(&mut ecs, 7, 5);
    targeting_index(&mut ecs);
    ecs.slots[0].viewshed.as_mut().unwrap().visible_tiles = vec![Position { x: 6, y: 5 }];
    assert!(get_player_target_list(&ecs).is_empty());
    ecs.slots[0].viewshed.as_mut().unwrap().visible_tiles =
        vec![Position { x: 7, y: 5 }, Position { x: -1, y: 5 }, Position { x: 7, y: 500 }];
    assert_eq!(get_player_target_list(&ecs).len(), 1);
}

#[test]
fn without_a_ranged_weapon_there_are_no_targets() {
    let mut ecs = targeting_world(7);
    targeting_robot(&mut ecs, 7, 5);
    targeting_index(&mut ecs);
    ecs.slots[1].equipped = None;
    assert!(get_player_target_list(&ecs).is_empty());
    ecs.slots[1].equipped = Some(Equipped { owner: Entity { id: 2 }, slot: EquipmentSlot::Weapon });
    assert!(get_player_target_list(&ecs).is_empty());
    let mut ecs = targeting_world(0);
    targeting_robot(&mut ecs, 5, 5);
    targeting_index(&mut ecs);
    assert!(get_player_target_list(&ecs).is_empty());
}

#[test]
fn the_range_is_not_included() {
    let mut ecs = targeting_world(4);
    let inside = targeting_robot(&mut ecs, 8, 5);
    targeting_robot(&mut ecs, 9, 5);
    targeting_index(&mut ecs);
    assert_eq!(get_player_target_list(&ecs), vec![(9, inside)]);
}

#[test]
fn cycling_moves_the_mark() {
    let mut ecs = targeting_world(7);
    let a = targeting_robot(&mut ecs, 7, 5);
    let b = targeting_robot(&mut ecs, 9, 5);
    let c = targeting_robot(&mut ecs, 11, 5);
    targeting_index(&mut ecs);
    assert_eq!(find_target(&ecs), None);
    let mut visited = Vec::new();
    for _ in 0..7 {
        cycle_target(&mut ecs);
        visited.push(find_target(&ecs).unwrap());
        assert_eq!(ecs.slots.iter().filter(|s| s.target.is_some()).count(), 1);
    }
    assert_eq!(visited, vec![a, b, c, a, b, c, a]);
}

#[test]
fn the_mark_stays_or_goes_to_the_nearest_at_the_end_of_a_turn() {
    let mut ecs = targeting_world(7);
    let a = targeting_robot(&mut ecs, 7, 5);
    let b = targeting_robot(&mut ecs, 9, 5);
    targeting_index(&mut ecs);
    end_turn_targeting(&mut ecs);
    assert_eq!(find_target(&ecs), Some(a));
    ecs.slots[a.id].target = None;
    ecs.slots[b.id].target = Some(Target {});
    end_turn_targeting(&mut ecs);
    assert_eq!(find_target(&ecs), Some(b));
    ecs.slots[b.id].position = Some(Position { x: 17, y: 17 });
    targeting_index(&mut ecs);
    end_turn_targeting(&mut ecs);
    assert_eq!(find_target(&ecs), Some(a));
    ecs.slots[a.id].position = Some(Position { x: 17, y: 16 });
    targeting_index(&mut ecs);
    end_turn_targeting(&mut ecs);
    assert_eq!(find_target(&ecs), None);
}

#[test]
fn the_last_mark_counts_where_there_are_several() {
    let mut ecs = targeting_world(7);
    let a = targeting_robot(&mut ecs, 7, 5);
    let b = targeting_robot(&mut ecs, 9, 5);
    ecs.slots[a.id].target = Some(Target {});
    ecs.slots[b.id].target = Some(Target {});
    assert_eq!(find_target(&ecs), Some(b));
    assert!(fire_on_target(&mut ecs));
    assert_eq!(ecs.slots[0].wants_to_shoot.unwrap().target, b);
}
