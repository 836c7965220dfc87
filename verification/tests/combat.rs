use salvager::combat::compute_damage;
use salvager::components::{
    CombatStats, Entity, EquipmentSlot, Equipped, MeleePowerBonus, Name, Pool, RangedWeapon,
    SufferDamage, WantsToMelee, WantsToShoot,
};
use salvager::map::GameMap;
use salvager::melee_combat_system::MeleeCombatSystem;
use salvager::ranged_combat_system::RangedCombatSystem;
use salvager::world::{Slot, World};

fn combat_pool(current: i32, max: i32, name: &str) -> Pool {
    Pool { max, current, name: name.to_string() }
}

fn combat_fighter(name: &str, hp: i32, defense: i32, power: i32) -> Slot {
    let mut slot = Slot::new();
    slot.name = Some(Name { name: name.to_string() });
    slot.combat_stats = Some(CombatStats {
        hp: combat_pool(hp, 30, "Health"),
        energy: combat_pool(0, 0, "Energy"),
        oxygen: combat_pool(0, 0, "Oxygen"),
        defense,
        power,
    });
    slot
}

fn combat_world() -> World {
    World::new(GameMap::new(10, 10))
}

fn combat_waiting(ecs: &World, e: Entity) -> Option<Vec<i32>> {
    ecs.slots[e.id].suffer_damage.as_ref().map(|d| d.amount.clone())
}

#[test]
fn damage_is_power_less_defense() {
    assert_eq!(compute_damage(9, 2), 7);
    assert_eq!(compute_damage(4, 2), 2);
}

#[test]
fn damage_is_never_negative() {
    assert_eq!(compute_damage(1, 2), 0);
    assert_eq!(compute_damage(2, 2), 0);
    assert_eq!(compute_damage(-5, 3), 0);
}

#[test]
fn damage_beyond_the_largest_number_is_capped() {
    assert_eq!(compute_damage(i32::MAX as i128 + 10, 0), i32::MAX);
    assert_eq!(compute_damage(i32::MAX as i128, i32::MIN), i32::MAX);
}

#[test]
fn melee_adds_the_bonus_of_what_is_equipped() {
    let mut ecs = combat_world();
    let attacker = ecs.create_entity(combat_fighter("Player", 30, 2, 5));
    let defender = ecs.create_entity(combat_fighter("Robot", 16, 2, 4));
    let mut torch = Slot::new();
    torch.melee_power_bonus = Some(MeleePowerBonus { power: 4 });
    torch.equipped = Some(Equipped { owner: attacker, slot: EquipmentSlot::Weapon });
    ecs.create_entity(torch);
    let mut stray = Slot::new();
    stray.melee_power_bonus = Some(MeleePowerBonus { power: 100 });
    stray.equipped = Some(Equipped { owner: defender, slot: EquipmentSlot::Weapon });
    ecs.create_entity(stray);
    let mut unworn = Slot::new();
    unworn.melee_power_bonus = Some(MeleePowerBonus { power: 50 });
    ecs.create_entity(unworn);
    ecs.slots[attacker.id].wants_to_melee = Some(WantsToMelee { target: defender });

    let mut melee = MeleeCombatSystem {};
    melee.run(&mut ecs);

    assert_eq!(combat_waiting(&ecs, defender), Some(vec![7]));
    assert_eq!(combat_waiting(&ecs, attacker), None);
    assert_eq!(ecs.log.entries, vec!["Player hits Robot, for 7 hp.".to_string()]);
    assert!(ecs.slots[attacker.id].wants_to_melee.is_none());
    assert_eq!(ecs.slots[defender.id].combat_stats.as_ref().unwrap().hp.current, 16);
}

#[test]
fn melee_that_cannot_hurt_says_so() {
    let mut ecs = combat_world();
    let attacker = ecs.create_entity(combat_fighter("Robot", 16, 1, 2));
    let defender = ecs.create_entity(combat_fighter("Player", 30, 2, 5));
    ecs.slots[attacker.id].wants_to_melee = Some(WantsToMelee { target: defender });
    let mut melee = MeleeCombatSystem {};
    melee.run(&mut ecs);
    assert_eq!(combat_waiting(&ecs, defender), None);
    assert_eq!(ecs.log.entries, vec!["Robot is unable to hurt Player".to_string()]);
}

#[test]
fn the_dead_do_not_attack() {
    let mut ecs = combat_world();
    let attacker = ecs.create_entity(combat_fighter("Robot", 0, 1, 9));
    let defender = ecs.create_entity(combat_fighter("Player", 30, 2, 5));
    ecs.slots[attacker.id].wants_to_melee = Some(WantsToMelee { target: defender });
    let mut melee = MeleeCombatSystem {};
    melee.run(&mut ecs);
    assert_eq!(combat_waiting(&ecs, defender), None);
    assert!(ecs.log.entries.is_empty());
    assert!(ecs.slots[attacker.id].wants_to_melee.is_none());
}

#[test]
fn the_dead_are_not_attacked() {
    let mut ecs = combat_world();
    let attacker = ecs.create_entity(combat_fighter("Robot", 16, 1, 9));
    let defender = ecs.create_entity(combat_fighter("Player", 0, 2, 5));
    ecs.slots[attacker.id].wants_to_melee = Some(WantsToMelee { target: defender });
    let mut melee = MeleeCombatSystem {};
    melee.run(&mut ecs);
    assert_eq!(combat_waiting(&ecs, defender), None);
    assert!(ecs.log.entries.is_empty());
}

#[test]
fn an_attack_on_somebody_who_is_gone_is_dropped() {
    let mut ecs = combat_world();
    let attacker = ecs.create_entity(combat_fighter("Robot", 16, 1, 9));
    let defender = ecs.create_entity(combat_fighter("Player", 30, 2, 5));
    ecs.delete_entity(defender);
    ecs.slots[attacker.id].wants_to_melee = Some(WantsToMelee { target: defender });
    let mut melee = MeleeCombatSystem {};
    melee.run(&mut ecs);
    assert_eq!(ecs.log.entries, vec!["Something that was meant is no longer there.".to_string()]);
    assert!(ecs.slots[defender.id].suffer_damage.is_none());
    assert!(ecs.slots[attacker.id].wants_to_melee.is_none());

    ecs.slots[attacker.id].wants_to_melee = Some(WantsToMelee { target: Entity { id: 99 } });
    melee.run(&mut ecs);
    assert_eq!(ecs.log.entries.len(), 2);
}

#[test]
fn attacks_are_resolved_in_the_order_of_the_entities() {
    let mut ecs = combat_world();
    let first = ecs.create_entity(combat_fighter("First", 16, 0, 3));
    let second = ecs.create_entity(combat_fighter("Second", 16, 0, 5));
    let victim = ecs.create_entity(combat_fighter("Victim", 30, 1, 1));
    ecs.slots[second.id].wants_to_melee = Some(WantsToMelee { target: victim });
    ecs.slots[first.id].wants_to_melee = Some(WantsToMelee { target: victim });
    SufferDamage::new_damage(&mut ecs, victim, 1);
    let mut melee = MeleeCombatSystem {};
    melee.run(&mut ecs);
    assert_eq!(combat_waiting(&ecs, victim), Some(vec![1, 2, 4]));
    assert_eq!(
        ecs.log.entries,
        vec!["First hits Victim, for 2 hp.".to_string(), "Second hits Victim, for 4 hp.".to_string()]
    );
}

#[test]
fn a_shot_has_the_strength_of_the_weapon_alone() {
    let mut ecs = combat_world();
    let shooter = ecs.create_entity(combat_fighter("Player", 30, 2, 5));
    let target = ecs.create_entity(combat_fighter("Robot", 16, 1, 4));
    let mut blaster = Slot::new();
    blaster.ranged_weapon = Some(RangedWeapon { range: 4, damage: 4 });
    blaster.equipped = Some(Equipped { owner: shooter, slot: EquipmentSlot::Weapon });
    ecs.create_entity(blaster);
    ecs.slots[shooter.id].wants_to_shoot = Some(WantsToShoot { target });
    let mut ranged = RangedCombatSystem {};
    ranged.run(&mut ecs);
    assert_eq!(combat_waiting(&ecs, target), Some(vec![3]));
    assert_eq!(ecs.log.entries, vec!["Player hits Robot, for 3 hp.".to_string()]);
    assert!(ecs.slots[shooter.id].wants_to_shoot.is_none());
}

#[test]
fn a_shot_without_a_weapon_cannot_hurt() {
    let mut ecs = combat_world();
    let shooter = ecs.create_entity(combat_fighter("Player", 30, 2, 5));
    let target = ecs.create_entity(combat_fighter("Robot", 16, 1, 4));
    ecs.slots[shooter.id].wants_to_shoot = Some(WantsToShoot { target });
    let mut ranged = RangedCombatSystem {};
    ranged.run(&mut ecs);
    assert_eq!(combat_waiting(&ecs, target), None);
    assert_eq!(ecs.log.entries, vec!["Player is unable to hurt Robot".to_string()]);
}

#[test]
fn the_last_weapon_equipped_counts() {
    let mut ecs = combat_world();
    let shooter = ecs.create_entity(combat_fighter("Player", 30, 2, 5));
    let target = ecs.create_entity(combat_fighter("Robot", 16, 0, 4));
    for damage in [4, 9] {
        let mut gun = Slot::new();
        gun.ranged_weapon = Some(RangedWeapon { range: 4, damage });
        gun.equipped = Some(Equipped { owner: shooter, slot: EquipmentSlot::Weapon });
        ecs.create_entity(gun);
    }
    ecs.slots[shooter.id].wants_to_shoot = Some(WantsToShoot { target });
    let mut ranged = RangedCombatSystem {};
    ranged.run(&mut ecs);
    assert_eq!(combat_waiting(&ecs, target), Some(vec![9]));
}
