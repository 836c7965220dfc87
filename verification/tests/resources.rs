use salvager::components::{
    BreathOxygen, CombatStats, DrainEnergy, Entity, Name, Player, Pool, SufferDamage,
};
use salvager::damage_system::{delete_the_dead, DamageSystem};
use salvager::energy_system::EnergySystem;
use salvager::gamelog::number;
use salvager::map::GameMap;
use salvager::oxygen_system::OxygenSystem;
use salvager::runstate::RunState;
use salvager::world::{Slot, World};

fn resources_being(name: &str, hp: i32, energy: i32, oxygen: i32) -> Slot {
    let mut slot = Slot::new();
    slot.name = Some(Name { name: name.to_string() });
    slot.combat_stats = Some(CombatStats {
        hp: Pool { max: 30, current: hp, name: "Health".to_string() },
        energy: Pool { max: 30, current: energy, name: "Energy".to_string() },
        oxygen: Pool { max: 100, current: oxygen, name: "Oxygen".to_string() },
        defense: 2,
        power: 5,
    });
    slot
}

fn resources_world() -> World {
    World::new(GameMap::new(10, 10))
}

fn resources_stats(ecs: &World, e: Entity) -> (i32, i32, i32) {
    let stats = ecs.slots[e.id].combat_stats.as_ref().unwrap();
    (stats.hp.current, stats.energy.current, stats.oxygen.current)
}

#[test]
fn damage_that_waits_is_taken_and_cleared() {
    let mut ecs = resources_world();
    let e = ecs.create_entity(resources_being("Robot", 16, 0, 0));
    SufferDamage::new_damage(&mut ecs, e, 3);
    SufferDamage::new_damage(&mut ecs, e, 4);
    let mut damage = DamageSystem {};
    damage.run(&mut ecs);
    assert_eq!(resources_stats(&ecs, e).0, 9);
    assert!(ecs.slots[e.id].suffer_damage.is_none());
}

#[test]
fn health_does_not_fall_below_nothing() {
    let mut ecs = resources_world();
    let e = ecs.create_entity(resources_being("Robot", 5, 0, 0));
    SufferDamage::new_damage(&mut ecs, e, 3);
    SufferDamage::new_damage(&mut ecs, e, 40);
    let mut damage = DamageSystem {};
    damage.run(&mut ecs);
    assert_eq!(resources_stats(&ecs, e).0, 0);
}

#[test]
fn damage_of_less_than_nothing_is_not_capped() {
    let mut ecs = resources_world();
    let e = ecs.create_entity(resources_being("Robot", 30, 0, 0));
    SufferDamage::new_damage(&mut ecs, e, -5);
    let mut damage = DamageSystem {};
    damage.run(&mut ecs);
    assert_eq!(resources_stats(&ecs, e).0, 35);
}

#[test]
fn amounts_beyond_the_largest_number_are_capped() {
    let mut ecs = resources_world();
    let e = ecs.create_entity(resources_being("Robot", 30, 30, 30));
    for _ in 0..3 {
        SufferDamage::new_damage(&mut ecs, e, i32::MIN);
        DrainEnergy::new_energy(&mut ecs, e, i32::MAX);
        BreathOxygen::new_breath(&mut ecs, e, i32::MIN);
    }
    let mut damage = DamageSystem {};
    damage.run(&mut ecs);
    let mut energy = EnergySystem {};
    energy.run(&mut ecs);
    let mut oxygen = OxygenSystem {};
    oxygen.run(&mut ecs);
    assert_eq!(resources_stats(&ecs, e), (i32::MAX, 0, i32::MAX));
}

#[test]
fn damage_for_somebody_without_statistics_is_dropped() {
    let mut ecs = resources_world();
    let e = ecs.create_entity(Slot::new());
    SufferDamage::new_damage(&mut ecs, e, 3);
    assert_eq!(ecs.slots[e.id].suffer_damage.as_ref().unwrap().amount, vec![3]);
    let mut damage = DamageSystem {};
    damage.run(&mut ecs);
    assert!(ecs.slots[e.id].suffer_damage.is_none());
    assert!(ecs.slots[e.id].combat_stats.is_none());
}

#[test]
fn nothing_waits_for_somebody_who_is_gone() {
    let mut ecs = resources_world();
    let e = ecs.create_entity(resources_being("Robot", 5, 0, 0));
    ecs.delete_entity(e);
    SufferDamage::new_damage(&mut ecs, e, 3);
    DrainEnergy::new_energy(&mut ecs, e, 3);
    BreathOxygen::new_breath(&mut ecs, e, 3);
    SufferDamage::new_damage(&mut ecs, Entity { id: 7 }, 3);
    assert!(ecs.slots[e.id].suffer_damage.is_none());
    assert!(ecs.slots[e.id].drain_energy.is_none());
    assert!(ecs.slots[e.id].breath_oxygen.is_none());
    assert_eq!(ecs.slots.len(), 1);
}

#[test]
fn energy_that_waits_is_drained_and_cleared() {
    let mut ecs = resources_world();
    let e = ecs.create_entity(resources_being("Player", 30, 30, 100));
    DrainEnergy::new_energy(&mut ecs, e, 2);
    DrainEnergy::new_energy(&mut ecs, e, 5);
    let mut energy = EnergySystem {};
    energy.run(&mut ecs);
    assert_eq!(resources_stats(&ecs, e), (30, 23, 100));
    assert!(ecs.slots[e.id].drain_energy.is_none());
}

#[test]
fn energy_does_not_fall_below_nothing() {
    let mut ecs = resources_world();
    let e = ecs.create_entity(resources_being("Robot", 16, 0, 0));
    DrainEnergy::new_energy(&mut ecs, e, 1);
    let f = ecs.create_entity(resources_being("Player", 30, 5, 100));
    DrainEnergy::new_energy(&mut ecs, f, 8);
    let mut energy = EnergySystem {};
    energy.run(&mut ecs);
    assert_eq!(resources_stats(&ecs, e).1, 0);
    assert_eq!(resources_stats(&ecs, f).1, 0);
    assert!(ecs.slots[f.id].drain_energy.is_none());
}

#[test]
fn oxygen_at_the_warning_level_warns_once_and_does_no_damage() {
    let mut ecs = resources_world();
    let e = ecs.create_entity(resources_being("Player", 30, 30, 26));
    BreathOxygen::new_breath(&mut ecs, e, 1);
    let mut oxygen = OxygenSystem {};
    oxygen.run(&mut ecs);
    assert_eq!(resources_stats(&ecs, e), (30, 30, 25));
    assert_eq!(ecs.log.entries, vec!["Oxygen level dropped to 25%".to_string()]);
    assert!(ecs.slots[e.id].suffer_damage.is_none());
    assert!(ecs.slots[e.id].breath_oxygen.is_none());
}

#[test]
fn oxygen_at_other_levels_says_nothing() {
    for start in [27, 25, 24, 2] {
        let mut ecs = resources_world();
        let e = ecs.create_entity(resources_being("Player", 30, 30, start));
        BreathOxygen::new_breath(&mut ecs, e, 1);
        let mut oxygen = OxygenSystem {};
        oxygen.run(&mut ecs);
        assert_eq!(resources_stats(&ecs, e).2, start - 1);
        assert!(ecs.log.entries.is_empty());
        assert!(ecs.slots[e.id].suffer_damage.is_none());
    }
}

#[test]
fn running_out_of_oxygen_hurts_by_one() {
    let mut ecs = resources_world();
    let e = ecs.create_entity(resources_being("Player", 30, 30, 1));
    BreathOxygen::new_breath(&mut ecs, e, 1);
    let mut oxygen = OxygenSystem {};
    oxygen.run(&mut ecs);
    assert_eq!(resources_stats(&ecs, e), (30, 30, 0));
    assert_eq!(ecs.slots[e.id].suffer_damage.as_ref().unwrap().amount, vec![1]);
    assert_eq!(ecs.log.entries, vec!["You suffer damage because you are out of air.".to_string()]);
}

#[test]
fn oxygen_does_not_fall_below_nothing() {
    let mut ecs = resources_world();
    let e = ecs.create_entity(resources_being("Player", 30, 30, 3));
    BreathOxygen::new_breath(&mut ecs, e, 2);
    BreathOxygen::new_breath(&mut ecs, e, 9);
    let mut oxygen = OxygenSystem {};
    oxygen.run(&mut ecs);
    assert_eq!(resources_stats(&ecs, e).2, 0);
    assert_eq!(ecs.slots[e.id].suffer_damage.as_ref().unwrap().amount, vec![1]);
}

#[test]
fn who_does_not_breathe_keeps_its_oxygen() {
    let mut ecs = resources_world();
    let e = ecs.create_entity(resources_being("Robot", 16, 0, 0));
    let mut oxygen = OxygenSystem {};
    oxygen.run(&mut ecs);
    assert_eq!(resources_stats(&ecs, e), (16, 0, 0));
    assert!(ecs.log.entries.is_empty());
    assert!(ecs.slots[e.id].suffer_damage.is_none());
}

#[test]
fn the_dead_are_announced_and_removed() {
    let mut ecs = resources_world();
    let dead = ecs.create_entity(resources_being("Robot", 0, 0, 0));
    let alive = ecs.create_entity(resources_being("Miningrobot", 1, 0, 0));
    let mut nameless = resources_being("", -3, 0, 0);
    nameless.name = None;
    let quiet = ecs.create_entity(nameless);
    delete_the_dead(&mut ecs);
    assert!(!ecs.is_alive(dead));
    assert!(ecs.slots[dead.id].combat_stats.is_none());
    assert!(ecs.is_alive(alive));
    assert!(!ecs.is_alive(quiet));
    assert_eq!(ecs.log.entries, vec!["Robot is dead".to_string()]);
    assert_eq!(ecs.slots.len(), 3);
}

#[test]
fn the_death_of_the_player_ends_the_game() {
    let mut ecs = resources_world();
    let mut hero = resources_being("Player", 0, 30, 100);
    hero.player = Some(Player {});
    let e = ecs.create_entity(hero);
    ecs.runstate = RunState::AwaitingInput;
    delete_the_dead(&mut ecs);
    assert!(!ecs.is_alive(e));
    assert_eq!(ecs.runstate, RunState::GameOver);
    assert_eq!(ecs.log.entries, vec!["Player is dead".to_string()]);
    ecs.runstate = RunState::MainMenu { menu_selection: salvager::runstate::MainMenuSelection::NewGame };
    delete_the_dead(&mut ecs);
    assert_eq!(ecs.log.entries.len(), 1);
    assert_eq!(
        ecs.runstate,
        RunState::MainMenu { menu_selection: salvager::runstate::MainMenuSelection::NewGame }
    );
}

#[test]
fn numbers_are_written_in_decimal() {
    assert_eq!(number(0), "0");
    assert_eq!(number(7), "7");
    assert_eq!(number(10), "10");
    assert_eq!(number(1905), "1905");
    assert_eq!(number(-42), "-42");
    assert_eq!(number(i32::MAX), "2147483647");
    assert_eq!(number(i32::MIN), "-2147483648");
}
