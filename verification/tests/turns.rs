use salvager::components::{
    ArtefactFromYendoria, BlocksTile, CombatStats, Consumable, Entity, InBackpack, Item, Name,
    Player, Pool, Position, ProvidesHealing, Ranged, Robot, Target, Viewshed, WantsToMelee,
    WantsToPickupItem,
};
use salvager::map::{GameMap, TileType};
use salvager::map_indexing_system::MapIndexingSystem;
use salvager::player::{player_input, try_move_player, Command};
use salvager::robot_ai_system::{RobotAI, RobotPlan};
use salvager::pass::PassEvent;
use salvager::runstate::{
    GameOverResult, ItemMenuResult, MainMenuResult, MainMenuSelection, PassCursor, RunState,
};
use salvager::visibility_system::ViewRequest;
use salvager::state::{State, TickAction, TickEvent};
use salvager::world::{Slot, World};

fn turns_map() -> GameMap {
    let mut map = GameMap::new(12, 12);
    map.dig(1, 10, 1, 10);
    map.populate_blocked();
    map
}

fn turns_creature(name: &str, x: i32, y: i32, hp: i32, defense: i32, power: i32) -> Slot {
    let mut slot = Slot::new();
    slot.position = Some(Position { x, y });
    slot.name = Some(Name { name: name.to_string() });
    slot.viewshed = Some(Viewshed { visible_tiles: Vec::new(), range: 8, dirty: false });
    slot.combat_stats = Some(CombatStats {
        hp: Pool { max: 30, current: hp, name: "Health".to_string() },
        energy: Pool { max: 30, current: 30, name: "Energy".to_string() },
        oxygen: Pool { max: 100, current: 100, name: "Oxygen".to_string() },
        defense,
        power,
    });
    slot
}

fn turns_game(x: i32, y: i32) -> State {
    let mut ecs = World::new(turns_map());
    let mut hero = turns_creature("Player", x, y, 30, 2, 5);
    hero.player = Some(Player {});
    let e = ecs.create_entity(hero);
    ecs.player = e;
    ecs.player_pos = Position { x, y };
    ecs.runstate = RunState::AwaitingInput;
    State::new(ecs)
}

fn turns_robot(gs: &mut State, x: i32, y: i32) -> Entity {
    let mut robot = turns_creature("Robot", x, y, 16, 1, 4);
    robot.robot = Some(Robot {});
    robot.blocks_tile = Some(BlocksTile {});
    gs.ecs.create_entity(robot)
}

fn turns_index(gs: &mut State) {
    let mut index = MapIndexingSystem {};
    index.run(&mut gs.ecs);
}

fn turns_hero_at(gs: &State) -> Position {
    gs.ecs.slots[gs.ecs.player.id].position.unwrap()
}

#[test]
fn a_step_into_a_wall_changes_nothing() {
    let mut gs = turns_game(5, 5);
    gs.ecs.map.set_tile(6, 5, TileType::Wall);
    turns_index(&mut gs);
    let action = gs.tick(TickEvent::Command { command: Command::Move { dx: 1, dy: 0 } });
    assert_eq!(action, TickAction::Nothing);
    assert_eq!(turns_hero_at(&gs), Position { x: 5, y: 5 });
    assert_eq!(gs.ecs.player_pos, Position { x: 5, y: 5 });
    assert_eq!(gs.ecs.runstate, RunState::AwaitingInput);
    assert!(!gs.ecs.slots[0].viewshed.as_ref().unwrap().dirty);
    assert!(gs.ecs.slots[0].wants_to_melee.is_none());
    assert!(gs.ecs.log.entries.is_empty());
}

#[test]
fn a_step_beyond_the_map_changes_nothing() {
    let mut gs = turns_game(1, 1);
    turns_index(&mut gs);
    assert!(!try_move_player(-1, 0, &mut gs.ecs));
    assert!(!try_move_player(0, -1, &mut gs.ecs));
    assert!(!try_move_player(-5, -5, &mut gs.ecs));
    assert!(!try_move_player(i32::MAX, i32::MAX, &mut gs.ecs));
    assert!(!try_move_player(i32::MIN, 0, &mut gs.ecs));
    assert_eq!(turns_hero_at(&gs), Position { x: 1, y: 1 });
    assert_eq!(player_input(&mut gs, Command::Move { dx: 0, dy: 20 }), RunState::AwaitingInput);
}

#[test]
fn a_step_onto_a_free_tile_moves_the_player() {
    let mut gs = turns_game(5, 5);
    turns_index(&mut gs);
    gs.tick(TickEvent::Command { command: Command::Move { dx: 1, dy: -1 } });
    assert_eq!(turns_hero_at(&gs), Position { x: 6, y: 4 });
    assert_eq!(gs.ecs.player_pos, Position { x: 6, y: 4 });
    assert!(gs.ecs.slots[0].viewshed.as_ref().unwrap().dirty);
    assert_eq!(gs.ecs.runstate, RunState::PlayerTurn);
}

#[test]
fn a_step_onto_a_robot_is_an_attack() {
    let mut gs = turns_game(5, 5);
    let robot = turns_robot(&mut gs, 5, 6);
    turns_index(&mut gs);
    gs.tick(TickEvent::Command { command: Command::Move { dx: 0, dy: 1 } });
    assert_eq!(turns_hero_at(&gs), Position { x: 5, y: 5 });
    assert_eq!(gs.ecs.slots[0].wants_to_melee, Some(WantsToMelee { target: robot }));
    assert_eq!(gs.ecs.runstate, RunState::PlayerTurn);
}

#[test]
fn the_phases_follow_one_another() {
    let mut gs = turns_game(5, 5);
    gs.ecs.runstate = RunState::PreRun;
    assert_eq!(gs.tick(TickEvent::Nothing), TickAction::Nothing);
    assert_eq!(gs.ecs.runstate, RunState::AwaitingInput);
    gs.tick(TickEvent::Nothing);
    assert_eq!(gs.ecs.runstate, RunState::AwaitingInput);
    gs.tick(TickEvent::Command { command: Command::Nothing });
    assert_eq!(gs.ecs.runstate, RunState::AwaitingInput);
    gs.tick(TickEvent::Command { command: Command::Move { dx: 1, dy: 0 } });
    assert_eq!(gs.ecs.runstate, RunState::PlayerTurn);
    let asked = gs.tick(TickEvent::Nothing);
    let request = ViewRequest { viewer: Entity { id: 0 }, at: Position { x: 6, y: 5 }, range: 8 };
    assert_eq!(asked, TickAction::Look { request });
    assert_eq!(gs.ecs.runstate, RunState::PlayerTurn);
    let seen = PassEvent::Seen { tiles: vec![Position { x: 6, y: 5 }] };
    assert_eq!(gs.tick(TickEvent::Pass { event: seen }), TickAction::Nothing);
    assert_eq!(gs.ecs.runstate, RunState::MonsterTurn);
    gs.tick(TickEvent::Nothing);
    assert_eq!(gs.ecs.runstate, RunState::AwaitingInput);
    assert_eq!(gs.ecs.slots[0].combat_stats.as_ref().unwrap().oxygen.current, 99);
}

fn turns_far_robot(gs: &mut State) -> Entity {
    let robot = turns_robot(gs, 9, 5);
    gs.ecs.slots[robot.id].viewshed.as_mut().unwrap().dirty = true;
    gs.ecs.slots[0].viewshed.as_mut().unwrap().dirty = true;
    gs.ecs.runstate = RunState::MonsterTurn;
    robot
}

#[test]
fn a_pass_asks_for_every_look_then_for_every_path_and_resolves() {
    let mut gs = turns_game(5, 5);
    let robot = turns_far_robot(&mut gs);
    let idle = turns_robot(&mut gs, 9, 9);
    gs.ecs.slots[0].wants_to_melee = Some(WantsToMelee { target: idle });

    let first = ViewRequest { viewer: Entity { id: 0 }, at: Position { x: 5, y: 5 }, range: 8 };
    assert_eq!(gs.tick(TickEvent::Nothing), TickAction::Look { request: first });
    assert_eq!(gs.ecs.pass, PassCursor::Looking { viewer: 0 });
    assert_eq!(gs.ecs.runstate, RunState::MonsterTurn);
    assert!(gs.ecs.slots[0].wants_to_melee.is_some());

    let seen = PassEvent::Seen { tiles: vec![Position { x: 5, y: 5 }, Position { x: 6, y: 5 }] };
    let second = ViewRequest { viewer: robot, at: Position { x: 9, y: 5 }, range: 8 };
    assert_eq!(gs.tick(TickEvent::Pass { event: seen }), TickAction::Look { request: second });
    assert_eq!(gs.ecs.slots[0].viewshed.as_ref().unwrap().visible_tiles.len(), 2);
    assert!(!gs.ecs.slots[0].viewshed.as_ref().unwrap().dirty);
    assert_eq!(gs.ecs.pass, PassCursor::Looking { viewer: robot.id });

    let seen = PassEvent::Seen { tiles: vec![Position { x: 5, y: 5 }] };
    let start = gs.ecs.map.xy_idx(9, 5);
    let end = gs.ecs.map.xy_idx(5, 5);
    assert_eq!(gs.tick(TickEvent::Pass { event: seen }), TickAction::FindPath { robot, start, end });
    assert_eq!(gs.ecs.pass, PassCursor::Walking { robot: robot.id });
    assert!(!gs.ecs.slots[robot.id].viewshed.as_ref().unwrap().dirty);
    assert!(gs.ecs.slots[0].wants_to_melee.is_some());

    let path = PassEvent::Path { success: true, steps: vec![start, start - 1, start - 2] };
    assert_eq!(gs.tick(TickEvent::Pass { event: path }), TickAction::Nothing);
    assert_eq!(gs.ecs.pass, PassCursor::Idle);
    assert_eq!(gs.ecs.runstate, RunState::AwaitingInput);
    assert_eq!(gs.ecs.slots[robot.id].position, Some(Position { x: 8, y: 5 }));
    assert!(gs.ecs.slots[robot.id].viewshed.as_ref().unwrap().dirty);
    assert!(gs.ecs.map.blocked_tiles[start - 1] && !gs.ecs.map.blocked_tiles[start]);
    assert_eq!(gs.ecs.map.tile_content[start - 1], vec![robot]);
    assert!(gs.ecs.slots[0].wants_to_melee.is_none());
    assert_eq!(gs.ecs.slots[idle.id].combat_stats.as_ref().unwrap().hp.current, 12);
}

#[test]
fn what_a_pass_is_not_told_it_goes_without() {
    let mut gs = turns_game(5, 5);
    let robot = turns_far_robot(&mut gs);
    gs.ecs.slots[robot.id].viewshed.as_mut().unwrap().visible_tiles = vec![Position { x: 5, y: 5 }];
    assert!(matches!(gs.tick(TickEvent::Nothing), TickAction::Look { .. }));
    assert!(matches!(gs.tick(TickEvent::Nothing), TickAction::Look { .. }));
    let wrong = PassEvent::Path { success: true, steps: vec![1, 2] };
    assert!(matches!(gs.tick(TickEvent::Pass { event: wrong }), TickAction::FindPath { .. }));
    let wrong = PassEvent::Seen { tiles: Vec::new() };
    assert_eq!(gs.tick(TickEvent::Pass { event: wrong }), TickAction::Nothing);
    assert_eq!(gs.ecs.runstate, RunState::AwaitingInput);
    assert!(gs.ecs.slots[0].viewshed.as_ref().unwrap().dirty);
    assert!(gs.ecs.slots[robot.id].viewshed.as_ref().unwrap().dirty);
    assert_eq!(gs.ecs.slots[robot.id].position, Some(Position { x: 9, y: 5 }));
    assert_eq!(gs.ecs.slots[robot.id].viewshed.as_ref().unwrap().visible_tiles.len(), 1);
}

#[test]
fn the_first_pass_of_a_game_lets_everybody_look() {
    let mut gs = turns_game(5, 5);
    turns_far_robot(&mut gs);
    gs.ecs.runstate = RunState::PreRun;
    let mut event = TickEvent::Nothing;
    let mut looks = 0;
    loop {
        match gs.tick(event) {
            TickAction::Look { request } => {
                looks += 1;
                event = TickEvent::Pass { event: PassEvent::Seen { tiles: vec![request.at] } };
            }
            other => {
                assert_eq!(other, TickAction::Nothing);
                break;
            }
        }
    }
    assert_eq!(looks, 2);
    assert_eq!(gs.ecs.runstate, RunState::AwaitingInput);
    for s in gs.ecs.slots.iter() {
        assert!(!s.viewshed.as_ref().unwrap().dirty);
        assert_eq!(s.viewshed.as_ref().unwrap().visible_tiles, vec![s.position.unwrap()]);
    }
    assert!(gs.ecs.map.visible_tiles[gs.ecs.map.xy_idx(5, 5)]);
    assert!(!gs.ecs.map.visible_tiles[gs.ecs.map.xy_idx(9, 5)]);
}

#[test]
fn the_dead_stay_while_a_pass_is_under_way_and_a_turn_costs_one_breath() {
    let mut gs = turns_game(5, 5);
    let robot = turns_far_robot(&mut gs);
    gs.ecs.slots[robot.id].combat_stats.as_mut().unwrap().hp.current = 0;
    gs.ecs.runstate = RunState::PlayerTurn;
    assert!(matches!(gs.tick(TickEvent::Nothing), TickAction::Look { .. }));
    assert!(gs.ecs.is_alive(robot));
    assert_eq!(gs.ecs.slots[0].breath_oxygen.as_ref().unwrap().amount, vec![1]);
    assert!(matches!(gs.tick(TickEvent::Nothing), TickAction::Look { .. }));
    assert_eq!(gs.ecs.slots[0].breath_oxygen.as_ref().unwrap().amount, vec![1]);
    assert_eq!(gs.tick(TickEvent::Nothing), TickAction::Nothing);
    assert!(!gs.ecs.is_alive(robot));
    assert_eq!(gs.ecs.runstate, RunState::MonsterTurn);
    assert_eq!(gs.ecs.slots[0].combat_stats.as_ref().unwrap().oxygen.current, 99);
    assert_eq!(gs.ecs.log.entries, vec!["Robot is dead".to_string()]);
}

#[test]
fn a_pass_without_answers_lets_the_robots_decide_and_resolves() {
    let mut gs = turns_game(5, 5);
    let robot = turns_robot(&mut gs, 6, 5);
    let far = turns_far_robot(&mut gs);
    gs.ecs.slots[far.id].viewshed.as_mut().unwrap().visible_tiles = vec![Position { x: 5, y: 5 }];
    gs.run_systems();
    assert_eq!(gs.ecs.slots[0].combat_stats.as_ref().unwrap().hp.current, 28);
    assert_eq!(gs.ecs.slots[robot.id].position, Some(Position { x: 6, y: 5 }));
    assert_eq!(gs.ecs.slots[far.id].position, Some(Position { x: 9, y: 5 }));
    assert!(gs.ecs.slots.iter().all(|s| s.wants_to_melee.is_none() && s.suffer_damage.is_none()));
    assert!(gs.ecs.slots[0].viewshed.as_ref().unwrap().dirty);
    assert_eq!(gs.ecs.runstate, RunState::MonsterTurn);
    assert_eq!(gs.ecs.pass, PassCursor::Idle);
}

#[test]
fn the_players_turn_costs_a_breath() {
    let mut gs = turns_game(5, 5);
    gs.ecs.runstate = RunState::PlayerTurn;
    gs.tick(TickEvent::Nothing);
    let stats = gs.ecs.slots[0].combat_stats.as_ref().unwrap();
    assert_eq!(stats.oxygen.current, 99);
    assert!(gs.ecs.slots[0].breath_oxygen.is_none());
    gs.ecs.runstate = RunState::MonsterTurn;
    gs.tick(TickEvent::Nothing);
    assert_eq!(gs.ecs.slots[0].combat_stats.as_ref().unwrap().oxygen.current, 99);
}

#[test]
fn commands_open_the_menus() {
    for (command, state) in [
        (Command::ShowInventory, RunState::ShowInventory),
        (Command::ShowDropItem, RunState::ShowDropItem),
        (Command::ShowRemoveItem, RunState::ShowRemoveItem),
        (Command::SaveGame, RunState::SaveGame),
        (Command::CycleTarget, RunState::AwaitingInput),
        (Command::Fire, RunState::AwaitingInput),
        (Command::Pickup, RunState::AwaitingInput),
        (Command::Hotkey { index: 0 }, RunState::AwaitingInput),
        (Command::Hotkey { index: -1 }, RunState::AwaitingInput),
    ] {
        let mut gs = turns_game(5, 5);
        turns_index(&mut gs);
        gs.tick(TickEvent::Command { command });
        assert_eq!(gs.ecs.runstate, state);
    }
}

#[test]
fn firing_without_a_target_only_says_so() {
    let mut gs = turns_game(5, 5);
    gs.tick(TickEvent::Command { command: Command::Fire });
    assert_eq!(gs.ecs.log.entries, vec!["You don't have a target selected!".to_string()]);
    assert!(gs.ecs.slots[0].wants_to_shoot.is_none());
    assert_eq!(gs.ecs.runstate, RunState::AwaitingInput);
}

#[test]
fn firing_at_the_target_is_a_turn() {
    let mut gs = turns_game(5, 5);
    let robot = turns_robot(&mut gs, 7, 5);
    gs.ecs.slots[robot.id].target = Some(Target {});
    gs.tick(TickEvent::Command { command: Command::Fire });
    assert_eq!(gs.ecs.log.entries, vec!["You fire at Robot".to_string()]);
    assert_eq!(gs.ecs.slots[0].wants_to_shoot.unwrap().target, robot);
    assert_eq!(gs.ecs.runstate, RunState::PlayerTurn);
}

#[test]
fn picking_up_nothing_only_says_so() {
    let mut gs = turns_game(5, 5);
    gs.tick(TickEvent::Command { command: Command::Pickup });
    assert_eq!(gs.ecs.log.entries, vec!["There is nothing here to pick up.".to_string()]);
    assert_eq!(gs.ecs.runstate, RunState::AwaitingInput);
}

fn turns_item(gs: &mut State, name: &str, x: i32, y: i32) -> Entity {
    let mut slot = Slot::new();
    slot.item = Some(Item {});
    slot.name = Some(Name { name: name.to_string() });
    slot.position = Some(Position { x, y });
    gs.ecs.create_entity(slot)
}

#[test]
fn picking_up_an_item_is_a_turn() {
    let mut gs = turns_game(5, 5);
    turns_item(&mut gs, "Battery", 4, 5);
    let here = turns_item(&mut gs, "Grenade", 5, 5);
    gs.tick(TickEvent::Command { command: Command::Pickup });
    assert_eq!(gs.ecs.runstate, RunState::PlayerTurn);
    assert_eq!(
        gs.ecs.slots[0].wants_to_pickup_item,
        Some(WantsToPickupItem { collected_by: Entity { id: 0 }, item: here })
    );
    gs.tick(TickEvent::Nothing);
    assert_eq!(gs.ecs.slots[here.id].in_backpack, Some(InBackpack { owner: Entity { id: 0 } }));
    assert!(gs.ecs.slots[here.id].position.is_none());
    assert_eq!(gs.ecs.log.entries, vec!["You pick up the Grenade.".to_string()]);
    assert!(gs.ecs.slots[0].wants_to_pickup_item.is_none());
}

#[test]
fn picking_up_the_artefact_as_the_player_wins() {
    let mut gs = turns_game(5, 5);
    let artefact = turns_item(&mut gs, "Artefact from Yendoria", 5, 5);
    gs.ecs.slots[artefact.id].artefact_from_yendoria = Some(ArtefactFromYendoria {});
    gs.tick(TickEvent::Command { command: Command::Pickup });
    assert_eq!(gs.ecs.runstate, RunState::GameWon);
}

#[test]
fn the_artefact_in_other_hands_does_not_win() {
    let mut gs = turns_game(5, 5);
    let robot = turns_robot(&mut gs, 8, 8);
    let artefact = turns_item(&mut gs, "Artefact from Yendoria", 8, 8);
    gs.ecs.slots[artefact.id].artefact_from_yendoria = Some(ArtefactFromYendoria {});
    gs.ecs.slots[robot.id].wants_to_pickup_item =
        Some(WantsToPickupItem { collected_by: robot, item: artefact });
    turns_item(&mut gs, "Battery", 5, 5);
    gs.tick(TickEvent::Command { command: Command::Pickup });
    assert_eq!(gs.ecs.runstate, RunState::PlayerTurn);
    assert!(!salvager::player::check_game_won(&gs.ecs));

    gs.ecs.slots[robot.id].wants_to_pickup_item =
        Some(WantsToPickupItem { collected_by: gs.ecs.player, item: artefact });
    assert!(salvager::player::check_game_won(&gs.ecs));
}

#[test]
fn a_robot_next_to_the_player_attacks_and_the_damage_is_taken_in_the_same_pass() {
    let mut gs = turns_game(5, 5);
    let robot = turns_robot(&mut gs, 6, 5);
    gs.ecs.runstate = RunState::MonsterTurn;
    let mut ai = RobotAI {};
    assert_eq!(ai.robots(&gs.ecs), vec![robot]);
    assert_eq!(ai.run(&mut gs.ecs, robot), RobotPlan::Attack);
    assert_eq!(gs.ecs.slots[robot.id].wants_to_melee, Some(WantsToMelee { target: gs.ecs.player }));

    let mut melee = salvager::melee_combat_system::MeleeCombatSystem {};
    let mut copy = turns_game(5, 5);
    let twin = turns_robot(&mut copy, 6, 5);
    copy.ecs.slots[twin.id].wants_to_melee = Some(WantsToMelee { target: copy.ecs.player });
    melee.run(&mut copy.ecs);
    assert_eq!(copy.ecs.slots[0].suffer_damage.as_ref().unwrap().amount, vec![2]);

    gs.tick(TickEvent::Nothing);
    assert_eq!(gs.ecs.slots[0].combat_stats.as_ref().unwrap().hp.current, 28);
    assert!(gs.ecs.slots[0].suffer_damage.is_none());
    assert!(gs.ecs.slots[robot.id].wants_to_melee.is_none());
    assert_eq!(gs.ecs.log.entries, vec!["Robot hits Player, for 2 hp.".to_string()]);
    assert_eq!(gs.ecs.runstate, RunState::AwaitingInput);
}

#[test]
fn robots_act_on_their_turn_only() {
    let mut gs = turns_game(5, 5);
    let robot = turns_robot(&mut gs, 6, 6);
    let mut ai = RobotAI {};
    for state in [RunState::AwaitingInput, RunState::PlayerTurn, RunState::PreRun] {
        gs.ecs.runstate = state;
        assert_eq!(ai.run(&mut gs.ecs, robot), RobotPlan::Idle);
        assert!(gs.ecs.slots[robot.id].wants_to_melee.is_none());
    }
    gs.ecs.runstate = RunState::MonsterTurn;
    let hero = gs.ecs.player;
    assert_eq!(ai.run(&mut gs.ecs, hero), RobotPlan::Idle);
    assert_eq!(ai.run(&mut gs.ecs, Entity { id: 50 }), RobotPlan::Idle);
    assert_eq!(ai.run(&mut gs.ecs, robot), RobotPlan::Attack);
}

#[test]
fn the_main_menu_starts_loads_and_quits() {
    let mut gs = turns_game(5, 5);
    gs.ecs.runstate = RunState::MainMenu { menu_selection: MainMenuSelection::NewGame };
    let hover = MainMenuResult::NoSelection { selected: MainMenuSelection::Quit };
    assert_eq!(gs.tick(TickEvent::MainMenu { result: hover }), TickAction::Nothing);
    assert_eq!(gs.ecs.runstate, RunState::MainMenu { menu_selection: MainMenuSelection::Quit });
    assert_eq!(gs.tick(TickEvent::Nothing), TickAction::Nothing);
    assert_eq!(gs.ecs.runstate, RunState::MainMenu { menu_selection: MainMenuSelection::Quit });

    let quit = MainMenuResult::Selected { selected: MainMenuSelection::Quit };
    assert_eq!(gs.tick(TickEvent::MainMenu { result: quit }), TickAction::Quit);
    assert_eq!(gs.ecs.runstate, RunState::MainMenu { menu_selection: MainMenuSelection::Quit });

    let load = MainMenuResult::Selected { selected: MainMenuSelection::LoadGame };
    assert_eq!(gs.tick(TickEvent::MainMenu { result: load }), TickAction::LoadGame);
    assert_eq!(gs.ecs.runstate, RunState::AwaitingInput);

    gs.ecs.runstate = RunState::MainMenu { menu_selection: MainMenuSelection::NewGame };
    let start = MainMenuResult::Selected { selected: MainMenuSelection::NewGame };
    assert_eq!(gs.tick(TickEvent::MainMenu { result: start }), TickAction::Nothing);
    assert_eq!(gs.ecs.runstate, RunState::PreRun);
}

#[test]
fn saving_wipes_what_lives_for_one_pass() {
    let mut gs = turns_game(5, 5);
    let robot = turns_robot(&mut gs, 7, 7);
    gs.ecs.slots[robot.id].target = Some(Target {});
    gs.ecs.slots[0].wants_to_melee = Some(WantsToMelee { target: robot });
    salvager::components::SufferDamage::new_damage(&mut gs.ecs, robot, 1);
    salvager::components::DrainEnergy::new_energy(&mut gs.ecs, robot, 1);
    salvager::components::BreathOxygen::new_breath(&mut gs.ecs, robot, 1);
    gs.ecs.runstate = RunState::SaveGame;
    assert_eq!(gs.tick(TickEvent::Nothing), TickAction::SaveGame);
    assert_eq!(gs.ecs.runstate, RunState::MainMenu { menu_selection: MainMenuSelection::LoadGame });
    let r = &gs.ecs.slots[robot.id];
    assert!(r.target.is_none() && r.suffer_damage.is_none() && r.drain_energy.is_none());
    assert!(r.breath_oxygen.is_none());
    assert!(gs.ecs.slots[0].wants_to_melee.is_none());
    assert_eq!(r.combat_stats.as_ref().unwrap().hp.current, 16);
}

#[test]
fn the_inventory_leads_to_use_or_to_targeting() {
    let mut gs = turns_game(5, 5);
    let pack = turns_item(&mut gs, "Basic Stim Pack", 0, 0);
    gs.ecs.slots[pack.id].consumable = Some(Consumable {});
    gs.ecs.slots[pack.id].provides_healing = Some(ProvidesHealing { heal_amount: 8 });
    let grenade = turns_item(&mut gs, "Grenade", 0, 0);
    gs.ecs.slots[grenade.id].ranged = Some(Ranged { range: 6 });

    gs.ecs.runstate = RunState::ShowInventory;
    gs.tick(TickEvent::ItemMenu { result: ItemMenuResult::NoResponse, item: None });
    assert_eq!(gs.ecs.runstate, RunState::ShowInventory);
    gs.tick(TickEvent::ItemMenu { result: ItemMenuResult::Selected, item: None });
    assert_eq!(gs.ecs.runstate, RunState::ShowInventory);
    gs.tick(TickEvent::ItemMenu { result: ItemMenuResult::Cancel, item: None });
    assert_eq!(gs.ecs.runstate, RunState::AwaitingInput);

    gs.ecs.runstate = RunState::ShowInventory;
    gs.tick(TickEvent::ItemMenu { result: ItemMenuResult::Selected, item: Some(grenade) });
    assert_eq!(gs.ecs.runstate, RunState::ShowTargeting { range: 6, item: grenade });
    let point = Some(Position { x: 7, y: 7 });
    gs.tick(TickEvent::Targeting { result: ItemMenuResult::Selected, point });
    assert_eq!(gs.ecs.runstate, RunState::PlayerTurn);
    let intent = gs.ecs.slots[0].wants_to_use_item.unwrap();
    assert_eq!((intent.item, intent.target), (grenade, point));

    gs.ecs.slots[0].wants_to_use_item = None;
    gs.ecs.runstate = RunState::ShowInventory;
    gs.tick(TickEvent::ItemMenu { result: ItemMenuResult::Selected, item: Some(pack) });
    assert_eq!(gs.ecs.runstate, RunState::PlayerTurn);
    let intent = gs.ecs.slots[0].wants_to_use_item.unwrap();
    assert_eq!((intent.item, intent.target), (pack, None));

    gs.ecs.runstate = RunState::ShowTargeting { range: 6, item: grenade };
    gs.tick(TickEvent::Targeting { result: ItemMenuResult::Cancel, point: None });
    assert_eq!(gs.ecs.runstate, RunState::AwaitingInput);
}

#[test]
fn the_other_menus_lead_to_dropping_and_taking_off() {
    let mut gs = turns_game(5, 5);
    let pack = turns_item(&mut gs, "Basic Stim Pack", 0, 0);
    gs.ecs.runstate = RunState::ShowDropItem;
    gs.tick(TickEvent::ItemMenu { result: ItemMenuResult::Selected, item: Some(pack) });
    assert_eq!(gs.ecs.runstate, RunState::PlayerTurn);
    assert_eq!(gs.ecs.slots[0].wants_to_drop_item.unwrap().item, pack);

    gs.ecs.runstate = RunState::ShowRemoveItem;
    gs.tick(TickEvent::ItemMenu { result: ItemMenuResult::Selected, item: Some(pack) });
    assert_eq!(gs.ecs.runstate, RunState::PlayerTurn);
    assert_eq!(gs.ecs.slots[0].wants_to_remove_item.unwrap().item, pack);

    gs.ecs.runstate = RunState::ShowDropItem;
    gs.tick(TickEvent::ItemMenu { result: ItemMenuResult::Cancel, item: None });
    assert_eq!(gs.ecs.runstate, RunState::AwaitingInput);
    gs.ecs.runstate = RunState::ShowRemoveItem;
    gs.tick(TickEvent::ItemMenu { result: ItemMenuResult::Cancel, item: None });
    assert_eq!(gs.ecs.runstate, RunState::AwaitingInput);
    gs.ecs.runstate = RunState::ShowRemoveItem;
    gs.tick(TickEvent::GameOver { result: GameOverResult::QuitToMenu });
    assert_eq!(gs.ecs.runstate, RunState::ShowRemoveItem);
}

#[test]
fn leaving_the_end_of_a_game_empties_the_world() {
    for end in [RunState::GameOver, RunState::GameWon] {
        let mut gs = turns_game(5, 5);
        turns_robot(&mut gs, 7, 7);
        gs.ecs.slots[0].combat_stats.as_mut().unwrap().hp.current = 0;
        gs.ecs.runstate = end;
        assert_eq!(gs.tick(TickEvent::GameOver { result: GameOverResult::NoSelection }), TickAction::Nothing);
        assert_eq!(gs.ecs.runstate, RunState::GameOver);
        assert!(!gs.ecs.is_alive(gs.ecs.player));
        assert!(gs.ecs.is_alive(Entity { id: 1 }));
        gs.ecs.runstate = end;
        assert_eq!(gs.tick(TickEvent::GameOver { result: GameOverResult::NoSelection }), TickAction::Nothing);
        assert_eq!(gs.ecs.runstate, end);
        assert_eq!(gs.tick(TickEvent::GameOver { result: GameOverResult::QuitToMenu }), TickAction::Restart);
        assert_eq!(gs.ecs.runstate, RunState::MainMenu { menu_selection: MainMenuSelection::NewGame });
        assert!(!gs.ecs.is_alive(Entity { id: 0 }));
        assert!(!gs.ecs.is_alive(Entity { id: 1 }));
        assert_eq!(gs.ecs.slots.len(), 2);
    }
}

fn turns_summary(gs: &State) -> Vec<(bool, Option<Position>, Option<i32>, Option<Vec<i32>>)> {
    gs.ecs
        .slots
        .iter()
        .map(|s| {
            (
                s.alive,
                s.position,
                s.combat_stats.as_ref().map(|c| c.hp.current),
                s.suffer_damage.as_ref().map(|d| d.amount.clone()),
            )
        })
        .collect()
}

fn turns_busy_game() -> State {
    let mut gs = turns_game(5, 5);
    let near = turns_robot(&mut gs, 6, 5);
    let far = turns_robot(&mut gs, 9, 9);
    gs.ecs.slots[near.id].wants_to_melee = Some(WantsToMelee { target: gs.ecs.player });
    gs.ecs.slots[0].wants_to_melee = Some(WantsToMelee { target: near });
    gs.ecs.slots[far.id].combat_stats.as_mut().unwrap().hp.current = 0;
    turns_item(&mut gs, "Battery", 5, 5);
    gs.ecs.slots[0].wants_to_pickup_item =
        Some(WantsToPickupItem { collected_by: Entity { id: 0 }, item: Entity { id: 3 } });
    gs.ecs.runstate = RunState::PlayerTurn;
    gs
}

#[test]
fn two_runs_of_a_pass_on_the_same_world_end_alike() {
    let mut first = turns_busy_game();
    let mut second = turns_busy_game();
    first.tick(TickEvent::Nothing);
    second.tick(TickEvent::Nothing);
    assert_eq!(turns_summary(&first), turns_summary(&second));
    assert_eq!(first.ecs.log.entries, second.ecs.log.entries);
    assert_eq!(first.ecs.map.blocked_tiles, second.ecs.map.blocked_tiles);
    assert_eq!(first.ecs.map.tile_content, second.ecs.map.tile_content);
    assert_eq!(first.ecs.runstate, second.ecs.runstate);
    assert_eq!(
        first.ecs.log.entries,
        vec![
            "Player hits Robot, for 4 hp.".to_string(),
            "Robot hits Player, for 2 hp.".to_string(),
            "You pick up the Battery.".to_string(),
            "Robot is dead".to_string(),
        ]
    );
}

#[test]
fn after_a_pass_every_pool_is_bounded_and_nothing_waits() {
    let mut gs = turns_busy_game();
    salvager::components::DrainEnergy::new_energy(&mut gs.ecs, Entity { id: 0 }, 4);
    salvager::components::SufferDamage::new_damage(&mut gs.ecs, Entity { id: 1 }, 100);
    gs.run_systems();
    for s in gs.ecs.slots.iter() {
        assert!(s.suffer_damage.is_none() && s.drain_energy.is_none() && s.breath_oxygen.is_none());
        if let Some(stats) = &s.combat_stats {
            for pool in [&stats.hp, &stats.energy, &stats.oxygen] {
                assert!(0 <= pool.current && pool.current <= pool.max);
            }
        }
    }
    assert_eq!(gs.ecs.slots[0].combat_stats.as_ref().unwrap().energy.current, 26);
    assert_eq!(gs.ecs.slots[1].combat_stats.as_ref().unwrap().hp.current, 0);
}

#[test]
fn damage_dealt_late_in_a_pass_waits_for_the_next() {
    let mut gs = turns_game(5, 5);
    gs.ecs.slots[0].combat_stats.as_mut().unwrap().oxygen.current = 1;
    gs.ecs.runstate = RunState::PlayerTurn;
    gs.tick(TickEvent::Nothing);
    assert_eq!(gs.ecs.slots[0].combat_stats.as_ref().unwrap().oxygen.current, 0);
    assert_eq!(gs.ecs.slots[0].combat_stats.as_ref().unwrap().hp.current, 30);
    assert_eq!(gs.ecs.slots[0].suffer_damage.as_ref().unwrap().amount, vec![1]);
    gs.tick(TickEvent::Nothing);
    assert_eq!(gs.ecs.slots[0].combat_stats.as_ref().unwrap().hp.current, 29);
    assert!(gs.ecs.slots[0].suffer_damage.is_none());
}
