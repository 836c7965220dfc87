//! What the player's commands do.

use vstd::prelude::*;
use crate::components::{
    BreathOxygen, Entity, Position, ViewshedView, WantsToMelee, WantsToPickupItem, WantsToShoot,
    WantsToUseItem,
};
use crate::gamelog::{
    fire_message, fire_text, no_target_message, no_target_text, nothing_here_message,
    nothing_here_text,
};
use crate::runstate::RunState;
use crate::state::State;
use crate::targeting::{
    aim_at, aimed_at, current_target, cycle_choice, find_target, get_player_target_list,
    keep_target, kept_target, marked_upto, next_target, target_list,
};
use crate::world::{SlotView, World, WorldView};

verus! {

/// One decoded command of the user.
#[derive(Clone, Copy, PartialEq, Eq, Structural, Debug)]
pub enum Command {
    /// No key, or a key that means nothing.
    Nothing,
    /// A step by `dx` and `dy`.
    Move { dx: i32, dy: i32 },
    Pickup,
    ShowInventory,
    ShowDropItem,
    ShowRemoveItem,
    SaveGame,
    CycleTarget,
    Fire,
    /// The use of the carried consumable with the given number, from 0.
    Hotkey { index: i32 },
}

/// Whether the player can be moved: the entity that the world names as the
/// player is marked as one, stands somewhere and can see.
pub open spec fn steerable(w: WorldView) -> bool {
    let s = w.slot(w.player);
    s.player is Some && s.position is Some && s.viewshed is Some
}

/// Whether a step by `dx` and `dy` takes the player to a tile that can be
/// entered at all: a tile of the map outside its first row and column.
pub open spec fn step_lands(w: WorldView, dx: i32, dy: i32) -> bool {
    let at = w.slot(w.player).position->0;
    steerable(w) && 1 <= at.x + dx <= w.map.width - 1 && 1 <= at.y + dy <= w.map.height - 1
}

/// The index of the tile that the step takes the player to.
pub open spec fn step_tile(w: WorldView, dx: i32, dy: i32) -> int {
    let at = w.slot(w.player).position->0;
    w.map.xy_idx(at.x + dx, at.y + dy)
}

/// The first among the first `n` of `content` that has statistics, and so
/// can be fought.
pub open spec fn first_foe(w: WorldView, content: Seq<Entity>, n: nat) -> Option<Entity>
    decreases n,
{
    if n == 0 {
        None
    } else {
        match first_foe(w, content, (n - 1) as nat) {
            Some(e) => Some(e),
            None => if w.slot(content[n - 1]).combat_stats is Some {
                Some(content[n - 1])
            } else {
                None
            },
        }
    }
}

/// Whom the step makes the player attack, if anybody.
pub open spec fn step_foe(w: WorldView, dx: i32, dy: i32) -> Option<Entity> {
    let content = w.map.tile_content[step_tile(w, dx, dy)];
    first_foe(w, content, content.len())
}

/// Whether the step does anything: it lands, and either somebody stands
/// there to be attacked or the tile is not blocked.
pub open spec fn step_acts(w: WorldView, dx: i32, dy: i32) -> bool {
    step_lands(w, dx, dy) && (step_foe(w, dx, dy) is Some || !w.map.blocked_tiles[step_tile(
        w,
        dx,
        dy,
    )])
}

/// The world after the player tries to step by `dx` and `dy`.
///
/// A step that does not land, or that leads onto a blocked tile where
/// nobody can be fought, changes nothing. Where somebody on the tile can be
/// fought, the player now wants to hit the first such. Otherwise the player
/// stands on the tile, and what it saw is out of date.
pub open spec fn stepped(w: WorldView, dx: i32, dy: i32) -> WorldView {
    let s = w.slot(w.player);
    if !step_acts(w, dx, dy) {
        w
    } else if step_foe(w, dx, dy) is Some {
        w.with_slot(
            w.player.id as int,
            SlotView { wants_to_melee: Some(WantsToMelee { target: step_foe(w, dx, dy)->0 }), ..s },
        )
    } else {
        let to = Position { x: (s.position->0.x + dx) as i32, y: (s.position->0.y + dy) as i32 };
        WorldView {
            player_pos: to,
            ..w.with_slot(
                w.player.id as int,
                SlotView {
                    position: Some(to),
                    viewshed: Some(ViewshedView { dirty: true, ..s.viewshed->0 }),
                    ..s
                },
            )
        }
    }
}

fn find_foe(ecs: &World, content: &Vec<Entity>) -> (foe: Option<Entity>)
    ensures
        foe == first_foe(ecs@, content@, content@.len()),
{
    let mut k: usize = 0;
    while k < content.len()
        invariant
            k <= content.len(),
            first_foe(ecs@, content@, k as nat) is None,
        decreases content.len() - k,
    {
        let e = content[k];
        if e.id < ecs.slots.len() && ecs.slots[e.id].combat_stats.is_some() {
            proof {
                lemma_first_foe_stays(ecs@, content@, (k + 1) as nat, content@.len());
            }
            return Some(e);
        }
        k = k + 1;
    }
    None
}

/// Once a foe is found, looking further does not change who it is.
pub proof fn lemma_first_foe_stays(w: WorldView, content: Seq<Entity>, n: nat, m: nat)
    requires
        n <= m,
        first_foe(w, content, n) is Some,
    ensures
        first_foe(w, content, m) == first_foe(w, content, n),
    decreases m,
{
    if n < m {
        lemma_first_foe_stays(w, content, n, (m - 1) as nat);
    }
}

/// Lets the player try to step by `delta_x` and `delta_y`, and says whether
/// that did anything.
pub fn try_move_player(delta_x: i32, delta_y: i32, ecs: &mut World) -> (acted: bool)
    requires
        old(ecs).wf(),
    ensures
        final(ecs).wf(),
        acted == step_acts(old(ecs)@, delta_x, delta_y),
        final(ecs)@ == stepped(old(ecs)@, delta_x, delta_y),
{
    if ecs.player.id >= ecs.slots.len() {
        return false;
    }
    let at: Position;
    {
        let s = &ecs.slots[ecs.player.id];
        match (s.player, s.position, &s.viewshed) {
            (Some(_), Some(p), Some(_)) => {
                at = p;
            },
            _ => {
                return false;
            },
        }
    }
    let x: i64 = at.x as i64 + delta_x as i64;
    let y: i64 = at.y as i64 + delta_y as i64;
    if x < 1 || x > ecs.map.width as i64 - 1 || y < 1 || y > ecs.map.height as i64 - 1 {
        return false;
    }
    let to = Position { x: x as i32, y: y as i32 };
    let idx = ecs.map.xy_idx(to.x, to.y);
    assert(ecs@.map.tile_content[idx as int] == ecs.map.tile_content@[idx as int]@);
    let foe = find_foe(ecs, &ecs.map.tile_content[idx]);
    match foe {
        Some(target) => {
            ecs.slots[ecs.player.id].wants_to_melee = Some(WantsToMelee { target });
            assert(ecs@.slots =~= stepped(old(ecs)@, delta_x, delta_y).slots);
            true
        },
        None => {
            if !ecs.map.blocked_tiles[idx] {
                let s = &mut ecs.slots[ecs.player.id];
                s.position = Some(to);
                match &mut s.viewshed {
                    Some(viewshed) => {
                        viewshed.dirty = true;
                    },
                    None => {},
                }
                ecs.player_pos = to;
                assert(ecs@.slots =~= stepped(old(ecs)@, delta_x, delta_y).slots);
                true
            } else {
                false
            }
        },
    }
}

/// Whether the entity in the slot is an item that lies at `at`.
pub open spec fn lies_at(s: SlotView, at: Position) -> bool {
    s.item is Some && s.position == Some(at)
}

/// The item among the first `n` slots that lies where the player stands:
/// the last of them, should there be several.
pub open spec fn item_here(w: WorldView, n: nat) -> Option<Entity>
    decreases n,
{
    if n == 0 {
        None
    } else if lies_at(w.slots[n - 1], w.player_pos) {
        Some(Entity { id: (n - 1) as usize })
    } else {
        item_here(w, (n - 1) as nat)
    }
}

/// Whether the player picks something up: an item lies where it stands,
/// and the player is alive to want it.
pub open spec fn picks_up(w: WorldView) -> bool {
    item_here(w, w.slots.len()) is Some && w.alive(w.player)
}

/// The world after the player reaches for what lies where it stands: it
/// now wants to pick the item up; with nothing there, the log says so.
pub open spec fn reached_for(w: WorldView) -> WorldView {
    match item_here(w, w.slots.len()) {
        None => w.logged(nothing_here_text()),
        Some(item) => if w.alive(w.player) {
            w.with_slot(
                w.player.id as int,
                SlotView {
                    wants_to_pickup_item: Some(
                        WantsToPickupItem { collected_by: w.player, item },
                    ),
                    ..w.slot(w.player)
                },
            )
        } else {
            w
        },
    }
}

/// Lets the player reach for what lies where it stands, and says whether
/// it now wants to pick something up.
pub fn get_item(ecs: &mut World) -> (found: bool)
    ensures
        found == picks_up(old(ecs)@),
        final(ecs)@ == reached_for(old(ecs)@),
{
    let mut target_item: Option<Entity> = None;
    let mut i: usize = 0;
    while i < ecs.slots.len()
        invariant
            i <= ecs.slots.len(),
            ecs@ == old(ecs)@,
            target_item == item_here(ecs@, i as nat),
        decreases ecs.slots.len() - i,
    {
        let s = &ecs.slots[i];
        match (s.item, s.position) {
            (Some(_), Some(p)) => {
                if p == ecs.player_pos {
                    target_item = Some(Entity { id: i });
                }
            },
            _ => {},
        }
        i = i + 1;
    }
    match target_item {
        None => {
            ecs.log.push(nothing_here_message());
            false
        },
        Some(item) => {
            if ecs.is_alive(ecs.player) {
                let player = ecs.player;
                ecs.slots[player.id].wants_to_pickup_item = Some(
                    WantsToPickupItem { collected_by: player, item },
                );
                assert(ecs@.slots =~= reached_for(old(ecs)@).slots);
                true
            } else {
                false
            }
        },
    }
}

/// Whether the entity in the slot wants to pick up, for the player, the
/// item whose retrieval wins the game.
pub open spec fn takes_artefact(w: WorldView, s: SlotView) -> bool {
    s.wants_to_pickup_item is Some && s.wants_to_pickup_item->0.collected_by == w.player && w.slot(
        s.wants_to_pickup_item->0.item,
    ).artefact_from_yendoria is Some
}

/// Whether the game is won: somebody is about to pick up the artefact for
/// the player.
pub open spec fn game_won(w: WorldView) -> bool {
    exists|j: int| 0 <= j < w.slots.len() && takes_artefact(w, #[trigger] w.slots[j])
}

/// Says whether the game is won.
pub fn check_game_won(ecs: &World) -> (won: bool)
    ensures
        won == game_won(ecs@),
{
    let mut i: usize = 0;
    while i < ecs.slots.len()
        invariant
            i <= ecs.slots.len(),
            forall|j: int| 0 <= j < i ==> !takes_artefact(ecs@, #[trigger] ecs@.slots[j]),
        decreases ecs.slots.len() - i,
    {
        match ecs.slots[i].wants_to_pickup_item {
            Some(pickup) => {
                if pickup.collected_by == ecs.player && pickup.item.id < ecs.slots.len()
                    && ecs.slots[pickup.item.id].artefact_from_yendoria.is_some() {
                    assert(takes_artefact(ecs@, ecs@.slots[i as int]));
                    return true;
                }
            },
            None => {},
        }
        i = i + 1;
    }
    false
}

/// The consumables among the first `n` slots that the player carries, in
/// the order of the slots.
pub open spec fn carried_consumables(w: WorldView, n: nat) -> Seq<Entity>
    decreases n,
{
    if n == 0 {
        Seq::empty()
    } else {
        let s = w.slots[n - 1];
        if s.in_backpack is Some && s.in_backpack->0.owner == w.player && s.consumable is Some {
            carried_consumables(w, (n - 1) as nat).push(Entity { id: (n - 1) as usize })
        } else {
            carried_consumables(w, (n - 1) as nat)
        }
    }
}

/// The phase that follows the use of the hotkey `key`.
///
/// A key that names none of the carried consumables leaves the game
/// waiting for input. A consumable that needs a target point leads to
/// targeting. Any other is used on the spot, which is the player's turn.
pub open spec fn hotkey_state(w: WorldView, key: i32) -> RunState {
    let carried = carried_consumables(w, w.slots.len());
    if 0 <= key < carried.len() {
        let item = carried[key as int];
        if w.slot(item).ranged is Some {
            RunState::ShowTargeting { range: w.slot(item).ranged->0.range, item }
        } else if w.alive(w.player) {
            RunState::PlayerTurn
        } else {
            RunState::AwaitingInput
        }
    } else {
        RunState::AwaitingInput
    }
}

/// The world after the use of the hotkey `key`: where it names a carried
/// consumable that needs no target point, the player now wants to use
/// that.
pub open spec fn hotkey_used(w: WorldView, key: i32) -> WorldView {
    let carried = carried_consumables(w, w.slots.len());
    if 0 <= key < carried.len() && w.slot(carried[key as int]).ranged is None && w.alive(w.player) {
        w.with_slot(
            w.player.id as int,
            SlotView {
                wants_to_use_item: Some(WantsToUseItem { item: carried[key as int], target: None }),
                ..w.slot(w.player)
            },
        )
    } else {
        w
    }
}

/// Uses the carried consumable with the number `key`, and returns the
/// phase that follows.
pub fn use_consumable_hotkey(gs: &mut State, key: i32) -> (next: RunState)
    ensures
        next == hotkey_state(old(gs).ecs@, key),
        final(gs).ecs@ == hotkey_used(old(gs).ecs@, key),
{
    let mut carried: Vec<Entity> = Vec::new();
    let mut i: usize = 0;
    while i < gs.ecs.slots.len()
        invariant
            i <= gs.ecs.slots.len(),
            gs.ecs@ == old(gs).ecs@,
            carried@ == carried_consumables(gs.ecs@, i as nat),
        decreases gs.ecs.slots.len() - i,
    {
        let s = &gs.ecs.slots[i];
        match (s.in_backpack, s.consumable) {
            (Some(held), Some(_)) => {
                if held.owner == gs.ecs.player {
                    carried.push(Entity { id: i });
                }
            },
            _ => {},
        }
        i = i + 1;
    }
    if key < 0 || key as usize >= carried.len() {
        return RunState::AwaitingInput;
    }
    let item = carried[key as usize];
    let ranged = if item.id < gs.ecs.slots.len() {
        gs.ecs.slots[item.id].ranged
    } else {
        None
    };
    match ranged {
        Some(r) => RunState::ShowTargeting { range: r.range, item },
        None => {
            if gs.ecs.is_alive(gs.ecs.player) {
                let player = gs.ecs.player;
                gs.ecs.slots[player.id].wants_to_use_item = Some(
                    WantsToUseItem { item, target: None },
                );
                assert(gs.ecs@.slots =~= hotkey_used(old(gs).ecs@, key).slots);
                RunState::PlayerTurn
            } else {
                RunState::AwaitingInput
            }
        },
    }
}

/// The world after the turn's look at the targets: the mark stays on the
/// current target while that can still be shot at, and goes to the nearest
/// otherwise.
pub open spec fn retargeted(w: WorldView) -> WorldView {
    aimed_at(w, kept_target(target_list(w), current_target(w)))
}

/// Puts the mark where it belongs at the end of a turn.
pub fn end_turn_targeting(ecs: &mut World)
    requires
        old(ecs).wf(),
    ensures
        final(ecs).wf(),
        final(ecs)@ == retargeted(old(ecs)@),
{
    let possible_targets = get_player_target_list(ecs);
    let last_target = find_target(ecs);
    let choice = keep_target(&possible_targets, last_target);
    aim_at(ecs, choice);
}

/// The world after the player cycles through the targets.
pub open spec fn cycled(w: WorldView) -> WorldView {
    aimed_at(w, next_target(target_list(w), current_target(w)))
}

/// Moves the mark to the next of the targets.
pub fn cycle_target(ecs: &mut World)
    requires
        old(ecs).wf(),
    ensures
        final(ecs).wf(),
        final(ecs)@ == cycled(old(ecs)@),
{
    let possible_targets = get_player_target_list(ecs);
    let current = find_target(ecs);
    let choice = cycle_choice(&possible_targets, current);
    aim_at(ecs, choice);
}

/// Whether the player fires: somebody carries the mark.
pub open spec fn fires(w: WorldView) -> bool {
    current_target(w) is Some
}

/// The world after the player pulls the trigger.
///
/// With a target marked, the log tells of the shot, where the target has a
/// name, and the player, if alive, now wants to shoot the target. With
/// none, the log says so and nothing else changes.
pub open spec fn fired(w: WorldView) -> WorldView {
    match current_target(w) {
        Some(target) => {
            let told = if w.slot(target).name is Some {
                w.logged(fire_text(w.slot(target).name->0))
            } else {
                w
            };
            if told.alive(w.player) {
                told.with_slot(
                    w.player.id as int,
                    SlotView { wants_to_shoot: Some(WantsToShoot { target }), ..told.slot(w.player) },
                )
            } else {
                told
            }
        },
        None => w.logged(no_target_text()),
    }
}

/// Lets the player shoot at the marked target, and says whether there was
/// one.
pub fn fire_on_target(ecs: &mut World) -> (shot: bool)
    ensures
        shot == fires(old(ecs)@),
        final(ecs)@ == fired(old(ecs)@),
{
    match find_target(ecs) {
        Some(target) => {
            assert(target.id < ecs.slots.len()) by {
                lemma_marked_in_range(ecs@.slots, ecs@.slots.len());
            }
            let message = match &ecs.slots[target.id].name {
                Some(name) => Some(fire_message(&name.name)),
                None => None,
            };
            match message {
                Some(m) => {
                    ecs.log.push(m);
                },
                None => {},
            }
            if ecs.is_alive(ecs.player) {
                let player = ecs.player;
                let ghost told = ecs@;
                ecs.slots[player.id].wants_to_shoot = Some(WantsToShoot { target });
                assert(ecs@.slots =~= told.with_slot(
                    player.id as int,
                    SlotView { wants_to_shoot: Some(WantsToShoot { target }), ..told.slot(player) },
                ).slots);
            }
            true
        },
        None => {
            ecs.log.push(no_target_message());
            false
        },
    }
}

/// Who carries the mark is an entity of the arena.
pub proof fn lemma_marked_in_range(slots: Seq<SlotView>, n: nat)
    requires
        n <= slots.len(),
    ensures
        marked_upto(slots, n) is Some ==> marked_upto(slots, n)->0.id
            < n,
    decreases n,
{
    if n > 0 {
        lemma_marked_in_range(slots, (n - 1) as nat);
    }
}

/// Puts down the oxygen that the player uses up in one turn.
pub fn end_turn_breathing(ecs: &mut World)
    ensures
        final(ecs)@ == old(ecs)@.breathing(old(ecs)@.player, 1),
{
    let player = ecs.player;
    BreathOxygen::new_breath(ecs, player, 1)
}

/// The phase that follows the command `command` given while the game
/// awaits input.
///
/// A command that opens a menu or saves leads there. A step, a shot, the
/// picking up of an item or the use of a hotkey is the player's turn where
/// it did anything, and leaves the game waiting where it did not; picking
/// up the artefact wins the game. Cycling through the targets takes no
/// turn.
pub open spec fn input_state(w: WorldView, command: Command) -> RunState {
    match command {
        Command::Nothing => RunState::AwaitingInput,
        Command::Move { dx, dy } => if step_acts(w, dx, dy) {
            RunState::PlayerTurn
        } else {
            RunState::AwaitingInput
        },
        Command::Pickup => if game_won(reached_for(w)) {
            RunState::GameWon
        } else if picks_up(w) {
            RunState::PlayerTurn
        } else {
            RunState::AwaitingInput
        },
        Command::ShowInventory => RunState::ShowInventory,
        Command::ShowDropItem => RunState::ShowDropItem,
        Command::ShowRemoveItem => RunState::ShowRemoveItem,
        Command::SaveGame => RunState::SaveGame,
        Command::CycleTarget => RunState::AwaitingInput,
        Command::Fire => if fires(w) {
            RunState::PlayerTurn
        } else {
            RunState::AwaitingInput
        },
        Command::Hotkey { index } => hotkey_state(w, index),
    }
}

/// The world after the command `command` given while the game awaits
/// input.
pub open spec fn input_world(w: WorldView, command: Command) -> WorldView {
    match command {
        Command::Move { dx, dy } => stepped(w, dx, dy),
        Command::Pickup => reached_for(w),
        Command::CycleTarget => cycled(w),
        Command::Fire => fired(w),
        Command::Hotkey { index } => hotkey_used(w, index),
        _ => w,
    }
}

/// Carries out one command of the user, and returns the phase that follows.
pub fn player_input(gs: &mut State, command: Command) -> (next: RunState)
    requires
        old(gs).ecs.wf(),
    ensures
        final(gs).ecs.wf(),
        next == input_state(old(gs).ecs@, command),
        final(gs).ecs@ == input_world(old(gs).ecs@, command),
{
    match command {
        Command::Nothing => RunState::AwaitingInput,
        Command::Move { dx, dy } => {
            if try_move_player(dx, dy, &mut gs.ecs) {
                RunState::PlayerTurn
            } else {
                RunState::AwaitingInput
            }
        },
        Command::Pickup => {
            let found = get_item(&mut gs.ecs);
            if check_game_won(&gs.ecs) {
                RunState::GameWon
            } else if found {
                RunState::PlayerTurn
            } else {
                RunState::AwaitingInput
            }
        },
        Command::ShowInventory => RunState::ShowInventory,
        Command::ShowDropItem => RunState::ShowDropItem,
        Command::ShowRemoveItem => RunState::ShowRemoveItem,
        Command::SaveGame => RunState::SaveGame,
        Command::CycleTarget => {
            cycle_target(&mut gs.ecs);
            RunState::AwaitingInput
        },
        Command::Fire => {
            if fire_on_target(&mut gs.ecs) {
                RunState::PlayerTurn
            } else {
                RunState::AwaitingInput
            }
        },
        Command::Hotkey { index } => use_consumable_hotkey(gs, index),
    }
}

} // verus!
