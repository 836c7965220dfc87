//! The phases of the game, and what the menus hand back.

use vstd::prelude::*;
use crate::components::Entity;

verus! {

#[derive(Clone, Copy, PartialEq, Eq, Structural, Debug)]
pub enum MainMenuSelection {
    NewGame,
    LoadGame,
    Quit,
}

#[derive(Clone, Copy, PartialEq, Eq, Structural, Debug)]
pub enum MainMenuResult {
    NoSelection { selected: MainMenuSelection },
    Selected { selected: MainMenuSelection },
}

#[derive(Clone, Copy, PartialEq, Eq, Structural, Debug)]
pub enum ItemMenuResult {
    Cancel,
    NoResponse,
    Selected,
}

#[derive(Clone, Copy, PartialEq, Eq, Structural, Debug)]
pub enum GameOverResult {
    NoSelection,
    QuitToMenu,
}

/// Where a pass of the systems stands: not begun, or waiting to hear what
/// the entity in a slot sees, or which path was found for the robot in a
/// slot.
#[derive(Clone, Copy, PartialEq, Eq, Structural, Debug)]
pub enum PassCursor {
    Idle,
    Looking { viewer: usize },
    Walking { robot: usize },
}

/// The phase that the game is in.
#[derive(Clone, Copy, PartialEq, Eq, Structural, Debug)]
pub enum RunState {
    AwaitingInput,
    PreRun,
    PlayerTurn,
    MonsterTurn,
    ShowInventory,
    ShowDropItem,
    ShowRemoveItem,
    ShowTargeting { range: i32, item: Entity },
    MainMenu { menu_selection: MainMenuSelection },
    SaveGame,
    GameOver,
    GameWon,
}

} // verus!
