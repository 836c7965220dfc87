//! The turn-resolution core of a grid-world roguelike: an entity store, a
//! tile map, and the systems that resolve one turn on them.

pub mod camera;
pub mod combat;
pub mod components;
pub mod damage_system;
pub mod energy_system;
pub mod gamelog;
pub mod inventory_system;
pub mod item_use;
pub mod item_use_system;
pub mod laws;
pub mod map;
pub mod map_indexing_system;
pub mod melee_combat_system;
pub mod outside;
pub mod pass;
pub mod oxygen_system;
pub mod player;
pub mod ranged_combat_system;
pub mod robot_ai_system;
pub mod runstate;
pub mod sorting;
pub mod spawner;
pub mod state;
pub mod targeting;
pub mod visibility_system;
pub mod world;

pub use camera::{get_screen_bounds, render_camera, Cell, Paint};
pub use components::{
    AreaOfEffect, ArtefactFromYendoria, BlocksTile, BreathOxygen, Colour, CombatStats,
    Confusion, Consumable, DrainEnergy, Entity, EquipmentSlot, Equippable, Equipped,
    InBackpack, InflictsDamage, Item, MeleePowerBonus, Name, Player, Pool, Position,
    ProvidesEnergy, ProvidesHealing, ProvidesOxygen, Ranged, RangedWeapon, Renderable, Robot,
    SerializeMe, SufferDamage, Target, Viewshed, WantsToDropItem, WantsToMelee,
    WantsToPickupItem, WantsToRemoveItem, WantsToShoot, WantsToUseItem,
};
pub use damage_system::{delete_the_dead, DamageSystem};
pub use energy_system::EnergySystem;
pub use gamelog::GameLog;
pub use inventory_system::{ItemCollectionSystem, ItemDropSystem, ItemRemoveSystem};
pub use item_use_system::StimPackUseSystem;
pub use map::{GameMap, Rect, SerializationHelper, TileType};
pub use map_indexing_system::MapIndexingSystem;
pub use melee_combat_system::MeleeCombatSystem;
pub use oxygen_system::OxygenSystem;
pub use pass::{PassAction, PassEvent};
pub use player::{
    end_turn_breathing, end_turn_targeting, player_input, try_move_player, Command,
};
pub use ranged_combat_system::RangedCombatSystem;
pub use robot_ai_system::{RobotAI, RobotPlan};
pub use runstate::{
    GameOverResult, ItemMenuResult, MainMenuResult, MainMenuSelection, PassCursor, RunState,
};
pub use state::{State, TickAction, TickEvent};
pub use visibility_system::{ViewRequest, VisibilitySystem};
pub use world::{Slot, Transient, World};
