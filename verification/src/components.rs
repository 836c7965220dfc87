//! The records that can be attached to an entity, and the views under which
//! contracts speak of them.

use vstd::prelude::*;

verus! {

/// The identity of an entity: its index in the world's arena. Indices are
/// handed out once and never reused.
#[derive(Clone, Copy, PartialEq, Eq, Structural, Debug, Hash)]
pub struct Entity {
    pub id: usize,
}

/// A grid coordinate.
#[derive(Clone, Copy, PartialEq, Eq, Structural, Debug, Hash)]
pub struct Position {
    pub x: i32,
    pub y: i32,
}

/// A colour, as red, green and blue.
#[derive(Clone, Copy, PartialEq, Eq, Structural, Debug)]
pub struct Colour {
    pub r: u8,
    pub g: u8,
    pub b: u8,
}

/// How an entity is drawn.
#[derive(Clone, Copy, PartialEq, Eq, Structural, Debug)]
pub struct Renderable {
    pub glyph: u16,
    pub fg: Colour,
    pub bg: Colour,
    pub render_order: i32,
}

/// Marks the entity that the user steers.
#[derive(Clone, Copy, PartialEq, Eq, Structural, Debug)]
pub struct Player {}

/// What an entity currently sees.
#[derive(Clone, Debug)]
pub struct Viewshed {
    pub visible_tiles: Vec<Position>,
    pub range: i32,
    pub dirty: bool,
}

pub struct ViewshedView {
    pub visible_tiles: Seq<Position>,
    pub range: i32,
    pub dirty: bool,
}

impl View for Viewshed {
    type V = ViewshedView;

    open spec fn view(&self) -> ViewshedView {
        ViewshedView { visible_tiles: self.visible_tiles@, range: self.range, dirty: self.dirty }
    }
}

/// Marks an adversary.
#[derive(Clone, Copy, PartialEq, Eq, Structural, Debug)]
pub struct Robot {}

#[derive(Clone, Debug)]
pub struct Name {
    pub name: String,
}

impl View for Name {
    type V = Seq<char>;

    open spec fn view(&self) -> Seq<char> {
        self.name@
    }
}

/// Marks an entity that other entities cannot walk through.
#[derive(Clone, Copy, PartialEq, Eq, Structural, Debug)]
pub struct BlocksTile {}

/// A bounded resource.
#[derive(Clone, Debug)]
pub struct Pool {
    pub max: i32,
    pub current: i32,
    pub name: String,
}

pub struct PoolView {
    pub max: i32,
    pub current: i32,
    pub name: Seq<char>,
}

impl PoolView {
    /// The pool holds between nothing and its maximum.
    pub open spec fn bounded(self) -> bool {
        0 <= self.current <= self.max
    }
}

impl View for Pool {
    type V = PoolView;

    open spec fn view(&self) -> PoolView {
        PoolView { max: self.max, current: self.current, name: self.name@ }
    }
}

#[derive(Clone, Debug)]
pub struct CombatStats {
    pub hp: Pool,
    pub energy: Pool,
    pub oxygen: Pool,
    pub defense: i32,
    pub power: i32,
}

pub struct CombatStatsView {
    pub hp: PoolView,
    pub energy: PoolView,
    pub oxygen: PoolView,
    pub defense: i32,
    pub power: i32,
}

impl CombatStatsView {
    /// Each of the three pools is bounded.
    pub open spec fn bounded(self) -> bool {
        self.hp.bounded() && self.energy.bounded() && self.oxygen.bounded()
    }
}

impl View for CombatStats {
    type V = CombatStatsView;

    open spec fn view(&self) -> CombatStatsView {
        CombatStatsView {
            hp: self.hp@,
            energy: self.energy@,
            oxygen: self.oxygen@,
            defense: self.defense,
            power: self.power,
        }
    }
}

#[derive(Clone, Copy, PartialEq, Eq, Structural, Debug)]
pub struct WantsToMelee {
    pub target: Entity,
}

/// Damage waiting to be taken, in the order in which it was dealt.
#[derive(Clone, Debug)]
pub struct SufferDamage {
    pub amount: Vec<i32>,
}

impl View for SufferDamage {
    type V = Seq<i32>;

    open spec fn view(&self) -> Seq<i32> {
        self.amount@
    }
}

/// Energy waiting to be drained.
#[derive(Clone, Debug)]
pub struct DrainEnergy {
    pub amount: Vec<i32>,
}

impl View for DrainEnergy {
    type V = Seq<i32>;

    open spec fn view(&self) -> Seq<i32> {
        self.amount@
    }
}

/// Oxygen waiting to be breathed.
#[derive(Clone, Debug)]
pub struct BreathOxygen {
    pub amount: Vec<i32>,
}

impl View for BreathOxygen {
    type V = Seq<i32>;

    open spec fn view(&self) -> Seq<i32> {
        self.amount@
    }
}

#[derive(Clone, Copy, PartialEq, Eq, Structural, Debug)]
pub struct Item {}

#[derive(Clone, Copy, PartialEq, Eq, Structural, Debug)]
pub struct ProvidesHealing {
    pub heal_amount: i32,
}

#[derive(Clone, Copy, PartialEq, Eq, Structural, Debug)]
pub struct InBackpack {
    pub owner: Entity,
}

#[derive(Clone, Copy, PartialEq, Eq, Structural, Debug)]
pub struct WantsToPickupItem {
    pub collected_by: Entity,
    pub item: Entity,
}

#[derive(Clone, Copy, PartialEq, Eq, Structural, Debug)]
pub struct WantsToUseItem {
    pub item: Entity,
    pub target: Option<Position>,
}

#[derive(Clone, Copy, PartialEq, Eq, Structural, Debug)]
pub struct WantsToDropItem {
    pub item: Entity,
}

#[derive(Clone, Copy, PartialEq, Eq, Structural, Debug)]
pub struct Consumable {}

#[derive(Clone, Copy, PartialEq, Eq, Structural, Debug)]
pub struct Ranged {
    pub range: i32,
}

#[derive(Clone, Copy, PartialEq, Eq, Structural, Debug)]
pub struct InflictsDamage {
    pub damage: i32,
}

#[derive(Clone, Copy, PartialEq, Eq, Structural, Debug)]
pub struct AreaOfEffect {
    pub radius: i32,
}

#[derive(Clone, Copy, PartialEq, Eq, Structural, Debug)]
pub struct Confusion {
    pub turns: i32,
}

/// Marks an entity that belongs in a saved game.
#[derive(Clone, Copy, PartialEq, Eq, Structural, Debug)]
pub struct SerializeMe;

#[derive(Clone, Copy, PartialEq, Eq, Structural, Debug)]
pub enum EquipmentSlot {
    Weapon,
}

#[derive(Clone, Copy, PartialEq, Eq, Structural, Debug)]
pub struct Equippable {
    pub slot: EquipmentSlot,
}

#[derive(Clone, Copy, PartialEq, Eq, Structural, Debug)]
pub struct Equipped {
    pub owner: Entity,
    pub slot: EquipmentSlot,
}

#[derive(Clone, Copy, PartialEq, Eq, Structural, Debug)]
pub struct MeleePowerBonus {
    pub power: i32,
}

#[derive(Clone, Copy, PartialEq, Eq, Structural, Debug)]
pub struct RangedWeapon {
    pub range: i32,
    pub damage: i32,
}

#[derive(Clone, Copy, PartialEq, Eq, Structural, Debug)]
pub struct WantsToRemoveItem {
    pub item: Entity,
}

/// Marks the entity that the player aims at.
#[derive(Clone, Copy, PartialEq, Eq, Structural, Debug)]
pub struct Target {}

#[derive(Clone, Copy, PartialEq, Eq, Structural, Debug)]
pub struct WantsToShoot {
    pub target: Entity,
}

#[derive(Clone, Copy, PartialEq, Eq, Structural, Debug)]
pub struct ProvidesOxygen {
    pub oxygen_amount: i32,
}

#[derive(Clone, Copy, PartialEq, Eq, Structural, Debug)]
pub struct ProvidesEnergy {
    pub energy_amount: i32,
}

/// Marks the item whose retrieval wins the game.
#[derive(Clone, Copy, PartialEq, Eq, Structural, Debug)]
pub struct ArtefactFromYendoria {}

/// The sum of a list of amounts.
pub open spec fn total(amounts: Seq<i32>) -> int
    decreases amounts.len(),
{
    if amounts.len() == 0 {
        0
    } else {
        total(amounts.drop_last()) + amounts.last()
    }
}

/// Adds up a list of amounts. The sum of any list that fits in memory fits
/// in the result.
pub fn sum_amounts(amounts: &Vec<i32>) -> (sum: i128)
    ensures
        sum == total(amounts@),
{
    let mut sum: i128 = 0;
    let mut i: usize = 0;
    while i < amounts.len()
        invariant
            i <= amounts.len(),
            sum == total(amounts@.take(i as int)),
            -(i as int) * 0x8000_0000 <= sum <= (i as int) * 0x8000_0000,
        decreases amounts.len() - i,
    {
        assert(amounts@.take(i + 1).drop_last() =~= amounts@.take(i as int));
        assert((i as int + 1) * 0x8000_0000 == (i as int) * 0x8000_0000 + 0x8000_0000) by (nonlinear_arith);
        assert((i as int) * 0x8000_0000 <= 0x1_0000_0000_0000_0000 * 0x8000_0000) by (nonlinear_arith)
            requires i <= 0x1_0000_0000_0000_0000;
        sum = sum + amounts[i] as i128;
        i = i + 1;
    }
    assert(amounts@.take(i as int) =~= amounts@);
    sum
}

/// Brings a number into the range of `i32`.
pub open spec fn saturate(n: int) -> int {
    if n < i32::MIN {
        i32::MIN as int
    } else if n > i32::MAX {
        i32::MAX as int
    } else {
        n
    }
}

pub fn saturating(n: i128) -> (r: i32)
    ensures
        r == saturate(n as int),
{
    if n < -0x8000_0000 {
        i32::MIN
    } else if n > 0x7fff_ffff {
        i32::MAX
    } else {
        n as i32
    }
}

} // verus!
