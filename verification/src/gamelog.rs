//! The scrolling log of messages, and the wording of each message.

use vstd::prelude::*;

verus! {

pub struct GameLog {
    pub entries: Vec<String>,
}

impl View for GameLog {
    type V = Seq<Seq<char>>;

    open spec fn view(&self) -> Seq<Seq<char>> {
        Seq::new(self.entries@.len(), |i: int| self.entries@[i]@)
    }
}

impl GameLog {
    /// An empty log.
    pub fn new() -> (log: GameLog)
        ensures
            log@ == Seq::<Seq<char>>::empty(),
    {
        let log = GameLog { entries: Vec::new() };
        assert(log@ =~= Seq::<Seq<char>>::empty());
        log
    }

    /// Appends one message.
    pub fn push(&mut self, message: String)
        ensures
            final(self)@ == old(self)@.push(message@),
    {
        self.entries.push(message);
        assert(self@ =~= old(self)@.push(message@));
    }
}

/// The text of one decimal digit.
pub open spec fn digit_text(d: int) -> Seq<char> {
    if d == 0 {
        "0"@
    } else if d == 1 {
        "1"@
    } else if d == 2 {
        "2"@
    } else if d == 3 {
        "3"@
    } else if d == 4 {
        "4"@
    } else if d == 5 {
        "5"@
    } else if d == 6 {
        "6"@
    } else if d == 7 {
        "7"@
    } else if d == 8 {
        "8"@
    } else {
        "9"@
    }
}

/// A natural number in decimal, without leading zeros.
pub open spec fn natural_text(n: nat) -> Seq<char>
    decreases n,
{
    if n < 10 {
        digit_text(n as int)
    } else {
        natural_text(n / 10) + digit_text((n % 10) as int)
    }
}

/// A number in decimal, with a minus sign where it is negative.
pub open spec fn number_text(i: int) -> Seq<char> {
    if i < 0 {
        "-"@ + natural_text((-i) as nat)
    } else {
        natural_text(i as nat)
    }
}

fn digit(d: u32) -> (s: &'static str)
    requires
        d < 10,
    ensures
        s@ == digit_text(d as int),
{
    if d == 0 {
        "0"
    } else if d == 1 {
        "1"
    } else if d == 2 {
        "2"
    } else if d == 3 {
        "3"
    } else if d == 4 {
        "4"
    } else if d == 5 {
        "5"
    } else if d == 6 {
        "6"
    } else if d == 7 {
        "7"
    } else if d == 8 {
        "8"
    } else {
        "9"
    }
}

fn natural(n: u32) -> (s: String)
    ensures
        s@ == natural_text(n as nat),
    decreases n,
{
    if n < 10 {
        String::from_str(digit(n))
    } else {
        let mut s = natural(n / 10);
        s.append(digit(n % 10));
        s
    }
}

/// Writes a number in decimal.
pub fn number(i: i32) -> (s: String)
    ensures
        s@ == number_text(i as int),
{
    if i < 0 {
        let magnitude: u32 = (-(i as i64)) as u32;
        let mut s = String::from_str("-");
        let digits = natural(magnitude);
        s.append(digits.as_str());
        s
    } else {
        natural(i as u32)
    }
}

pub open spec fn unable_to_hurt_text(attacker: Seq<char>, target: Seq<char>) -> Seq<char> {
    attacker + " is unable to hurt "@ + target
}

pub fn unable_to_hurt_message(attacker: &String, target: &String) -> (s: String)
    ensures
        s@ == unable_to_hurt_text(attacker@, target@),
{
    let mut s = attacker.clone();
    s.append(" is unable to hurt ");
    s.append(target.as_str());
    s
}

pub open spec fn hit_text(attacker: Seq<char>, target: Seq<char>, damage: int) -> Seq<char> {
    attacker + " hits "@ + target + ", for "@ + number_text(damage) + " hp."@
}

pub fn hit_message(attacker: &String, target: &String, damage: i32) -> (s: String)
    ensures
        s@ == hit_text(attacker@, target@, damage as int),
{
    let mut s = attacker.clone();
    s.append(" hits ");
    s.append(target.as_str());
    s.append(", for ");
    let amount = number(damage);
    s.append(amount.as_str());
    s.append(" hp.");
    s
}

pub open spec fn out_of_air_text() -> Seq<char> {
    "You suffer damage because you are out of air."@
}

pub fn out_of_air_message() -> (s: String)
    ensures
        s@ == out_of_air_text(),
{
    String::from_str("You suffer damage because you are out of air.")
}

pub open spec fn low_oxygen_text() -> Seq<char> {
    "Oxygen level dropped to 25%"@
}

pub fn low_oxygen_message() -> (s: String)
    ensures
        s@ == low_oxygen_text(),
{
    String::from_str("Oxygen level dropped to 25%")
}

pub open spec fn pick_up_text(item: Seq<char>) -> Seq<char> {
    "You pick up the "@ + item + "."@
}

pub fn pick_up_message(item: &String) -> (s: String)
    ensures
        s@ == pick_up_text(item@),
{
    let mut s = String::from_str("You pick up the ");
    s.append(item.as_str());
    s.append(".");
    s
}

pub open spec fn drop_text(item: Seq<char>) -> Seq<char> {
    "You drop the "@ + item + "."@
}

pub fn drop_message(item: &String) -> (s: String)
    ensures
        s@ == drop_text(item@),
{
    let mut s = String::from_str("You drop the ");
    s.append(item.as_str());
    s.append(".");
    s
}

pub open spec fn nothing_here_text() -> Seq<char> {
    "There is nothing here to pick up."@
}

pub fn nothing_here_message() -> (s: String)
    ensures
        s@ == nothing_here_text(),
{
    String::from_str("There is nothing here to pick up.")
}

pub open spec fn fire_text(target: Seq<char>) -> Seq<char> {
    "You fire at "@ + target
}

pub fn fire_message(target: &String) -> (s: String)
    ensures
        s@ == fire_text(target@),
{
    let mut s = String::from_str("You fire at ");
    s.append(target.as_str());
    s
}

pub open spec fn no_target_text() -> Seq<char> {
    "You don't have a target selected!"@
}

pub fn no_target_message() -> (s: String)
    ensures
        s@ == no_target_text(),
{
    String::from_str("You don't have a target selected!")
}

pub open spec fn dead_text(victim: Seq<char>) -> Seq<char> {
    victim + " is dead"@
}

pub fn dead_message(victim: &String) -> (s: String)
    ensures
        s@ == dead_text(victim@),
{
    let mut s = victim.clone();
    s.append(" is dead");
    s
}

pub open spec fn equip_text(item: Seq<char>) -> Seq<char> {
    "You equip "@ + item + "."@
}

pub fn equip_message(item: &String) -> (s: String)
    ensures
        s@ == equip_text(item@),
{
    let mut s = String::from_str("You equip ");
    s.append(item.as_str());
    s.append(".");
    s
}

pub open spec fn unequip_text(item: Seq<char>) -> Seq<char> {
    "You unequip "@ + item + "."@
}

pub fn unequip_message(item: &String) -> (s: String)
    ensures
        s@ == unequip_text(item@),
{
    let mut s = String::from_str("You unequip ");
    s.append(item.as_str());
    s.append(".");
    s
}

pub open spec fn inflict_text(item: Seq<char>, target: Seq<char>, damage: int) -> Seq<char> {
    "You use "@ + item + " on "@ + target + ", inflicting "@ + number_text(damage) + " hp."@
}

pub fn inflict_message(item: &String, target: &String, damage: i32) -> (s: String)
    ensures
        s@ == inflict_text(item@, target@, damage as int),
{
    let mut s = String::from_str("You use ");
    s.append(item.as_str());
    s.append(" on ");
    s.append(target.as_str());
    s.append(", inflicting ");
    let digits = number(damage);
    s.append(digits.as_str());
    s.append(" hp.");
    s
}

pub open spec fn confuse_text(item: Seq<char>, target: Seq<char>) -> Seq<char> {
    "You use "@ + item + " on "@ + target + ", confusing them."@
}

pub fn confuse_message(item: &String, target: &String) -> (s: String)
    ensures
        s@ == confuse_text(item@, target@),
{
    let mut s = String::from_str("You use ");
    s.append(item.as_str());
    s.append(" on ");
    s.append(target.as_str());
    s.append(", confusing them.");
    s
}

/// What the log says when an intent names an entity that is gone or lacks
/// what the intent needs.
pub open spec fn stale_text() -> Seq<char> {
    "Something that was meant is no longer there."@
}

pub fn stale_message() -> (s: String)
    ensures
        s@ == stale_text(),
{
    String::from_str("Something that was meant is no longer there.")
}

} // verus!
