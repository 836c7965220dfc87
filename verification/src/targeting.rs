//! Whom the player can shoot at, nearest first, and how the mark on the
//! chosen target moves.

use vstd::prelude::*;
use crate::components::{Entity, Position, Target};
use crate::robot_ai_system::{distance_squared, squared_distance};
use crate::sorting::{ascending, in_order, lemma_ascending, sort_ascending};
use crate::world::{SlotView, Transient, World, WorldView};

verus! {

/// Whether `a` lies within `range` of `b`, by the straight-line distance
/// between the two.
pub open spec fn within_range(a: Position, b: Position, range: i32) -> bool {
    range > 0 && distance_squared(a, b) < range * range
}

/// The robots other than the player among the first `n` of `content`, each
/// as a sighting at the squared distance `far`.
pub open spec fn sightings_on(w: WorldView, content: Seq<Entity>, far: i128, n: nat) -> Seq<(i128, Entity)>
    decreases n,
{
    if n == 0 {
        Seq::empty()
    } else {
        let e = content[n - 1];
        if e != w.player && w.slot(e).robot is Some {
            sightings_on(w, content, far, (n - 1) as nat).push((far, e))
        } else {
            sightings_on(w, content, far, (n - 1) as nat)
        }
    }
}

/// The sightings on the first `n` of `tiles`, seen from `from` with a
/// weapon that reaches `range` far: robots on tiles of the map that are
/// nearer than that.
pub open spec fn sightings_in(
    w: WorldView,
    tiles: Seq<Position>,
    from: Position,
    range: i32,
    n: nat,
) -> Seq<(i128, Entity)>
    decreases n,
{
    if n == 0 {
        Seq::empty()
    } else {
        let tile = tiles[n - 1];
        let before = sightings_in(w, tiles, from, range, (n - 1) as nat);
        if w.map.in_bounds(tile.x as int, tile.y as int) && within_range(tile, from, range) {
            let content = w.map.tile_content[w.map.xy_idx(tile.x as int, tile.y as int)];
            before + sightings_on(w, content, distance_squared(tile, from) as i128, content.len())
        } else {
            before
        }
    }
}

/// Whether the entity in the slot is a ranged weapon that the player has
/// equipped.
pub open spec fn players_gun(w: WorldView, s: SlotView) -> bool {
    s.equipped is Some && s.equipped->0.owner == w.player && s.ranged_weapon is Some
}

/// The sightings that the player makes with the ranged weapons among the
/// first `n` slots. A player that cannot see or stands nowhere sights
/// nothing.
pub open spec fn sightings_upto(w: WorldView, n: nat) -> Seq<(i128, Entity)>
    decreases n,
{
    if n == 0 {
        Seq::empty()
    } else {
        let before = sightings_upto(w, (n - 1) as nat);
        let gun = w.slots[n - 1];
        let player = w.slot(w.player);
        if players_gun(w, gun) && player.viewshed is Some && player.position is Some {
            before + sightings_in(
                w,
                player.viewshed->0.visible_tiles,
                player.position->0,
                gun.ranged_weapon->0.range,
                player.viewshed->0.visible_tiles.len(),
            )
        } else {
            before
        }
    }
}

/// The robots that the player can shoot at, nearest first.
pub open spec fn target_list(w: WorldView) -> Seq<(i128, Entity)> {
    ascending(sightings_upto(w, w.slots.len()))
}

/// A list with one more entry holds what it held and that entry.
pub proof fn lemma_push_contains(a: Seq<(i128, Entity)>, y: (i128, Entity), x: (i128, Entity))
    ensures
        a.push(y).contains(x) <==> a.contains(x) || x == y,
{
    let p = a.push(y);
    if p.contains(x) {
        let k = choose|k: int| 0 <= k < p.len() && p[k] == x;
        if k < a.len() {
            assert(a[k] == x);
        }
    }
    if a.contains(x) {
        let k = choose|k: int| 0 <= k < a.len() && a[k] == x;
        assert(p[k] == x);
    }
    if x == y {
        assert(p[a.len() as int] == x);
    }
}

/// Two lists put together hold what either holds.
pub proof fn lemma_add_contains(a: Seq<(i128, Entity)>, b: Seq<(i128, Entity)>, x: (i128, Entity))
    ensures
        (a + b).contains(x) <==> a.contains(x) || b.contains(x),
{
    let p = a + b;
    if p.contains(x) {
        let k = choose|k: int| 0 <= k < p.len() && p[k] == x;
        if k < a.len() {
            assert(a[k] == x);
        } else {
            assert(b[k - a.len()] == x);
        }
    }
    if a.contains(x) {
        let k = choose|k: int| 0 <= k < a.len() && a[k] == x;
        assert(p[k] == x);
    }
    if b.contains(x) {
        let k = choose|k: int| 0 <= k < b.len() && b[k] == x;
        assert(p[a.len() + k] == x);
    }
}

/// Whether `e` is one of the first `n` of `content` and can be shot at: it
/// is a robot and not the player.
pub open spec fn shootable_on(w: WorldView, content: Seq<Entity>, e: Entity, n: nat) -> bool {
    e != w.player && w.slot(e).robot is Some && exists|j: int| 0 <= j < n && #[trigger] content[j] == e
}

/// The sightings on a tile are those who stand on it and can be shot at,
/// each at the distance of the tile.
pub proof fn lemma_sightings_on(w: WorldView, content: Seq<Entity>, far: i128, n: nat, x: (i128, Entity))
    requires
        n <= content.len(),
    ensures
        sightings_on(w, content, far, n).contains(x) <==> x.0 == far && shootable_on(w, content, x.1, n),
    decreases n,
{
    if n > 0 {
        lemma_sightings_on(w, content, far, (n - 1) as nat, x);
        let before = sightings_on(w, content, far, (n - 1) as nat);
        let e = content[n - 1];
        if e != w.player && w.slot(e).robot is Some {
            lemma_push_contains(before, (far, e), x);
        }
        if shootable_on(w, content, x.1, n) {
            let j = choose|j: int| 0 <= j < n && #[trigger] content[j] == x.1;
            if j < n - 1 {
                assert(shootable_on(w, content, x.1, (n - 1) as nat));
            }
        }
        if shootable_on(w, content, x.1, (n - 1) as nat) {
            let j = choose|j: int| 0 <= j < n - 1 && #[trigger] content[j] == x.1;
            assert(0 <= j < n);
        }
    }
}

/// Whether `x` is sighted on one of the first `n` of `tiles`, seen from
/// `from` with a weapon that reaches `range` far: the tile lies on the map
/// and nearer than that, `x` gives its squared distance, and the one
/// sighted stands on it and can be shot at.
pub open spec fn sighted_in(
    w: WorldView,
    tiles: Seq<Position>,
    from: Position,
    range: i32,
    n: nat,
    x: (i128, Entity),
) -> bool {
    exists|k: int|
        0 <= k < n && w.map.in_bounds((#[trigger] tiles[k]).x as int, tiles[k].y as int) && within_range(
            tiles[k],
            from,
            range,
        ) && x.0 == distance_squared(tiles[k], from) as i128 && shootable_on(
            w,
            w.map.tile_content[w.map.xy_idx(tiles[k].x as int, tiles[k].y as int)],
            x.1,
            w.map.tile_content[w.map.xy_idx(tiles[k].x as int, tiles[k].y as int)].len(),
        )
}

/// The sightings in view are those on the visible tiles within range.
pub proof fn lemma_sightings_in(
    w: WorldView,
    tiles: Seq<Position>,
    from: Position,
    range: i32,
    n: nat,
    x: (i128, Entity),
)
    requires
        n <= tiles.len(),
    ensures
        sightings_in(w, tiles, from, range, n).contains(x) <==> sighted_in(w, tiles, from, range, n, x),
    decreases n,
{
    if n > 0 {
        lemma_sightings_in(w, tiles, from, range, (n - 1) as nat, x);
        let before = sightings_in(w, tiles, from, range, (n - 1) as nat);
        let tile = tiles[n - 1];
        let content = w.map.tile_content[w.map.xy_idx(tile.x as int, tile.y as int)];
        let here = sightings_on(w, content, distance_squared(tile, from) as i128, content.len());
        let lit = w.map.in_bounds(tile.x as int, tile.y as int) && within_range(tile, from, range);
        if lit {
            lemma_add_contains(before, here, x);
            lemma_sightings_on(w, content, distance_squared(tile, from) as i128, content.len(), x);
        }
        if sighted_in(w, tiles, from, range, n, x) {
            let k = choose|k: int|
                0 <= k < n && w.map.in_bounds((#[trigger] tiles[k]).x as int, tiles[k].y as int) && within_range(
                    tiles[k],
                    from,
                    range,
                ) && x.0 == distance_squared(tiles[k], from) as i128 && shootable_on(
                    w,
                    w.map.tile_content[w.map.xy_idx(tiles[k].x as int, tiles[k].y as int)],
                    x.1,
                    w.map.tile_content[w.map.xy_idx(tiles[k].x as int, tiles[k].y as int)].len(),
                );
            if k < n - 1 {
                assert(sighted_in(w, tiles, from, range, (n - 1) as nat, x));
            }
        }
        if sighted_in(w, tiles, from, range, (n - 1) as nat, x) {
            let k = choose|k: int|
                0 <= k < n - 1 && w.map.in_bounds((#[trigger] tiles[k]).x as int, tiles[k].y as int) && within_range(
                    tiles[k],
                    from,
                    range,
                ) && x.0 == distance_squared(tiles[k], from) as i128 && shootable_on(
                    w,
                    w.map.tile_content[w.map.xy_idx(tiles[k].x as int, tiles[k].y as int)],
                    x.1,
                    w.map.tile_content[w.map.xy_idx(tiles[k].x as int, tiles[k].y as int)].len(),
                );
            assert(0 <= k < n);
        }
        if lit && here.contains(x) {
            assert(tiles[n - 1] == tile);
            assert(sighted_in(w, tiles, from, range, n, x));
        }
    }
}

/// Whether `x` is a sighting that the player makes with one of the ranged
/// weapons among the first `n` slots: the player can see and stands
/// somewhere, has the weapon equipped, and `x` is sighted on a tile that
/// the player sees within the range of the weapon.
pub open spec fn sighted_upto(w: WorldView, n: nat, x: (i128, Entity)) -> bool {
    let player = w.slot(w.player);
    player.viewshed is Some && player.position is Some && exists|g: int|
        0 <= g < n && players_gun(w, #[trigger] w.slots[g]) && sighted_in(
            w,
            player.viewshed->0.visible_tiles,
            player.position->0,
            w.slots[g].ranged_weapon->0.range,
            player.viewshed->0.visible_tiles.len(),
            x,
        )
}

/// The sightings of the player are those made with its ranged weapons.
pub proof fn lemma_sightings_upto(w: WorldView, n: nat, x: (i128, Entity))
    requires
        n <= w.slots.len(),
    ensures
        sightings_upto(w, n).contains(x) <==> sighted_upto(w, n, x),
    decreases n,
{
    if n > 0 {
        lemma_sightings_upto(w, (n - 1) as nat, x);
        let before = sightings_upto(w, (n - 1) as nat);
        let gun = w.slots[n - 1];
        let player = w.slot(w.player);
        let armed = players_gun(w, gun) && player.viewshed is Some && player.position is Some;
        if armed {
            let tiles = player.viewshed->0.visible_tiles;
            let here = sightings_in(w, tiles, player.position->0, gun.ranged_weapon->0.range, tiles.len());
            lemma_add_contains(before, here, x);
            lemma_sightings_in(w, tiles, player.position->0, gun.ranged_weapon->0.range, tiles.len(), x);
            if here.contains(x) {
                assert(players_gun(w, w.slots[n - 1]));
                assert(sighted_upto(w, n, x));
            }
        }
        if sighted_upto(w, n, x) {
            let g = choose|g: int|
                0 <= g < n && players_gun(w, #[trigger] w.slots[g]) && sighted_in(
                    w,
                    player.viewshed->0.visible_tiles,
                    player.position->0,
                    w.slots[g].ranged_weapon->0.range,
                    player.viewshed->0.visible_tiles.len(),
                    x,
                );
            if g < n - 1 {
                assert(sighted_upto(w, (n - 1) as nat, x));
            }
        }
        if sighted_upto(w, (n - 1) as nat, x) {
            let g = choose|g: int|
                0 <= g < n - 1 && players_gun(w, #[trigger] w.slots[g]) && sighted_in(
                    w,
                    player.viewshed->0.visible_tiles,
                    player.position->0,
                    w.slots[g].ranged_weapon->0.range,
                    player.viewshed->0.visible_tiles.len(),
                    x,
                );
            assert(0 <= g < n);
        }
    }
}

/// Who is on the target list: an entry stands in the list exactly if it is
/// a sighting that the player makes with a ranged weapon that it has
/// equipped, that is, a robot other than the player, on a tile of the map
/// that the player sees, nearer than the range of the weapon, together
/// with the squared distance of that tile. The list is in ascending order
/// of distance.
pub proof fn lemma_target_list_members(w: WorldView, x: (i128, Entity))
    ensures
        target_list(w).contains(x) <==> sighted_upto(w, w.slots.len(), x),
        in_order(target_list(w)),
{
    broadcast use vstd::seq_lib::group_to_multiset_ensures;
    let s = sightings_upto(w, w.slots.len());
    lemma_ascending(s);
    lemma_sightings_upto(w, w.slots.len(), x);
    assert(ascending(s).contains(x) <==> ascending(s).to_multiset().count(x) > 0);
    assert(s.contains(x) <==> s.to_multiset().count(x) > 0);
}

/// The entity that carries the mark, looking at the first `n` slots: the
/// last of them, should there be several.
pub open spec fn marked_upto(slots: Seq<SlotView>, n: nat) -> Option<Entity>
    decreases n,
{
    if n == 0 {
        None
    } else if slots[n - 1].target is Some {
        Some(Entity { id: (n - 1) as usize })
    } else {
        marked_upto(slots, (n - 1) as nat)
    }
}

/// The entity that the player aims at, if any.
pub open spec fn current_target(w: WorldView) -> Option<Entity> {
    marked_upto(w.slots, w.slots.len())
}

/// The world in which `choice`, if it names an entity of the arena, carries
/// the mark, and nobody else does.
pub open spec fn aimed_at(w: WorldView, choice: Option<Entity>) -> WorldView {
    let bare = w.cleared(Transient::Target);
    match choice {
        Some(e) => if bare.has(e) {
            bare.with_slot(e.id as int, SlotView { target: Some(Target {}), ..bare.slot(e) })
        } else {
            bare
        },
        None => bare,
    }
}

/// After the mark is moved nobody carries it but the one chosen.
pub proof fn lemma_one_mark(w: WorldView, choice: Option<Entity>)
    requires
        w.slots.len() <= usize::MAX,
    ensures
        forall|j: int|
            0 <= j < aimed_at(w, choice).slots.len() && (#[trigger] aimed_at(w, choice).slots[j]).target
                is Some ==> choice == Some(Entity { id: j as usize }),
{
}

/// The position in `list` of the last sighting of `who` among the first
/// `n`; the front of the list, where there is none.
pub open spec fn last_index_of(list: Seq<(i128, Entity)>, who: Entity, n: nat) -> int
    decreases n,
{
    if n == 0 {
        0
    } else if list[n - 1].1 == who {
        n - 1
    } else {
        last_index_of(list, who, (n - 1) as nat)
    }
}

/// Whether `who` is sighted among the first `n` of `list`.
pub open spec fn sighted(list: Seq<(i128, Entity)>, who: Entity, n: nat) -> bool {
    exists|k: int| 0 <= k < n && (#[trigger] list[k]).1 == who
}

/// The target after a turn: the current one, as long as it can still be
/// shot at, and otherwise the nearest; nobody, where nobody can be shot at.
pub open spec fn kept_target(list: Seq<(i128, Entity)>, current: Option<Entity>) -> Option<Entity> {
    if list.len() == 0 {
        None
    } else if current is Some && sighted(list, current->0, list.len()) {
        current
    } else {
        Some(list[0].1)
    }
}

/// The target after cycling: the entry behind the current target, and the
/// first behind the last; the nearest, where nobody was aimed at; nobody,
/// where nobody can be shot at.
pub open spec fn next_target(list: Seq<(i128, Entity)>, current: Option<Entity>) -> Option<Entity> {
    if list.len() == 0 {
        None
    } else if current is Some && list.len() > 1 {
        let index = last_index_of(list, current->0, list.len());
        if index + 1 != list.len() {
            Some(list[index + 1].1)
        } else {
            Some(list[0].1)
        }
    } else {
        Some(list[0].1)
    }
}

/// In a list that sights nobody twice, the position of a sighting is found
/// again from the one sighted.
pub proof fn lemma_last_index_of(list: Seq<(i128, Entity)>, i: int, n: nat)
    requires
        0 <= i < n <= list.len(),
        forall|a: int, b: int| 0 <= a < b < list.len() ==> list[a].1 != list[b].1,
    ensures
        last_index_of(list, list[i].1, n) == i,
    decreases n,
{
    if list[n - 1].1 != list[i].1 {
        lemma_last_index_of(list, i, (n - 1) as nat);
    }
}

/// Cycling visits the targets in the order of the list, and goes from the
/// last back to the first: with nobody sighted twice, the target that
/// follows the one at position `i` is the one at position `i + 1`, counted
/// round the list.
pub proof fn lemma_cycle_in_order(list: Seq<(i128, Entity)>, i: int)
    requires
        0 <= i < list.len(),
        forall|a: int, b: int| 0 <= a < b < list.len() ==> list[a].1 != list[b].1,
    ensures
        next_target(list, Some(list[i].1)) == Some(list[(i + 1) % (list.len() as int)].1),
{
    lemma_last_index_of(list, i, list.len());
    if list.len() == 1 {
        assert((i + 1) % 1 == 0);
    } else if i + 1 == list.len() {
        assert((i + 1) % (list.len() as int) == 0) by {
            vstd::arithmetic::div_mod::lemma_mod_self_0(list.len() as int);
        }
    } else {
        assert((i + 1) % (list.len() as int) == i + 1) by {
            vstd::arithmetic::div_mod::lemma_small_mod((i + 1) as nat, list.len());
        }
    }
}

/// The target to keep after a turn.
pub fn keep_target(list: &Vec<(i128, Entity)>, current: Option<Entity>) -> (choice: Option<Entity>)
    ensures
        choice == kept_target(list@, current),
{
    if list.len() == 0 {
        return None;
    }
    match current {
        Some(who) => {
            let mut k: usize = 0;
            while k < list.len()
                invariant
                    k <= list.len(),
                    list.len() > 0,
                    current == Some(who),
                    !sighted(list@, who, k as nat),
                decreases list.len() - k,
            {
                if list[k].1 == who {
                    assert(sighted(list@, who, list@.len())) by {
                        assert(list@[k as int].1 == who);
                    }
                    return current;
                }
                k = k + 1;
            }
            Some(list[0].1)
        },
        None => Some(list[0].1),
    }
}

/// The target to aim at after cycling.
pub fn cycle_choice(list: &Vec<(i128, Entity)>, current: Option<Entity>) -> (choice: Option<Entity>)
    ensures
        choice == next_target(list@, current),
{
    if list.len() == 0 {
        return None;
    }
    match current {
        Some(who) => {
            if list.len() > 1 {
                let mut index: usize = 0;
                let mut k: usize = 0;
                while k < list.len()
                    invariant
                        k <= list.len(),
                        index == last_index_of(list@, who, k as nat),
                        index < list.len(),
                    decreases list.len() - k,
                {
                    if list[k].1 == who {
                        index = k;
                    }
                    k = k + 1;
                }
                if index + 1 != list.len() {
                    Some(list[index + 1].1)
                } else {
                    Some(list[0].1)
                }
            } else {
                Some(list[0].1)
            }
        },
        None => Some(list[0].1),
    }
}

fn sight_on(ecs: &World, content: &Vec<Entity>, far: i128, found: &mut Vec<(i128, Entity)>)
    ensures
        final(found)@ == old(found)@ + sightings_on(ecs@, content@, far, content@.len()),
{
    let mut k: usize = 0;
    assert(found@ =~= old(found)@ + sightings_on(ecs@, content@, far, 0));
    while k < content.len()
        invariant
            k <= content.len(),
            found@ == old(found)@ + sightings_on(ecs@, content@, far, k as nat),
        decreases content.len() - k,
    {
        let e = content[k];
        if e != ecs.player && e.id < ecs.slots.len() && ecs.slots[e.id].robot.is_some() {
            found.push((far, e));
            assert(found@ =~= old(found)@ + sightings_on(ecs@, content@, far, (k + 1) as nat));
        }
        k = k + 1;
    }
}

fn sight_in(ecs: &World, tiles: &Vec<Position>, from: Position, range: i32, found: &mut Vec<(i128, Entity)>)
    requires
        ecs.wf(),
    ensures
        final(found)@ == old(found)@ + sightings_in(ecs@, tiles@, from, range, tiles@.len()),
{
    let mut k: usize = 0;
    assert(found@ =~= old(found)@ + sightings_in(ecs@, tiles@, from, range, 0));
    let reach: i128 = range as i128;
    assert(0 <= reach * reach <= 0x4000_0000_0000_0000) by (nonlinear_arith)
        requires -0x8000_0000 <= reach <= 0x7fff_ffff;
    assert(reach * reach == range * range);
    while k < tiles.len()
        invariant
            k <= tiles.len(),
            ecs.wf(),
            reach == range,
            reach * reach == range * range,
            0 <= reach * reach <= 0x4000_0000_0000_0000,
            found@ == old(found)@ + sightings_in(ecs@, tiles@, from, range, k as nat),
        decreases tiles.len() - k,
    {
        let tile = tiles[k];
        match ecs.map.index_of(tile.x, tile.y) {
            Some(idx) => {
                let far = squared_distance(tile, from);
                if range > 0 && far < reach * reach {
                    assert(ecs@.map.tile_content[idx as int] == ecs.map.tile_content@[idx as int]@);
                    sight_on(ecs, &ecs.map.tile_content[idx], far, found);
                    assert(found@ =~= old(found)@ + sightings_in(ecs@, tiles@, from, range, (k + 1) as nat));
                }
            },
            None => {},
        }
        k = k + 1;
    }
}

/// The entity that carries the mark.
pub fn find_target(ecs: &World) -> (marked: Option<Entity>)
    ensures
        marked == current_target(ecs@),
{
    let mut marked: Option<Entity> = None;
    let mut i: usize = 0;
    while i < ecs.slots.len()
        invariant
            i <= ecs.slots.len(),
            marked == marked_upto(ecs@.slots, i as nat),
        decreases ecs.slots.len() - i,
    {
        if ecs.slots[i].target.is_some() {
            marked = Some(Entity { id: i });
        }
        i = i + 1;
    }
    marked
}

/// Moves the mark to `choice`.
pub fn aim_at(ecs: &mut World, choice: Option<Entity>)
    ensures
        final(ecs)@ == aimed_at(old(ecs)@, choice),
{
    ecs.clear(Transient::Target);
    match choice {
        Some(e) => {
            if e.id < ecs.slots.len() {
                let ghost bare = ecs@;
                ecs.slots[e.id].target = Some(Target {});
                assert(ecs@.slots =~= bare.with_slot(
                    e.id as int,
                    SlotView { target: Some(Target {}), ..bare.slot(e) },
                ).slots);
            }
        },
        None => {},
    }
}

/// The robots that the player can shoot at with what it has equipped,
/// nearest first.
pub fn get_player_target_list(ecs: &World) -> (list: Vec<(i128, Entity)>)
    requires
        ecs.wf(),
    ensures
        list@ == target_list(ecs@),
{
    let mut found: Vec<(i128, Entity)> = Vec::new();
    let mut i: usize = 0;
    while i < ecs.slots.len()
        invariant
            i <= ecs.slots.len(),
            ecs.wf(),
            found@ == sightings_upto(ecs@, i as nat),
        decreases ecs.slots.len() - i,
    {
        let gun = &ecs.slots[i];
        match (gun.equipped, gun.ranged_weapon) {
            (Some(worn), Some(weapon)) => {
                if worn.owner == ecs.player && ecs.player.id < ecs.slots.len() {
                    let player = &ecs.slots[ecs.player.id];
                    match (&player.viewshed, player.position) {
                        (Some(viewshed), Some(from)) => {
                            sight_in(ecs, &viewshed.visible_tiles, from, weapon.range, &mut found);
                        },
                        _ => {},
                    }
                }
            },
            _ => {},
        }
        i = i + 1;
    }
    sort_ascending(&found)
}

} // verus!
