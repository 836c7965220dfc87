//! Field of view: recording what an entity sees from where it stands.
//!
//! Which tiles can be seen from a point is computed outside this library.
//! `pending` says for whom it is to be computed, and `run` takes the tiles
//! that were found.

use vstd::prelude::*;
use crate::components::{Entity, Position, ViewshedView};
use crate::map::{GameMap, GameMapView};
use crate::world::{SlotView, World, WorldView};

verus! {

pub struct VisibilitySystem {}

/// A request to compute what `viewer` sees from `at` within `range`.
#[derive(Clone, Copy, PartialEq, Eq, Structural, Debug)]
pub struct ViewRequest {
    pub viewer: Entity,
    pub at: Position,
    pub range: i32,
}

/// Whether the entity in the slot has to look again: it can see, stands
/// somewhere, and what it saw is out of date.
pub open spec fn looks_again(s: SlotView) -> bool {
    s.viewshed is Some && s.position is Some && s.viewshed->0.dirty
}

/// The requests for the first `n` slots, in the order of the slots.
pub open spec fn requests(slots: Seq<SlotView>, n: nat) -> Seq<ViewRequest>
    decreases n,
{
    if n == 0 {
        Seq::empty()
    } else if looks_again(slots[n - 1]) {
        requests(slots, (n - 1) as nat).push(
            ViewRequest {
                viewer: Entity { id: (n - 1) as usize },
                at: slots[n - 1].position->0,
                range: slots[n - 1].viewshed->0.range,
            },
        )
    } else {
        requests(slots, (n - 1) as nat)
    }
}

/// The tiles of `seen` that lie on the map, in their order.
pub open spec fn inside(seen: Seq<Position>, m: GameMapView) -> Seq<Position> {
    seen.filter(|p: Position| m.in_bounds(p.x as int, p.y as int))
}

/// Whether one of the first `n` tiles of `kept` is the tile with index
/// `tile`.
pub open spec fn lit_upto(kept: Seq<Position>, m: GameMapView, tile: int, n: nat) -> bool {
    exists|k: int| 0 <= k < n && m.xy_idx((#[trigger] kept[k]).x as int, kept[k].y as int) == tile
}

/// Whether `kept` holds the tile with index `tile`.
pub open spec fn lit(kept: Seq<Position>, m: GameMapView, tile: int) -> bool {
    lit_upto(kept, m, tile, kept.len())
}

/// The map after the player has seen the tiles in `kept`: exactly these are
/// visible, and they are revealed along with all that was revealed before.
pub open spec fn shown(m: GameMapView, kept: Seq<Position>) -> GameMapView {
    GameMapView {
        revealed_tiles: Seq::new(
            m.revealed_tiles.len(),
            |t: int| m.revealed_tiles[t] || lit(kept, m, t),
        ),
        visible_tiles: Seq::new(m.visible_tiles.len(), |t: int| lit(kept, m, t)),
        ..m
    }
}

/// The world after `viewer` is told that it sees the tiles in `seen`.
///
/// Where `viewer` does not have to look again, nothing changes. Otherwise
/// it now sees those of the tiles that lie on the map, and what it sees is
/// up to date; and where it is the player, the map shows what it sees.
pub open spec fn saw(w: WorldView, viewer: Entity, seen: Seq<Position>) -> WorldView {
    let s = w.slot(viewer);
    if looks_again(s) {
        let kept = inside(seen, w.map);
        let after = w.with_slot(
            viewer.id as int,
            SlotView {
                viewshed: Some(
                    ViewshedView { visible_tiles: kept, dirty: false, ..s.viewshed->0 },
                ),
                ..s
            },
        );
        if s.player is Some {
            WorldView { map: shown(w.map, kept), ..after }
        } else {
            after
        }
    } else {
        w
    }
}

/// Copies the tiles of `seen` that lie on the map.
fn clip(seen: &Vec<Position>, map: &GameMap) -> (kept: Vec<Position>)
    ensures
        kept@ == inside(seen@, map@),
        forall|k: int| 0 <= k < kept@.len() ==> map@.in_bounds(
            (#[trigger] kept@[k]).x as int,
            kept@[k].y as int,
        ),
{
    let mut kept: Vec<Position> = Vec::new();
    let mut j: usize = 0;
    assert(seen@.take(0) =~= Seq::<Position>::empty());
    reveal_with_fuel(Seq::filter, 1);
    while j < seen.len()
        invariant
            j <= seen.len(),
            kept@ == inside(seen@.take(j as int), map@),
            forall|k: int| 0 <= k < kept@.len() ==> map@.in_bounds(
                (#[trigger] kept@[k]).x as int,
                kept@[k].y as int,
            ),
        decreases seen.len() - j,
    {
        let p = seen[j];
        reveal_with_fuel(Seq::filter, 1);
        assert(seen@.take(j + 1).drop_last() =~= seen@.take(j as int));
        assert(seen@.take(j + 1).last() == p);
        if map.in_bounds(p.x, p.y) {
            kept.push(p);
        }
        j = j + 1;
    }
    assert(seen@.take(j as int) =~= seen@);
    kept
}

/// Shows on the map what the player sees.
fn show(map: &mut GameMap, kept: &Vec<Position>)
    requires
        old(map).wf(),
        forall|k: int| 0 <= k < kept@.len() ==> old(map)@.in_bounds(
            (#[trigger] kept@[k]).x as int,
            kept@[k].y as int,
        ),
    ensures
        final(map).wf(),
        final(map)@ == shown(old(map)@, kept@),
{
    let ghost m = old(map)@;
    let area = map.visible_tiles.len();
    let mut t: usize = 0;
    while t < area
        invariant
            t <= area,
            area == map.visible_tiles@.len(),
            map.wf(),
            map@ == (GameMapView { visible_tiles: map@.visible_tiles, ..m }),
            forall|u: int| 0 <= u < t ==> !map.visible_tiles@[u],
        decreases area - t,
    {
        map.visible_tiles[t] = false;
        assert(map@.tile_content =~= m.tile_content);
        t = t + 1;
    }
    let mut j: usize = 0;
    while j < kept.len()
        invariant
            j <= kept.len(),
            m.wf(),
            map.wf(),
            area == m.area(),
            forall|k: int| 0 <= k < kept@.len() ==> m.in_bounds(
                (#[trigger] kept@[k]).x as int,
                kept@[k].y as int,
            ),
            map@ == (GameMapView {
                visible_tiles: map@.visible_tiles,
                revealed_tiles: map@.revealed_tiles,
                ..m
            }),
            forall|u: int| 0 <= u < area ==> #[trigger] map.visible_tiles@[u] == lit_upto(kept@, m, u, j as nat),
            forall|u: int| 0 <= u < area ==> #[trigger] map.revealed_tiles@[u] == (m.revealed_tiles[u]
                || lit_upto(kept@, m, u, j as nat)),
        decreases kept.len() - j,
    {
        let p = kept[j];
        let idx = map.xy_idx(p.x, p.y);
        map.revealed_tiles[idx] = true;
        map.visible_tiles[idx] = true;
        assert(map@.tile_content =~= m.tile_content);
        assert forall|u: int| 0 <= u < area implies lit_upto(kept@, m, u, (j + 1) as nat) == (u == idx
            || lit_upto(kept@, m, u, j as nat)) by {
            if lit_upto(kept@, m, u, (j + 1) as nat) {
                let k = choose|k: int| 0 <= k < j + 1 && m.xy_idx((#[trigger] kept@[k]).x as int, kept@[k].y as int) == u;
                if k < j {
                    assert(lit_upto(kept@, m, u, j as nat));
                }
            }
            if lit_upto(kept@, m, u, j as nat) {
                let k = choose|k: int| 0 <= k < j && m.xy_idx((#[trigger] kept@[k]).x as int, kept@[k].y as int) == u;
                assert(0 <= k < j + 1);
            }
            if u == idx {
                assert(m.xy_idx(kept@[j as int].x as int, kept@[j as int].y as int) == u);
            }
        }
        j = j + 1;
    }
    assert(map@.visible_tiles =~= shown(m, kept@).visible_tiles);
    assert(map@.revealed_tiles =~= shown(m, kept@).revealed_tiles);
}

impl VisibilitySystem {
    /// The entities that have to look again, each with the point that it
    /// looks from and how far it sees, in the order of the slots.
    pub fn pending(&self, ecs: &World) -> (asked: Vec<ViewRequest>)
        ensures
            asked@ == requests(ecs@.slots, ecs@.slots.len()),
    {
        let mut asked: Vec<ViewRequest> = Vec::new();
        let mut i: usize = 0;
        while i < ecs.slots.len()
            invariant
                i <= ecs.slots.len(),
                asked@ == requests(ecs@.slots, i as nat),
            decreases ecs.slots.len() - i,
        {
            match (&ecs.slots[i].viewshed, ecs.slots[i].position) {
                (Some(viewshed), Some(at)) => {
                    if viewshed.dirty {
                        asked.push(ViewRequest { viewer: Entity { id: i }, at, range: viewshed.range });
                    }
                },
                _ => {},
            }
            i = i + 1;
        }
        asked
    }

    /// Records that `viewer` sees the tiles in `seen`.
    pub fn run(&mut self, ecs: &mut World, viewer: Entity, seen: &Vec<Position>)
        requires
            old(ecs).wf(),
        ensures
            final(ecs).wf(),
            final(ecs)@ == saw(old(ecs)@, viewer, seen@),
    {
        if viewer.id >= ecs.slots.len() {
            return ;
        }
        let stale = match (&ecs.slots[viewer.id].viewshed, ecs.slots[viewer.id].position) {
            (Some(viewshed), Some(_)) => viewshed.dirty,
            _ => false,
        };
        if !stale {
            return ;
        }
        let kept = clip(seen, &ecs.map);
        if ecs.slots[viewer.id].player.is_some() {
            show(&mut ecs.map, &kept);
        }
        match &mut ecs.slots[viewer.id].viewshed {
            Some(viewshed) => {
                viewshed.visible_tiles = kept;
                viewshed.dirty = false;
            },
            None => {},
        }
        assert(ecs@.slots =~= saw(old(ecs)@, viewer, seen@).slots);
    }
}

} // verus!
