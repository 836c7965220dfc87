//! Rebuilding what the map knows of the entities: which tiles are blocked,
//! and who stands on each tile.

use vstd::prelude::*;
use crate::components::Entity;
use crate::map::{GameMapView, TileType};
use crate::world::{SlotView, World, WorldView};

verus! {

pub struct MapIndexingSystem {}

/// Whether the entity in the slot stands on the tile with index `tile`.
pub open spec fn stands_on(s: SlotView, m: GameMapView, tile: int) -> bool {
    s.position is Some && m.in_bounds(s.position->0.x as int, s.position->0.y as int) && m.xy_idx(
        s.position->0.x as int,
        s.position->0.y as int,
    ) == tile
}

/// The entities among the first `n` slots that stand on `tile`, in the
/// order of the slots.
pub open spec fn occupants(slots: Seq<SlotView>, m: GameMapView, tile: int, n: nat) -> Seq<Entity>
    decreases n,
{
    if n == 0 {
        Seq::empty()
    } else if stands_on(slots[n - 1], m, tile) {
        occupants(slots, m, tile, (n - 1) as nat).push(Entity { id: (n - 1) as usize })
    } else {
        occupants(slots, m, tile, (n - 1) as nat)
    }
}

/// A tile lists exactly those who stand on it.
pub proof fn lemma_occupants(slots: Seq<SlotView>, m: GameMapView, tile: int, n: nat, e: Entity)
    requires
        n <= slots.len(),
        slots.len() <= usize::MAX,
    ensures
        occupants(slots, m, tile, n).contains(e) <==> e.id < n && stands_on(slots[e.id as int], m, tile),
    decreases n,
{
    if n > 0 {
        lemma_occupants(slots, m, tile, (n - 1) as nat, e);
        let before = occupants(slots, m, tile, (n - 1) as nat);
        let last = Entity { id: (n - 1) as usize };
        if stands_on(slots[n - 1], m, tile) {
            let all = before.push(last);
            if all.contains(e) {
                let k = choose|k: int| 0 <= k < all.len() && all[k] == e;
                if k < before.len() {
                    assert(before[k] == e);
                    assert(before.contains(e));
                }
            }
            if before.contains(e) {
                let k = choose|k: int| 0 <= k < before.len() && before[k] == e;
                assert(all[k] == e);
            }
            if e.id == n - 1 {
                assert(all[before.len() as int] == e);
            }
        }
    }
}

/// Whether one of the first `n` slots holds an entity that stands on `tile`
/// and blocks it.
pub open spec fn obstructed(slots: Seq<SlotView>, m: GameMapView, tile: int, n: nat) -> bool {
    exists|j: int| 0 <= j < n && stands_on(#[trigger] slots[j], m, tile) && slots[j].blocks_tile is Some
}

/// The map after indexing: a tile is blocked where it is a wall or a
/// blocking entity stands on it, and lists those who stand on it.
pub open spec fn indexed_map(slots: Seq<SlotView>, m: GameMapView) -> GameMapView {
    GameMapView {
        blocked_tiles: Seq::new(
            m.tiles.len(),
            |t: int| m.tiles[t] == TileType::Wall || obstructed(slots, m, t, slots.len()),
        ),
        tile_content: Seq::new(
            m.tile_content.len(),
            |t: int| occupants(slots, m, t, slots.len()),
        ),
        ..m
    }
}

pub open spec fn indexed(w: WorldView) -> WorldView {
    WorldView { map: indexed_map(w.slots, w.map), ..w }
}

impl MapIndexingSystem {
    /// Rebuilds the blocked flags and the occupant lists of the map from the
    /// positions of the entities. An entity whose position lies outside the
    /// map is on no tile.
    pub fn run(&mut self, ecs: &mut World)
        requires
            old(ecs).wf(),
        ensures
            final(ecs).wf(),
            final(ecs)@ == indexed(old(ecs)@),
    {
        ecs.map.populate_blocked();
        ecs.map.clear_content_index();
        let ghost m = old(ecs)@.map;
        let ghost slots = old(ecs)@.slots;
        let n = ecs.slots.len();
        let mut i: usize = 0;
        assert(ecs@.slots =~= slots);
        assert forall|t: int| 0 <= t < m.area() implies (#[trigger] ecs.map.tile_content@[t])@ == occupants(
            slots,
            m,
            t,
            0,
        ) by {
            assert(ecs.map@.tile_content[t] == Seq::<Entity>::empty());
        }
        while i < n
            invariant
                i <= n,
                n == ecs.slots@.len(),
                ecs.slots == old(ecs).slots,
                slots == old(ecs)@.slots,
                slots.len() == n,
                m == old(ecs)@.map,
                m.wf(),
                ecs.wf(),
                ecs@ == (WorldView { map: ecs@.map, ..old(ecs)@ }),
                ecs@.map == (GameMapView {
                    blocked_tiles: ecs@.map.blocked_tiles,
                    tile_content: ecs@.map.tile_content,
                    ..m
                }),
                forall|t: int| 0 <= t < m.area() ==> #[trigger] ecs.map.blocked_tiles@[t] == (m.tiles[t]
                    == TileType::Wall || obstructed(slots, m, t, i as nat)),
                forall|t: int| 0 <= t < m.area() ==> (#[trigger] ecs.map.tile_content@[t])@ == occupants(
                    slots,
                    m,
                    t,
                    i as nat,
                ),
            decreases n - i,
        {
            let position = ecs.slots[i].position;
            let blocks = ecs.slots[i].blocks_tile.is_some();
            assert(slots[i as int] == ecs.slots@[i as int]@);
            match position {
                Some(p) => {
                    match ecs.map.index_of(p.x, p.y) {
                        Some(idx) => {
                            if blocks {
                                ecs.map.blocked_tiles[idx] = true;
                            }
                            ecs.map.tile_content[idx].push(Entity { id: i });
                            assert(stands_on(slots[i as int], m, idx as int));
                            assert forall|t: int| 0 <= t < m.area() implies #[trigger] ecs.map.blocked_tiles@[t] == (
                            m.tiles[t] == TileType::Wall || obstructed(slots, m, t, (i + 1) as nat)) by {
                                if obstructed(slots, m, t, (i + 1) as nat) {
                                    let j = choose|j: int| 0 <= j < i + 1 && stands_on(#[trigger] slots[j], m, t) && slots[j].blocks_tile is Some;
                                    if j < i {
                                        assert(obstructed(slots, m, t, i as nat));
                                    }
                                }
                                if obstructed(slots, m, t, i as nat) {
                                    let j = choose|j: int| 0 <= j < i && stands_on(#[trigger] slots[j], m, t) && slots[j].blocks_tile is Some;
                                    assert(0 <= j < i + 1);
                                }
                                if t == idx && blocks {
                                    assert(stands_on(slots[i as int], m, t));
                                }
                            }
                        },
                        None => {
                            assert forall|t: int| 0 <= t < m.area() implies obstructed(slots, m, t, (i + 1) as nat)
                                == obstructed(slots, m, t, i as nat) by {
                                if obstructed(slots, m, t, (i + 1) as nat) {
                                    let j = choose|j: int| 0 <= j < i + 1 && stands_on(#[trigger] slots[j], m, t) && slots[j].blocks_tile is Some;
                                    assert(j < i);
                                }
                                if obstructed(slots, m, t, i as nat) {
                                    let j = choose|j: int| 0 <= j < i && stands_on(#[trigger] slots[j], m, t) && slots[j].blocks_tile is Some;
                                    assert(0 <= j < i + 1);
                                }
                            }
                        },
                    }
                },
                None => {
                    assert forall|t: int| 0 <= t < m.area() implies obstructed(slots, m, t, (i + 1) as nat)
                        == obstructed(slots, m, t, i as nat) by {
                        if obstructed(slots, m, t, (i + 1) as nat) {
                            let j = choose|j: int| 0 <= j < i + 1 && stands_on(#[trigger] slots[j], m, t) && slots[j].blocks_tile is Some;
                            assert(j < i);
                        }
                        if obstructed(slots, m, t, i as nat) {
                            let j = choose|j: int| 0 <= j < i && stands_on(#[trigger] slots[j], m, t) && slots[j].blocks_tile is Some;
                            assert(0 <= j < i + 1);
                        }
                    }
                },
            }
            i = i + 1;
        }
        assert(ecs@.map.blocked_tiles =~= indexed_map(slots, m).blocked_tiles);
        assert(ecs@.map.tile_content =~= indexed_map(slots, m).tile_content);
    }
}

} // verus!
