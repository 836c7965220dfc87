//! What is to be drawn: the part of the map around the player, and the
//! entities on it, as a list of cells for a screen.

use vstd::prelude::*;
use crate::components::{Colour, Entity};
use crate::map::{GameMap, TileType};
use crate::outside::{cp437_of, to_cp437};
use crate::sorting::{ascending, sort_ascending};
use crate::world::{World, WorldView};

verus! {

/// The number of columns of the screen that show the map.
pub const SCREEN_WIDTH: i32 = 48;

/// The number of rows of the screen that show the map.
pub const SCREEN_HEIGHT: i32 = 44;

/// What one cell of the screen shows.
#[derive(Clone, Copy, PartialEq, Eq, Structural, Debug)]
pub enum Paint {
    /// A tile of the map that has been revealed, as `glyph`; `visible` says
    /// whether the player sees it now.
    Tile { glyph: u16, tile: TileType, visible: bool },
    /// What lies beyond the edge of the map.
    Boundary,
    /// An entity.
    Entity { glyph: u16, fg: Colour, bg: Colour },
    /// The bracket to the left of the player's target.
    TargetOpen,
    /// The bracket to the right of the player's target.
    TargetClose,
}

/// One cell of the screen and what it shows. Cells that come later in a
/// list are drawn over earlier ones.
#[derive(Clone, Copy, PartialEq, Eq, Structural, Debug)]
pub struct Cell {
    pub x: i32,
    pub y: i32,
    pub paint: Paint,
}

/// Whether the screen can be centred on the player without leaving the
/// range of `i32`.
pub open spec fn centred(w: WorldView) -> bool {
    &&& i32::MIN + SCREEN_WIDTH / 2 <= w.player_pos.x <= i32::MAX - SCREEN_WIDTH / 2
    &&& i32::MIN + SCREEN_HEIGHT / 2 <= w.player_pos.y <= i32::MAX - SCREEN_HEIGHT / 2
}

/// The part of the map that the screen shows, as the least and the
/// greatest column and the least and the greatest row, the greatest ones
/// not included: the player stands in the middle.
pub open spec fn screen_bounds(w: WorldView) -> (i32, i32, i32, i32) {
    (
        (w.player_pos.x - SCREEN_WIDTH / 2) as i32,
        (w.player_pos.x + SCREEN_WIDTH / 2) as i32,
        (w.player_pos.y - SCREEN_HEIGHT / 2) as i32,
        (w.player_pos.y + SCREEN_HEIGHT / 2) as i32,
    )
}

pub fn get_screen_bounds(ecs: &World) -> (bounds: (i32, i32, i32, i32))
    requires
        centred(ecs@),
    ensures
        bounds == screen_bounds(ecs@),
{
    let center_x = SCREEN_WIDTH / 2;
    let center_y = SCREEN_HEIGHT / 2;
    let min_x = ecs.player_pos.x - center_x;
    let max_x = min_x + SCREEN_WIDTH;
    let min_y = ecs.player_pos.y - center_y;
    let max_y = min_y + SCREEN_HEIGHT;
    (min_x, max_x, min_y, max_y)
}

/// The glyph of a tile.
pub open spec fn tile_glyph(tile: TileType) -> u16 {
    match tile {
        TileType::Floor => cp437_of('.'),
        TileType::Wall => cp437_of('#'),
    }
}

/// How the tile with index `idx` is shown.
pub fn get_tile_glyph(idx: usize, map: &GameMap) -> (paint: Paint)
    requires
        map.wf(),
        idx < map@.area(),
    ensures
        paint == (Paint::Tile {
            glyph: tile_glyph(map@.tiles[idx as int]),
            tile: map@.tiles[idx as int],
            visible: map@.visible_tiles[idx as int],
        }),
{
    let tile = map.tiles[idx];
    let glyph = match tile {
        TileType::Floor => to_cp437('.'),
        TileType::Wall => to_cp437('#'),
    };
    Paint::Tile { glyph, tile, visible: map.visible_tiles[idx] }
}

/// Whether `(x, y)` is a cell of the screen.
pub open spec fn on_screen(x: int, y: int) -> bool {
    0 <= x < SCREEN_WIDTH && 0 <= y < SCREEN_HEIGHT
}

/// What the cell `(x, y)` of the screen shows of the map: a revealed tile,
/// nothing for a tile that has not been revealed, and the boundary beyond
/// the map.
pub open spec fn tile_cell(w: WorldView, x: int, y: int) -> Option<Cell> {
    let tx = screen_bounds(w).0 + x;
    let ty = screen_bounds(w).2 + y;
    if w.map.in_bounds(tx, ty) {
        let idx = w.map.xy_idx(tx, ty);
        if w.map.revealed_tiles[idx] {
            Some(
                Cell {
                    x: x as i32,
                    y: y as i32,
                    paint: Paint::Tile {
                        glyph: tile_glyph(w.map.tiles[idx]),
                        tile: w.map.tiles[idx],
                        visible: w.map.visible_tiles[idx],
                    },
                },
            )
        } else {
            None
        }
    } else {
        Some(Cell { x: x as i32, y: y as i32, paint: Paint::Boundary })
    }
}

/// The cells that show the map, for the first `n` cells of the screen, row
/// by row.
pub open spec fn tile_cells(w: WorldView, n: nat) -> Seq<Cell>
    decreases n,
{
    if n == 0 {
        Seq::empty()
    } else {
        let before = tile_cells(w, (n - 1) as nat);
        match tile_cell(w, (n - 1) % (SCREEN_WIDTH as int), (n - 1) / (SCREEN_WIDTH as int)) {
            Some(cell) => before.push(cell),
            None => before,
        }
    }
}

/// The entities among the first `n` slots that can be drawn, each with the
/// key by which they are ordered: those with the higher render order come
/// first.
pub open spec fn drawables(w: WorldView, n: nat) -> Seq<(i128, Entity)>
    decreases n,
{
    if n == 0 {
        Seq::empty()
    } else {
        let s = w.slots[n - 1];
        if s.position is Some && s.renderable is Some {
            drawables(w, (n - 1) as nat).push(
                ((-s.renderable->0.render_order) as i128, Entity { id: (n - 1) as usize }),
            )
        } else {
            drawables(w, (n - 1) as nat)
        }
    }
}

/// The cell at `(x, y)` showing `paint`, if that is a cell of the screen.
pub open spec fn cell_at(x: int, y: int, paint: Paint) -> Seq<Cell> {
    if on_screen(x, y) {
        seq![Cell { x: x as i32, y: y as i32, paint }]
    } else {
        Seq::empty()
    }
}

/// The cells that show the entity `e`, which stands somewhere and can be
/// drawn.
///
/// An entity outside the map is not shown. One on a tile that the player
/// sees is shown where it stands, unless that is the first row or column of
/// the screen or lies beyond the size of the map. The player's target has
/// a bracket on either side.
pub open spec fn entity_cells(w: WorldView, e: Entity) -> Seq<Cell> {
    let s = w.slot(e);
    let p = s.position->0;
    let r = s.renderable->0;
    if s.position is Some && s.renderable is Some && w.map.in_bounds(p.x as int, p.y as int) {
        let x = p.x - screen_bounds(w).0;
        let y = p.y - screen_bounds(w).2;
        let body = if w.map.visible_tiles[w.map.xy_idx(p.x as int, p.y as int)] && 0 < x < w.map.width
            && 0 < y < w.map.height {
            cell_at(x, y, Paint::Entity { glyph: r.glyph, fg: r.fg, bg: r.bg })
        } else {
            Seq::empty()
        };
        if s.target is Some {
            body + cell_at(x - 1, y, Paint::TargetOpen) + cell_at(x + 1, y, Paint::TargetClose)
        } else {
            body
        }
    } else {
        Seq::empty()
    }
}

/// The cells that show the first `n` of the entities in `order`.
pub open spec fn entities_cells(w: WorldView, order: Seq<(i128, Entity)>, n: nat) -> Seq<Cell>
    decreases n,
{
    if n == 0 {
        Seq::empty()
    } else {
        entities_cells(w, order, (n - 1) as nat) + entity_cells(w, order[n - 1].1)
    }
}

/// All that the screen shows: the map, and over it the entities, those with
/// the higher render order first, so that the others are drawn over them.
pub open spec fn rendered(w: WorldView) -> Seq<Cell> {
    let order = ascending(drawables(w, w.slots.len()));
    tile_cells(w, (SCREEN_WIDTH * SCREEN_HEIGHT) as nat) + entities_cells(w, order, order.len())
}

fn push_cell(cells: &mut Vec<Cell>, x: i64, y: i64, paint: Paint)
    ensures
        final(cells)@ == old(cells)@ + cell_at(x as int, y as int, paint),
{
    if 0 <= x && x < SCREEN_WIDTH as i64 && 0 <= y && y < SCREEN_HEIGHT as i64 {
        cells.push(Cell { x: x as i32, y: y as i32, paint });
        assert(cells@ =~= old(cells)@ + cell_at(x as int, y as int, paint));
    } else {
        assert(cells@ =~= old(cells)@ + cell_at(x as int, y as int, paint));
    }
}

fn draw_entity(ecs: &World, e: Entity, min_x: i32, min_y: i32, cells: &mut Vec<Cell>)
    requires
        ecs.wf(),
        centred(ecs@),
        min_x == screen_bounds(ecs@).0,
        min_y == screen_bounds(ecs@).2,
    ensures
        final(cells)@ == old(cells)@ + entity_cells(ecs@, e),
{
    if e.id >= ecs.slots.len() {
        assert(cells@ =~= old(cells)@ + entity_cells(ecs@, e));
        return ;
    }
    let s = &ecs.slots[e.id];
    match (s.position, s.renderable) {
        (Some(p), Some(r)) => {
            match ecs.map.index_of(p.x, p.y) {
                Some(idx) => {
                    let x: i64 = p.x as i64 - min_x as i64;
                    let y: i64 = p.y as i64 - min_y as i64;
                    let ghost start = cells@;
                    if ecs.map.visible_tiles[idx] && 0 < x && x < ecs.map.width as i64 && 0 < y && y
                        < ecs.map.height as i64 {
                        push_cell(cells, x, y, Paint::Entity { glyph: r.glyph, fg: r.fg, bg: r.bg });
                    }
                    let ghost body = if ecs@.map.visible_tiles[idx as int] && 0 < x < ecs@.map.width && 0 < y
                        < ecs@.map.height {
                        cell_at(x as int, y as int, Paint::Entity { glyph: r.glyph, fg: r.fg, bg: r.bg })
                    } else {
                        Seq::empty()
                    };
                    assert(cells@ =~= start + body);
                    if s.target.is_some() {
                        push_cell(cells, x - 1, y, Paint::TargetOpen);
                        push_cell(cells, x + 1, y, Paint::TargetClose);
                        assert(cells@ =~= start + (body + cell_at(x - 1, y as int, Paint::TargetOpen) + cell_at(
                            x + 1,
                            y as int,
                            Paint::TargetClose,
                        )));
                    }
                },
                None => {
                    assert(cells@ =~= old(cells)@ + entity_cells(ecs@, e));
                },
            }
        },
        _ => {
            assert(cells@ =~= old(cells)@ + entity_cells(ecs@, e));
        },
    }
}

fn draw_map(ecs: &World, min_x: i32, min_y: i32) -> (cells: Vec<Cell>)
    requires
        ecs.wf(),
        centred(ecs@),
        min_x == screen_bounds(ecs@).0,
        min_y == screen_bounds(ecs@).2,
    ensures
        cells@ == tile_cells(ecs@, (SCREEN_WIDTH * SCREEN_HEIGHT) as nat),
{
    let mut cells: Vec<Cell> = Vec::new();
    let mut y: i32 = 0;
    while y < SCREEN_HEIGHT
        invariant
            0 <= y <= SCREEN_HEIGHT,
            ecs.wf(),
            centred(ecs@),
            min_x == screen_bounds(ecs@).0,
            min_y == screen_bounds(ecs@).2,
            cells@ == tile_cells(ecs@, (y * SCREEN_WIDTH) as nat),
        decreases SCREEN_HEIGHT - y,
    {
        let mut x: i32 = 0;
        while x < SCREEN_WIDTH
            invariant
                0 <= x <= SCREEN_WIDTH,
                0 <= y < SCREEN_HEIGHT,
                ecs.wf(),
                centred(ecs@),
                min_x == screen_bounds(ecs@).0,
                min_y == screen_bounds(ecs@).2,
                cells@ == tile_cells(ecs@, (y * SCREEN_WIDTH + x) as nat),
            decreases SCREEN_WIDTH - x,
        {
            let tx = min_x + x;
            let ty = min_y + y;
            assert((y * 48 + x) % 48 == x && (y * 48 + x) / 48 == y) by (nonlinear_arith)
                requires 0 <= x < 48, 0 <= y;
            match ecs.map.index_of(tx, ty) {
                Some(idx) => {
                    if ecs.map.revealed_tiles[idx] {
                        let paint = get_tile_glyph(idx, &ecs.map);
                        cells.push(Cell { x, y, paint });
                    }
                },
                None => {
                    cells.push(Cell { x, y, paint: Paint::Boundary });
                },
            }
            x = x + 1;
        }
        y = y + 1;
    }
    cells
}

/// Lists what the screen is to show, in the order in which it is to be
/// drawn.
pub fn render_camera(ecs: &World) -> (cells: Vec<Cell>)
    requires
        ecs.wf(),
        centred(ecs@),
    ensures
        cells@ == rendered(ecs@),
{
    let (min_x, _max_x, min_y, _max_y) = get_screen_bounds(ecs);
    let mut cells = draw_map(ecs, min_x, min_y);
    let mut data: Vec<(i128, Entity)> = Vec::new();
    let mut i: usize = 0;
    while i < ecs.slots.len()
        invariant
            i <= ecs.slots.len(),
            data@ == drawables(ecs@, i as nat),
        decreases ecs.slots.len() - i,
    {
        match (ecs.slots[i].position, ecs.slots[i].renderable) {
            (Some(_), Some(r)) => {
                data.push((-(r.render_order as i128), Entity { id: i }));
            },
            _ => {},
        }
        i = i + 1;
    }
    let order = sort_ascending(&data);
    let ghost tiles = cells@;
    let mut k: usize = 0;
    assert(cells@ =~= tiles + entities_cells(ecs@, order@, 0));
    while k < order.len()
        invariant
            k <= order.len(),
            ecs.wf(),
            centred(ecs@),
            min_x == screen_bounds(ecs@).0,
            min_y == screen_bounds(ecs@).2,
            cells@ == tiles + entities_cells(ecs@, order@, k as nat),
        decreases order.len() - k,
    {
        draw_entity(ecs, order[k].1, min_x, min_y, &mut cells);
        assert(cells@ =~= tiles + entities_cells(ecs@, order@, (k + 1) as nat));
        k = k + 1;
    }
    cells
}

} // verus!
